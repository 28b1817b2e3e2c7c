//! The generic entity model: a named attribute slot, and an insertion-
//! ordered collection of entities with unique names, viewed in
//! specifications as a map from name to attribute value.

use vstd::prelude::*;
use crate::text::str_eq;

verus! {

/// A consistent interface for creating and reading entities.
pub trait EntityTraits<A>: Sized {
    /// Creates a new entity with the specified name and attribute.
    fn new(name: &str, attribute: A) -> Self;

    /// The name of the entity.
    fn get_name(&self) -> &str;

    /// The attribute associated with the entity.
    fn get_attribute(&self) -> &A;
}

/// An attribute kind usable in entities: it has a mathematical view and
/// can be copied without changing that view.
pub trait AttributeKind: Sized + DeepView {
    /// An independent copy with the same view.
    fn duplicate(&self) -> (r: Self)
        ensures
            r.deep_view() == self.deep_view(),
    ;
}

/// A named attribute slot.
pub struct Entity<A> {
    pub name: String,
    pub attribute: A,
}

impl<A> Entity<A> {
    /// Creates a new entity with the specified name and attribute.
    pub fn new(name: &str, attribute: A) -> (e: Self)
        ensures
            e.name@ == name@,
            e.attribute == attribute,
    {
        Entity { name: name.to_owned(), attribute }
    }

    /// The name of the entity.
    pub fn get_name(&self) -> (r: &str)
        ensures
            r@ == self.name@,
    {
        self.name.as_str()
    }

    /// The attribute associated with the entity.
    pub fn get_attribute(&self) -> (r: &A)
        ensures
            *r == self.attribute,
    {
        &self.attribute
    }
}

impl<A: AttributeKind> Entity<A> {
    /// An independent copy with the same name and attribute view.
    pub fn duplicate(&self) -> (r: Self)
        ensures
            r.name@ == self.name@,
            r.attribute.deep_view() == self.attribute.deep_view(),
    {
        Entity { name: self.name.clone(), attribute: self.attribute.duplicate() }
    }
}

impl<A> EntityTraits<A> for Entity<A> {
    fn new(name: &str, attribute: A) -> Self {
        Entity { name: name.to_owned(), attribute }
    }

    fn get_name(&self) -> &str {
        self.name.as_str()
    }

    fn get_attribute(&self) -> &A {
        &self.attribute
    }
}

/// Pairwise distinct entity names.
pub open spec fn unique_names<A>(items: Seq<Entity<A>>) -> bool {
    forall|i: int, j: int|
        #![trigger items[i].name@, items[j].name@]
        0 <= i < j < items.len() ==> items[i].name@ != items[j].name@
}

/// The entity names, in order.
pub open spec fn names_of<A>(items: Seq<Entity<A>>) -> Seq<Seq<char>> {
    items.map_values(|e: Entity<A>| e.name@)
}

/// The map from entity name to attribute view, later entries winning.
pub open spec fn map_of<A: DeepView>(items: Seq<Entity<A>>) -> Map<Seq<char>, A::V>
    decreases items.len(),
{
    if items.len() == 0 {
        Map::empty()
    } else {
        map_of(items.drop_last()).insert(
            items.last().name@,
            items.last().attribute.deep_view(),
        )
    }
}

/// A name is a key of the map exactly when some entity carries it.
pub proof fn lemma_map_of_contains<A: DeepView>(items: Seq<Entity<A>>, k: Seq<char>)
    ensures
        map_of(items).contains_key(k) <==> exists|i: int|
            0 <= i < items.len() && #[trigger] items[i].name@ == k,
    decreases items.len(),
{
    if items.len() > 0 {
        lemma_map_of_contains(items.drop_last(), k);
        if items.last().name@ == k {
            assert(items[items.len() - 1].name@ == k);
        } else {
            if map_of(items).contains_key(k) {
                let i = choose|i: int|
                    0 <= i < items.drop_last().len() && #[trigger] items.drop_last()[i].name@ == k;
                assert(items[i].name@ == k);
            }
            if exists|i: int| 0 <= i < items.len() && #[trigger] items[i].name@ == k {
                let i = choose|i: int| 0 <= i < items.len() && #[trigger] items[i].name@ == k;
                assert(i < items.len() - 1);
                assert(items.drop_last()[i].name@ == k);
            }
        }
    }
}

/// Under unique names, the map sends each entity's name to its attribute.
pub proof fn lemma_map_of_get<A: DeepView>(items: Seq<Entity<A>>, i: int)
    requires
        unique_names(items),
        0 <= i < items.len(),
    ensures
        map_of(items).contains_key(items[i].name@),
        map_of(items)[items[i].name@] == items[i].attribute.deep_view(),
    decreases items.len(),
{
    if i == items.len() - 1 {
    } else {
        assert(items.drop_last()[i] == items[i]);
        assert(unique_names(items.drop_last())) by {
            assert(forall|a: int, b: int|
                0 <= a < b < items.drop_last().len() ==> items.drop_last()[a] == items[a]
                    && items.drop_last()[b] == items[b]);
        }
        lemma_map_of_get(items.drop_last(), i);
        assert(items.last().name@ != items[i].name@);
    }
}

/// Replacing the entity at `i` by one with the same name updates the map
/// at that name alone.
pub proof fn lemma_map_of_update<A: DeepView>(items: Seq<Entity<A>>, i: int, e: Entity<A>)
    requires
        unique_names(items),
        0 <= i < items.len(),
        e.name@ == items[i].name@,
    ensures
        map_of(items.update(i, e)) == map_of(items).insert(e.name@, e.attribute.deep_view()),
    decreases items.len(),
{
    let upd = items.update(i, e);
    if i == items.len() - 1 {
        assert(upd.drop_last() =~= items.drop_last());
        assert(upd.last() == e);
        assert(map_of(upd) =~= map_of(items).insert(e.name@, e.attribute.deep_view()));
    } else {
        assert(upd.drop_last() =~= items.drop_last().update(i, e));
        assert(upd.last() == items.last());
        assert(items.drop_last()[i] == items[i]);
        assert(unique_names(items.drop_last())) by {
            assert(forall|a: int, b: int|
                0 <= a < b < items.drop_last().len() ==> items.drop_last()[a] == items[a]
                    && items.drop_last()[b] == items[b]);
        }
        lemma_map_of_update(items.drop_last(), i, e);
        assert(items.last().name@ != e.name@);
        assert(map_of(upd) =~= map_of(items).insert(e.name@, e.attribute.deep_view()));
    }
}

/// Two entity sequences equal name-for-name and view-for-view have equal
/// maps.
pub proof fn lemma_map_of_congruent<A: DeepView>(xs: Seq<Entity<A>>, ys: Seq<Entity<A>>)
    requires
        xs.len() == ys.len(),
        forall|i: int|
            0 <= i < xs.len() ==> #[trigger] xs[i].name@ == ys[i].name@
                && xs[i].attribute.deep_view() == ys[i].attribute.deep_view(),
    ensures
        map_of(xs) == map_of(ys),
    decreases xs.len(),
{
    if xs.len() > 0 {
        assert(forall|i: int|
            0 <= i < xs.drop_last().len() ==> #[trigger] xs.drop_last()[i] == xs[i]
                && ys.drop_last()[i] == ys[i]);
        lemma_map_of_congruent(xs.drop_last(), ys.drop_last());
        assert(map_of(xs) =~= map_of(ys));
    }
}

/// An insertion-ordered collection of entities with unique names.  In
/// specifications it reads as a map from entity name to attribute view.
pub struct EntityMap<A> {
    pub items: Vec<Entity<A>>,
}

impl<A: DeepView> View for EntityMap<A> {
    type V = Map<Seq<char>, A::V>;

    open spec fn view(&self) -> Map<Seq<char>, A::V> {
        map_of(self.items@)
    }
}

impl<A> EntityMap<A> {
    /// Entity names pairwise distinct.
    pub open spec fn wf(&self) -> bool {
        unique_names(self.items@)
    }

    /// The entity names, in insertion order.
    pub open spec fn names(&self) -> Seq<Seq<char>> {
        names_of(self.items@)
    }
}

impl<A: AttributeKind> EntityMap<A> {
    /// An empty collection.
    pub fn new() -> (r: Self)
        ensures
            r.items@.len() == 0,
            r@ == Map::<Seq<char>, A::V>::empty(),
            r.wf(),
    {
        EntityMap { items: Vec::new() }
    }

    /// The number of entities.
    pub fn len(&self) -> (r: usize)
        ensures
            r == self.items@.len(),
    {
        self.items.len()
    }

    /// Whether the collection holds no entity.
    pub fn is_empty(&self) -> (r: bool)
        ensures
            r == (self.items@.len() == 0),
    {
        self.items.len() == 0
    }

    /// The entity at position `i`, in insertion order.
    pub fn item_at(&self, i: usize) -> (r: &Entity<A>)
        requires
            i < self.items@.len(),
        ensures
            *r == self.items@[i as int],
    {
        &self.items[i]
    }

    fn find_index(&self, name: &str) -> (r: Option<usize>)
        ensures
            match r {
                Some(i) => i < self.items@.len() && self.items@[i as int].name@ == name@,
                None => forall|i: int| 0 <= i < self.items@.len() ==> self.items@[i].name@ != name@,
            },
    {
        let mut i: usize = 0;
        while i < self.items.len()
            invariant
                i <= self.items@.len(),
                forall|j: int| 0 <= j < i ==> self.items@[j].name@ != name@,
            decreases self.items@.len() - i,
        {
            if str_eq(self.items[i].name.as_str(), name) {
                return Some(i);
            }
            i = i + 1;
        }
        None
    }

    /// Whether an entity of that name is present.
    pub fn contains_key(&self, name: &str) -> (r: bool)
        ensures
            r == self@.contains_key(name@),
    {
        let found = self.find_index(name);
        proof {
            lemma_map_of_contains(self.items@, name@);
        }
        match found {
            Some(i) => {
                assert(self.items@[i as int].name@ == name@);
                true
            },
            None => false,
        }
    }

    /// The entity of that name, if present.
    pub fn get(&self, name: &str) -> (r: Option<&Entity<A>>)
        requires
            self.wf(),
        ensures
            match r {
                Some(e) => self@.contains_key(name@) && e.name@ == name@
                    && e.attribute.deep_view() == self@[name@],
                None => !self@.contains_key(name@),
            },
    {
        let found = self.find_index(name);
        proof {
            lemma_map_of_contains(self.items@, name@);
        }
        match found {
            Some(i) => {
                proof {
                    lemma_map_of_get(self.items@, i as int);
                }
                Some(&self.items[i])
            },
            None => None,
        }
    }

    /// Inserts an entity under `name`, replacing any entity of that name.
    pub fn insert(&mut self, name: &str, attribute: A)
        requires
            old(self).wf(),
        ensures
            final(self).wf(),
            final(self)@ == old(self)@.insert(name@, attribute.deep_view()),
            final(self).names() == if old(self)@.contains_key(name@) {
                old(self).names()
            } else {
                old(self).names().push(name@)
            },
    {
        proof {
            lemma_map_of_contains(self.items@, name@);
        }
        let e = Entity::new(name, attribute);
        let found = self.find_index(name);
        match found {
            Some(i) => {
                let ghost items0 = self.items@;
                self.items.remove(i);
                self.items.insert(i, e);
                proof {
                    assert(self.items@ =~= items0.update(i as int, e));
                    lemma_map_of_update(items0, i as int, e);
                    assert(names_of(self.items@) =~= names_of(items0));
                }
            },
            None => {
                let ghost items0 = self.items@;
                self.items.push(e);
                proof {
                    assert(self.items@.drop_last() =~= items0);
                    assert(names_of(self.items@) =~= names_of(items0).push(name@));
                }
            },
        }
    }

    /// An independent copy with the same contents.
    pub fn duplicate(&self) -> (r: Self)
        requires
            self.wf(),
        ensures
            r.wf(),
            r@ == self@,
            r.names() == self.names(),
            r.items@.len() == self.items@.len(),
    {
        let mut out: Vec<Entity<A>> = Vec::new();
        let mut i: usize = 0;
        while i < self.items.len()
            invariant
                i <= self.items@.len(),
                out@.len() == i,
                forall|j: int|
                    0 <= j < i ==> #[trigger] out@[j].name@ == self.items@[j].name@
                        && out@[j].attribute.deep_view() == self.items@[j].attribute.deep_view(),
            decreases self.items@.len() - i,
        {
            out.push(self.items[i].duplicate());
            i = i + 1;
        }
        let r = EntityMap { items: out };
        proof {
            lemma_map_of_congruent(r.items@, self.items@);
            assert(names_of(r.items@) =~= names_of(self.items@));
        }
        r
    }
}

} // verus!
