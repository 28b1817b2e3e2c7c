//! In-memory stores: objects keyed by their identifier with lookups by
//! meta identifier and by name, and templates keyed by their identifier
//! with a lookup by parent object.

use vstd::prelude::*;
use vstd::string::StrSliceExecFns;

use crate::entity::AttributeKind;
use crate::errors::CollectionError;
use crate::instance::InstanceAttributes;
use crate::meta::MetaAttributes;
use crate::object::Object;
use crate::object::ObjectV;
use crate::template::Template;
use crate::template::TemplateV;
use crate::text::str_eq;
use crate::unique_id::UniqueId;

verus! {

// ---------------------------------------------------------------------------
// Object store
// ---------------------------------------------------------------------------

/// Pairwise distinct object identifiers.
pub open spec fn unique_ids<AV>(s: Seq<ObjectV<AV>>) -> bool {
    forall|i: int, j: int|
        #![trigger s[i].id, s[j].id]
        0 <= i < j < s.len() ==> s[i].id != s[j].id
}

/// The map from identifier to stored object, later entries winning.
pub open spec fn omap_of<AV>(s: Seq<ObjectV<AV>>) -> Map<Seq<char>, ObjectV<AV>>
    decreases s.len(),
{
    if s.len() == 0 {
        Map::empty()
    } else {
        omap_of(s.drop_last()).insert(s.last().id, s.last())
    }
}

/// An identifier keys the map exactly when some stored object carries it.
pub proof fn lemma_omap_contains<AV>(s: Seq<ObjectV<AV>>, k: Seq<char>)
    ensures
        omap_of(s).contains_key(k) <==> exists|i: int| 0 <= i < s.len() && #[trigger] s[i].id == k,
    decreases s.len(),
{
    if s.len() > 0 {
        lemma_omap_contains(s.drop_last(), k);
        if s.last().id == k {
            assert(s[s.len() - 1].id == k);
        } else {
            if omap_of(s).contains_key(k) {
                let i = choose|i: int|
                    0 <= i < s.drop_last().len() && #[trigger] s.drop_last()[i].id == k;
                assert(s[i].id == k);
            }
            if exists|i: int| 0 <= i < s.len() && #[trigger] s[i].id == k {
                let i = choose|i: int| 0 <= i < s.len() && #[trigger] s[i].id == k;
                assert(i < s.len() - 1);
                assert(s.drop_last()[i].id == k);
            }
        }
    }
}

/// Under unique identifiers the map sends each stored identifier to its
/// object.
pub proof fn lemma_omap_get<AV>(s: Seq<ObjectV<AV>>, i: int)
    requires
        unique_ids(s),
        0 <= i < s.len(),
    ensures
        omap_of(s).contains_key(s[i].id),
        omap_of(s)[s[i].id] == s[i],
    decreases s.len(),
{
    if i < s.len() - 1 {
        assert(s.drop_last()[i] == s[i]);
        assert(unique_ids(s.drop_last())) by {
            assert(forall|a: int, b: int|
                0 <= a < b < s.drop_last().len() ==> s.drop_last()[a] == s[a] && s.drop_last()[b]
                    == s[b]);
        }
        lemma_omap_get(s.drop_last(), i);
        assert(s.last().id != s[i].id);
    }
}

/// Replacing the object at `i` by one with the same identifier updates
/// the map at that identifier alone.
pub proof fn lemma_omap_update<AV>(s: Seq<ObjectV<AV>>, i: int, o: ObjectV<AV>)
    requires
        unique_ids(s),
        0 <= i < s.len(),
        o.id == s[i].id,
    ensures
        omap_of(s.update(i, o)) == omap_of(s).insert(o.id, o),
    decreases s.len(),
{
    let upd = s.update(i, o);
    if i == s.len() - 1 {
        assert(upd.drop_last() =~= s.drop_last());
        assert(upd.last() == o);
        assert(omap_of(upd) =~= omap_of(s).insert(o.id, o));
    } else {
        assert(upd.drop_last() =~= s.drop_last().update(i, o));
        assert(upd.last() == s.last());
        assert(s.drop_last()[i] == s[i]);
        assert(unique_ids(s.drop_last())) by {
            assert(forall|a: int, b: int|
                0 <= a < b < s.drop_last().len() ==> s.drop_last()[a] == s[a] && s.drop_last()[b]
                    == s[b]);
        }
        lemma_omap_update(s.drop_last(), i, o);
        assert(s.last().id != o.id);
        assert(omap_of(upd) =~= omap_of(s).insert(o.id, o));
    }
}

/// Removing the object at `i` removes its identifier from the map alone.
pub proof fn lemma_omap_remove<AV>(s: Seq<ObjectV<AV>>, i: int)
    requires
        unique_ids(s),
        0 <= i < s.len(),
    ensures
        omap_of(s.remove(i)) == omap_of(s).remove(s[i].id),
    decreases s.len(),
{
    let rem = s.remove(i);
    assert(unique_ids(s.drop_last())) by {
        assert(forall|a: int, b: int|
            0 <= a < b < s.drop_last().len() ==> s.drop_last()[a] == s[a] && s.drop_last()[b]
                == s[b]);
    }
    if i == s.len() - 1 {
        assert(rem =~= s.drop_last());
        lemma_omap_contains(s.drop_last(), s[i].id);
        assert(!omap_of(s.drop_last()).contains_key(s[i].id)) by {
            if omap_of(s.drop_last()).contains_key(s[i].id) {
                let j = choose|j: int|
                    0 <= j < s.drop_last().len() && #[trigger] s.drop_last()[j].id == s[i].id;
                assert(s[j].id == s[i].id);
            }
        }
        assert(omap_of(rem) =~= omap_of(s).remove(s[i].id));
    } else {
        assert(rem.drop_last() =~= s.drop_last().remove(i));
        assert(rem.last() == s.last());
        assert(s.drop_last()[i] == s[i]);
        lemma_omap_remove(s.drop_last(), i);
        assert(s.last().id != s[i].id);
        assert(omap_of(rem) =~= omap_of(s).remove(s[i].id));
    }
}

/// After a successful removal the identifier keys nothing in the store,
/// so a subsequent lookup of the same identifier cannot return an object:
/// by `get`'s contract it must fail with `MissingObject`.
pub proof fn lemma_remove_then_get_fails<A: DeepView>(
    before: ObjectCollection<A>,
    after: ObjectCollection<A>,
    id: Seq<char>,
)
    requires
        after.key_map() == before.key_map().remove(id),
    ensures
        !after.key_map().contains_key(id),
{
}

/// The stored objects whose meta identifier equals `m`, in storage order.
pub open spec fn filter_by_meta<AV>(s: Seq<ObjectV<AV>>, m: Seq<char>) -> Seq<ObjectV<AV>>
    decreases s.len(),
{
    if s.len() == 0 {
        Seq::empty()
    } else {
        let prev = filter_by_meta(s.drop_last(), m);
        if s.last().meta_id == Option::Some(m) {
            prev.push(s.last())
        } else {
            prev
        }
    }
}

/// The stored objects whose name equals `n`, in storage order.
pub open spec fn filter_by_name<AV>(s: Seq<ObjectV<AV>>, n: Seq<char>) -> Seq<ObjectV<AV>>
    decreases s.len(),
{
    if s.len() == 0 {
        Seq::empty()
    } else {
        let prev = filter_by_name(s.drop_last(), n);
        if s.last().name == n {
            prev.push(s.last())
        } else {
            prev
        }
    }
}

/// An in-memory store of objects keyed by their identifier.
pub struct ObjectCollection<A> {
    pub data: Vec<Object<A>>,
}

impl<A: DeepView> ObjectCollection<A> {
    /// The stored objects' views, in storage order.
    pub open spec fn objects(&self) -> Seq<ObjectV<A::V>> {
        self.data.deep_view()
    }

    /// The map from identifier to stored object.
    pub open spec fn key_map(&self) -> Map<Seq<char>, ObjectV<A::V>> {
        omap_of(self.objects())
    }

    /// Identifiers pairwise distinct and every stored object well formed.
    pub open spec fn wf(&self) -> bool {
        &&& unique_ids(self.objects())
        &&& forall|i: int| 0 <= i < self.data@.len() ==> #[trigger] self.data@[i].wf()
    }
}

impl<A: AttributeKind> ObjectCollection<A> {
    /// An empty store.
    pub fn new() -> (r: Self)
        ensures
            r.wf(),
            r.data@.len() == 0,
            r.key_map() == Map::<Seq<char>, ObjectV<A::V>>::empty(),
    {
        ObjectCollection { data: Vec::new() }
    }

    fn find_index(&self, id: &UniqueId) -> (r: Option<usize>)
        ensures
            match r {
                Some(i) => i < self.objects().len() && self.objects()[i as int].id == id@,
                None => forall|i: int|
                    0 <= i < self.objects().len() ==> (#[trigger] self.objects()[i]).id != id@,
            },
    {
        let mut i: usize = 0;
        while i < self.data.len()
            invariant
                i <= self.data@.len(),
                forall|j: int| 0 <= j < i ==> (#[trigger] self.objects()[j]).id != id@,
            decreases self.data@.len() - i,
        {
            if str_eq(self.data[i].id.as_str(), id.as_str()) {
                assert(self.objects()[i as int].id == id@);
                return Some(i);
            }
            assert(self.objects()[i as int].id != id@);
            i = i + 1;
        }
        None
    }

    /// Stores an independent copy of the object under its identifier,
    /// replacing any object stored under that identifier.
    pub fn insert(&mut self, value: &Object<A>)
        requires
            old(self).wf(),
            value.wf(),
        ensures
            final(self).wf(),
            final(self).key_map() == old(self).key_map().insert(value.id@, value.deep_view()),
            old(self).key_map().contains_key(value.id@) ==> exists|i: int|
                0 <= i < old(self).objects().len() && (#[trigger] old(self).objects()[i]).id
                    == value.id@ && final(self).objects() == old(self).objects().update(
                    i,
                    value.deep_view(),
                ),
            !old(self).key_map().contains_key(value.id@) ==> final(self).objects() == old(
                self,
            ).objects().push(value.deep_view()),
    {
        proof {
            lemma_omap_contains(self.objects(), value.id@);
        }
        let copy = value.duplicate();
        let ghost s0 = self.objects();
        let found = self.find_index(&value.id);
        match found {
            Some(i) => {
                self.data.remove(i);
                self.data.insert(i, copy);
                proof {
                    assert(self.objects() =~= s0.update(i as int, value.deep_view()));
                    lemma_omap_update(s0, i as int, value.deep_view());
                }
            },
            None => {
                self.data.push(copy);
                proof {
                    assert(self.objects().drop_last() =~= s0);
                    assert(self.objects() =~= s0.push(value.deep_view()));
                }
            },
        }
    }

    /// The stored object with that identifier.  Fails with
    /// `MissingObject` exactly when none is stored.
    pub fn get(&self, id: &UniqueId) -> (r: Result<&Object<A>, CollectionError>)
        requires
            self.wf(),
        ensures
            match r {
                Ok(o) => {
                    &&& self.key_map().contains_key(id@)
                    &&& o.deep_view() == self.key_map()[id@]
                    &&& o.wf()
                },
                Err(e) => {
                    &&& !self.key_map().contains_key(id@)
                    &&& e matches CollectionError::MissingObject(s) && s@ == id@
                },
            },
    {
        proof {
            lemma_omap_contains(self.objects(), id@);
        }
        let found = self.find_index(id);
        match found {
            Some(i) => {
                proof {
                    lemma_omap_get(self.objects(), i as int);
                }
                Ok(&self.data[i])
            },
            None => Err(CollectionError::MissingObject(id.as_str().to_owned())),
        }
    }

    /// Removes the stored object with that identifier.  Fails with
    /// `MissingObject` exactly when none is stored.
    pub fn remove(&mut self, id: &UniqueId) -> (r: Result<(), CollectionError>)
        requires
            old(self).wf(),
        ensures
            final(self).wf(),
            match r {
                Ok(_) => {
                    &&& old(self).key_map().contains_key(id@)
                    &&& final(self).key_map() == old(self).key_map().remove(id@)
                },
                Err(e) => {
                    &&& !old(self).key_map().contains_key(id@)
                    &&& e matches CollectionError::MissingObject(s) && s@ == id@
                    &&& *final(self) == *old(self)
                },
            },
    {
        proof {
            lemma_omap_contains(self.objects(), id@);
        }
        let ghost s0 = self.objects();
        let found = self.find_index(id);
        match found {
            Some(i) => {
                self.data.remove(i);
                proof {
                    assert(self.objects() =~= s0.remove(i as int));
                    lemma_omap_remove(s0, i as int);
                    assert(unique_ids(self.objects())) by {
                        assert(forall|a: int|
                            0 <= a < s0.remove(i as int).len() ==> exists|b: int|
                                0 <= b < s0.len() && #[trigger] s0.remove(i as int)[a] == s0[b]);
                    }
                }
                Ok(())
            },
            None => Err(CollectionError::MissingObject(id.as_str().to_owned())),
        }
    }

    /// All stored objects whose meta identifier equals the argument, in
    /// storage order.  An empty result is an error, `NoMatchingObject`.
    pub fn get_objects_by_meta_id(&self, meta_id: &UniqueId) -> (r: Result<
        Vec<Object<A>>,
        CollectionError,
    >)
        requires
            self.wf(),
        ensures
            match r {
                Ok(v) => {
                    &&& v.deep_view() == filter_by_meta(self.objects(), meta_id@)
                    &&& v@.len() > 0
                    &&& forall|i: int| 0 <= i < v@.len() ==> (#[trigger] v@[i]).wf()
                },
                Err(e) => {
                    &&& filter_by_meta(self.objects(), meta_id@).len() == 0
                    &&& e matches CollectionError::NoMatchingObject(s) && s@ == meta_id@
                },
            },
    {
        let mut out: Vec<Object<A>> = Vec::new();
        let mut i: usize = 0;
        while i < self.data.len()
            invariant
                i <= self.data@.len(),
                self.wf(),
                out.deep_view() =~= filter_by_meta(self.objects().take(i as int), meta_id@),
                forall|j: int| 0 <= j < out@.len() ==> (#[trigger] out@[j]).wf(),
            decreases self.data@.len() - i,
        {
            proof {
                assert(self.objects().take(i + 1).drop_last() =~= self.objects().take(i as int));
                assert(self.objects().take(i + 1).last() == self.objects()[i as int]);
            }
            let keep: bool = match &self.data[i].meta_id {
                Some(mid) => str_eq(mid.as_str(), meta_id.as_str()),
                None => false,
            };
            if keep {
                let ghost odv = out.deep_view();
                out.push(self.data[i].duplicate());
                proof {
                    assert(out.deep_view() =~= odv.push(self.objects()[i as int]));
                }
            }
            i = i + 1;
        }
        proof {
            assert(self.objects().take(self.data@.len() as int) =~= self.objects());
        }
        if out.len() == 0 {
            Err(CollectionError::NoMatchingObject(meta_id.as_str().to_owned()))
        } else {
            Ok(out)
        }
    }

    /// All stored objects whose name equals the argument, in storage
    /// order.  An empty result is an error, `NoMatchingObject`.
    pub fn get_objects_by_name(&self, name: &str) -> (r: Result<Vec<Object<A>>, CollectionError>)
        requires
            self.wf(),
        ensures
            match r {
                Ok(v) => {
                    &&& v.deep_view() == filter_by_name(self.objects(), name@)
                    &&& v@.len() > 0
                    &&& forall|i: int| 0 <= i < v@.len() ==> (#[trigger] v@[i]).wf()
                },
                Err(e) => {
                    &&& filter_by_name(self.objects(), name@).len() == 0
                    &&& e matches CollectionError::NoMatchingObject(s) && s@ == name@
                },
            },
    {
        let mut out: Vec<Object<A>> = Vec::new();
        let mut i: usize = 0;
        while i < self.data.len()
            invariant
                i <= self.data@.len(),
                self.wf(),
                out.deep_view() =~= filter_by_name(self.objects().take(i as int), name@),
                forall|j: int| 0 <= j < out@.len() ==> (#[trigger] out@[j]).wf(),
            decreases self.data@.len() - i,
        {
            proof {
                assert(self.objects().take(i + 1).drop_last() =~= self.objects().take(i as int));
                assert(self.objects().take(i + 1).last() == self.objects()[i as int]);
            }
            if str_eq(self.data[i].name.as_str(), name) {
                let ghost odv = out.deep_view();
                out.push(self.data[i].duplicate());
                proof {
                    assert(out.deep_view() =~= odv.push(self.objects()[i as int]));
                }
            }
            i = i + 1;
        }
        proof {
            assert(self.objects().take(self.data@.len() as int) =~= self.objects());
        }
        if out.len() == 0 {
            Err(CollectionError::NoMatchingObject(name.to_owned()))
        } else {
            Ok(out)
        }
    }
}

/// A store of meta objects.
pub type MetaObjectCollection = ObjectCollection<MetaAttributes>;

/// A store of instance objects.
pub type InstanceObjectCollection = ObjectCollection<InstanceAttributes>;

// ---------------------------------------------------------------------------
// Template store
// ---------------------------------------------------------------------------

/// Pairwise distinct template identifiers.
pub open spec fn unique_template_ids(s: Seq<TemplateV>) -> bool {
    forall|i: int, j: int|
        #![trigger s[i].id, s[j].id]
        0 <= i < j < s.len() ==> s[i].id != s[j].id
}

/// The map from identifier to stored template, later entries winning.
pub open spec fn tmap_of(s: Seq<TemplateV>) -> Map<Seq<char>, TemplateV>
    decreases s.len(),
{
    if s.len() == 0 {
        Map::empty()
    } else {
        tmap_of(s.drop_last()).insert(s.last().id, s.last())
    }
}

/// An identifier keys the map exactly when some stored template carries
/// it.
pub proof fn lemma_tmap_contains(s: Seq<TemplateV>, k: Seq<char>)
    ensures
        tmap_of(s).contains_key(k) <==> exists|i: int| 0 <= i < s.len() && #[trigger] s[i].id == k,
    decreases s.len(),
{
    if s.len() > 0 {
        lemma_tmap_contains(s.drop_last(), k);
        if s.last().id == k {
            assert(s[s.len() - 1].id == k);
        } else {
            if tmap_of(s).contains_key(k) {
                let i = choose|i: int|
                    0 <= i < s.drop_last().len() && #[trigger] s.drop_last()[i].id == k;
                assert(s[i].id == k);
            }
            if exists|i: int| 0 <= i < s.len() && #[trigger] s[i].id == k {
                let i = choose|i: int| 0 <= i < s.len() && #[trigger] s[i].id == k;
                assert(i < s.len() - 1);
                assert(s.drop_last()[i].id == k);
            }
        }
    }
}

/// Under unique identifiers the map sends each stored identifier to its
/// template.
pub proof fn lemma_tmap_get(s: Seq<TemplateV>, i: int)
    requires
        unique_template_ids(s),
        0 <= i < s.len(),
    ensures
        tmap_of(s).contains_key(s[i].id),
        tmap_of(s)[s[i].id] == s[i],
    decreases s.len(),
{
    if i < s.len() - 1 {
        assert(s.drop_last()[i] == s[i]);
        assert(unique_template_ids(s.drop_last())) by {
            assert(forall|a: int, b: int|
                0 <= a < b < s.drop_last().len() ==> s.drop_last()[a] == s[a] && s.drop_last()[b]
                    == s[b]);
        }
        lemma_tmap_get(s.drop_last(), i);
        assert(s.last().id != s[i].id);
    }
}

/// Replacing the template at `i` by one with the same identifier updates
/// the map at that identifier alone.
pub proof fn lemma_tmap_update(s: Seq<TemplateV>, i: int, t: TemplateV)
    requires
        unique_template_ids(s),
        0 <= i < s.len(),
        t.id == s[i].id,
    ensures
        tmap_of(s.update(i, t)) == tmap_of(s).insert(t.id, t),
    decreases s.len(),
{
    let upd = s.update(i, t);
    if i == s.len() - 1 {
        assert(upd.drop_last() =~= s.drop_last());
        assert(upd.last() == t);
        assert(tmap_of(upd) =~= tmap_of(s).insert(t.id, t));
    } else {
        assert(upd.drop_last() =~= s.drop_last().update(i, t));
        assert(upd.last() == s.last());
        assert(s.drop_last()[i] == s[i]);
        assert(unique_template_ids(s.drop_last())) by {
            assert(forall|a: int, b: int|
                0 <= a < b < s.drop_last().len() ==> s.drop_last()[a] == s[a] && s.drop_last()[b]
                    == s[b]);
        }
        lemma_tmap_update(s.drop_last(), i, t);
        assert(s.last().id != t.id);
        assert(tmap_of(upd) =~= tmap_of(s).insert(t.id, t));
    }
}

/// Removing the template at `i` removes its identifier from the map
/// alone.
pub proof fn lemma_tmap_remove(s: Seq<TemplateV>, i: int)
    requires
        unique_template_ids(s),
        0 <= i < s.len(),
    ensures
        tmap_of(s.remove(i)) == tmap_of(s).remove(s[i].id),
    decreases s.len(),
{
    let rem = s.remove(i);
    assert(unique_template_ids(s.drop_last())) by {
        assert(forall|a: int, b: int|
            0 <= a < b < s.drop_last().len() ==> s.drop_last()[a] == s[a] && s.drop_last()[b]
                == s[b]);
    }
    if i == s.len() - 1 {
        assert(rem =~= s.drop_last());
        lemma_tmap_contains(s.drop_last(), s[i].id);
        assert(!tmap_of(s.drop_last()).contains_key(s[i].id)) by {
            if tmap_of(s.drop_last()).contains_key(s[i].id) {
                let j = choose|j: int|
                    0 <= j < s.drop_last().len() && #[trigger] s.drop_last()[j].id == s[i].id;
                assert(s[j].id == s[i].id);
            }
        }
        assert(tmap_of(rem) =~= tmap_of(s).remove(s[i].id));
    } else {
        assert(rem.drop_last() =~= s.drop_last().remove(i));
        assert(rem.last() == s.last());
        assert(s.drop_last()[i] == s[i]);
        lemma_tmap_remove(s.drop_last(), i);
        assert(s.last().id != s[i].id);
        assert(tmap_of(rem) =~= tmap_of(s).remove(s[i].id));
    }
}

/// The stored templates whose parent identifier equals `p`, in storage
/// order.
pub open spec fn filter_by_parent(s: Seq<TemplateV>, p: Seq<char>) -> Seq<TemplateV>
    decreases s.len(),
{
    if s.len() == 0 {
        Seq::empty()
    } else {
        let prev = filter_by_parent(s.drop_last(), p);
        if s.last().parent == p {
            prev.push(s.last())
        } else {
            prev
        }
    }
}

/// An in-memory store of templates keyed by their identifier.
pub struct TemplateCollection {
    pub data: Vec<Template>,
}

impl TemplateCollection {
    /// The stored templates' views, in storage order.
    pub open spec fn templates(&self) -> Seq<TemplateV> {
        self.data.deep_view()
    }

    /// The map from identifier to stored template.
    pub open spec fn key_map(&self) -> Map<Seq<char>, TemplateV> {
        tmap_of(self.templates())
    }

    /// Identifiers pairwise distinct.
    pub open spec fn wf(&self) -> bool {
        unique_template_ids(self.templates())
    }

    /// An empty store.
    pub fn new() -> (r: Self)
        ensures
            r.wf(),
            r.data@.len() == 0,
            r.key_map() == Map::<Seq<char>, TemplateV>::empty(),
    {
        TemplateCollection { data: Vec::new() }
    }

    fn find_index(&self, id: &UniqueId) -> (r: Option<usize>)
        ensures
            match r {
                Some(i) => i < self.templates().len() && self.templates()[i as int].id == id@,
                None => forall|i: int|
                    0 <= i < self.templates().len() ==> (#[trigger] self.templates()[i]).id != id@,
            },
    {
        let mut i: usize = 0;
        while i < self.data.len()
            invariant
                i <= self.data@.len(),
                forall|j: int| 0 <= j < i ==> (#[trigger] self.templates()[j]).id != id@,
            decreases self.data@.len() - i,
        {
            if str_eq(self.data[i].template_id().as_str(), id.as_str()) {
                assert(self.templates()[i as int].id == id@);
                return Some(i);
            }
            assert(self.templates()[i as int].id != id@);
            i = i + 1;
        }
        None
    }

    /// Stores an independent copy of the template under its identifier,
    /// replacing any template stored under that identifier.
    pub fn insert(&mut self, value: &Template)
        requires
            old(self).wf(),
        ensures
            final(self).wf(),
            final(self).key_map() == old(self).key_map().insert(
                value.deep_view().id,
                value.deep_view(),
            ),
    {
        proof {
            lemma_tmap_contains(self.templates(), value.deep_view().id);
        }
        let copy = value.clone();
        let ghost s0 = self.templates();
        let found = self.find_index(value.template_id());
        match found {
            Some(i) => {
                self.data.remove(i);
                self.data.insert(i, copy);
                proof {
                    assert(self.templates() =~= s0.update(i as int, value.deep_view()));
                    lemma_tmap_update(s0, i as int, value.deep_view());
                }
            },
            None => {
                self.data.push(copy);
                proof {
                    assert(self.templates().drop_last() =~= s0);
                    assert(self.templates() =~= s0.push(value.deep_view()));
                }
            },
        }
    }

    /// The stored template with that identifier.  Fails with
    /// `MissingObject` exactly when none is stored.
    pub fn get(&self, id: &UniqueId) -> (r: Result<&Template, CollectionError>)
        requires
            self.wf(),
        ensures
            match r {
                Ok(t) => {
                    &&& self.key_map().contains_key(id@)
                    &&& t.deep_view() == self.key_map()[id@]
                },
                Err(e) => {
                    &&& !self.key_map().contains_key(id@)
                    &&& e matches CollectionError::MissingObject(s) && s@ == id@
                },
            },
    {
        proof {
            lemma_tmap_contains(self.templates(), id@);
        }
        let found = self.find_index(id);
        match found {
            Some(i) => {
                proof {
                    lemma_tmap_get(self.templates(), i as int);
                }
                Ok(&self.data[i])
            },
            None => Err(CollectionError::MissingObject(id.as_str().to_owned())),
        }
    }

    /// Removes the stored template with that identifier.  Fails with
    /// `MissingObject` exactly when none is stored.
    pub fn remove(&mut self, id: &UniqueId) -> (r: Result<(), CollectionError>)
        requires
            old(self).wf(),
        ensures
            final(self).wf(),
            match r {
                Ok(_) => {
                    &&& old(self).key_map().contains_key(id@)
                    &&& final(self).key_map() == old(self).key_map().remove(id@)
                },
                Err(e) => {
                    &&& !old(self).key_map().contains_key(id@)
                    &&& e matches CollectionError::MissingObject(s) && s@ == id@
                    &&& *final(self) == *old(self)
                },
            },
    {
        proof {
            lemma_tmap_contains(self.templates(), id@);
        }
        let ghost s0 = self.templates();
        let found = self.find_index(id);
        match found {
            Some(i) => {
                self.data.remove(i);
                proof {
                    assert(self.templates() =~= s0.remove(i as int));
                    lemma_tmap_remove(s0, i as int);
                    assert(unique_template_ids(self.templates())) by {
                        assert(forall|a: int|
                            0 <= a < s0.remove(i as int).len() ==> exists|b: int|
                                0 <= b < s0.len() && #[trigger] s0.remove(i as int)[a] == s0[b]);
                    }
                }
                Ok(())
            },
            None => Err(CollectionError::MissingObject(id.as_str().to_owned())),
        }
    }

    /// All stored templates whose parent identifier equals the argument,
    /// in storage order.  An empty result is an error, `NoParentObject`.
    pub fn get_by_parent_object(&self, parent_object_id: &UniqueId) -> (r: Result<
        Vec<Template>,
        CollectionError,
    >)
        requires
            self.wf(),
        ensures
            match r {
                Ok(v) => {
                    &&& v.deep_view() == filter_by_parent(self.templates(), parent_object_id@)
                    &&& v@.len() > 0
                },
                Err(e) => {
                    &&& filter_by_parent(self.templates(), parent_object_id@).len() == 0
                    &&& e matches CollectionError::NoParentObject(s) && s@ == parent_object_id@
                },
            },
    {
        let mut out: Vec<Template> = Vec::new();
        let mut i: usize = 0;
        while i < self.data.len()
            invariant
                i <= self.data@.len(),
                self.wf(),
                out.deep_view() =~= filter_by_parent(
                    self.templates().take(i as int),
                    parent_object_id@,
                ),
            decreases self.data@.len() - i,
        {
            proof {
                assert(self.templates().take(i + 1).drop_last() =~= self.templates().take(
                    i as int,
                ));
                assert(self.templates().take(i + 1).last() == self.templates()[i as int]);
            }
            if str_eq(self.data[i].get_parent_object().as_str(), parent_object_id.as_str()) {
                let ghost odv = out.deep_view();
                out.push(self.data[i].clone());
                proof {
                    assert(out.deep_view() =~= odv.push(self.templates()[i as int]));
                }
            }
            i = i + 1;
        }
        proof {
            assert(self.templates().take(self.data@.len() as int) =~= self.templates());
        }
        if out.len() == 0 {
            Err(CollectionError::NoParentObject(parent_object_id.as_str().to_owned()))
        } else {
            Ok(out)
        }
    }
}

} // verus!
