//! The generic object model: a named collection of entities with a fresh
//! identifier and an optional back-reference to a governing meta object.

use vstd::prelude::*;

use crate::entity::AttributeKind;
use crate::entity::Entity;
use crate::entity::EntityMap;
use crate::errors::UniqueIdError;
use crate::unique_id::Identifier;
use crate::unique_id::UniqueId;
use crate::unique_id::id_shaped;

verus! {

/// The mathematical view of an `Object`: its name, identifier, optional
/// meta identifier, and entity map, all as plain values.
pub struct ObjectV<AV> {
    pub name: Seq<char>,
    pub id: Seq<char>,
    pub meta_id: Option<Seq<char>>,
    pub entities: Map<Seq<char>, AV>,
}

/// The view of an optional identifier.
pub open spec fn opt_id_view(o: Option<UniqueId>) -> Option<Seq<char>> {
    match o {
        Option::Some(u) => Option::Some(u@),
        Option::None => Option::None,
    }
}

/// The map of override values applied in order, later entries winning.
pub open spec fn apply_mods<AV>(m: Map<Seq<char>, AV>, mods: Seq<(Seq<char>, AV)>) -> Map<
    Seq<char>,
    AV,
>
    decreases mods.len(),
{
    if mods.len() == 0 {
        m
    } else {
        apply_mods(m, mods.drop_last()).insert(mods.last().0, mods.last().1)
    }
}

/// A named collection of entities: either a meta object defining a schema,
/// or an instance object holding concrete values.
pub struct Object<A> {
    pub name: String,
    pub entities: EntityMap<A>,
    pub id: UniqueId,
    pub meta_id: Option<UniqueId>,
}

impl<A: DeepView> DeepView for Object<A> {
    type V = ObjectV<A::V>;

    open spec fn deep_view(&self) -> ObjectV<A::V> {
        ObjectV {
            name: self.name@,
            id: self.id@,
            meta_id: opt_id_view(self.meta_id),
            entities: self.entities@,
        }
    }
}

impl<A> Object<A> {
    /// Entity names pairwise distinct.
    pub open spec fn wf(&self) -> bool {
        self.entities.wf()
    }
}

impl<A: AttributeKind> Object<A> {
    /// Creates a new empty object with a fresh identifier built from the
    /// given prefix.  Fails exactly when the prefix is empty.
    pub fn new(name: &str, prefix: &str, meta_id: Option<UniqueId>) -> (r: Result<
        Self,
        UniqueIdError,
    >)
        ensures
            match r {
                Ok(o) => {
                    &&& prefix@.len() > 0
                    &&& o.name@ == name@
                    &&& o.entities.items@.len() == 0
                    &&& o.entities@ == Map::<Seq<char>, A::V>::empty()
                    &&& o.wf()
                    &&& id_shaped(o.id@, prefix@, 8)
                    &&& o.meta_id == meta_id
                },
                Err(e) => prefix@.len() == 0 && e matches UniqueIdError::MissingPrefix,
            },
    {
        match UniqueId::new(prefix, None) {
            Ok(unique_id) => Ok(
                Object {
                    name: name.to_owned(),
                    entities: EntityMap::new(),
                    id: unique_id,
                    meta_id,
                },
            ),
            Err(err) => Err(err),
        }
    }

    /// Upserts an entity: inserts it under that name, or replaces the
    /// entity of that name.
    pub fn update_entity(&mut self, name: &str, attribute: A)
        requires
            old(self).wf(),
        ensures
            final(self).wf(),
            final(self).entities@ == old(self).entities@.insert(name@, attribute.deep_view()),
            final(self).entities.names() == if old(self).entities@.contains_key(name@) {
                old(self).entities.names()
            } else {
                old(self).entities.names().push(name@)
            },
            final(self).name == old(self).name,
            final(self).id == old(self).id,
            final(self).meta_id == old(self).meta_id,
    {
        self.entities.insert(name, attribute);
    }

    /// The object's name.
    pub fn get_name(&self) -> (r: &str)
        ensures
            r@ == self.name@,
    {
        self.name.as_str()
    }

    /// The identifier of the governing meta object, if any.
    pub fn get_meta_id(&self) -> (r: &Option<UniqueId>)
        ensures
            *r == self.meta_id,
    {
        &self.meta_id
    }

    /// The object's own identifier.
    pub fn get_object_id(&self) -> (r: &UniqueId)
        ensures
            *r == self.id,
    {
        &self.id
    }

    /// An independent copy with the same name, identifier and meta link.
    pub fn duplicate(&self) -> (r: Self)
        requires
            self.wf(),
        ensures
            r.wf(),
            r.deep_view() == self.deep_view(),
            r.entities.names() == self.entities.names(),
            r.entities.items@.len() == self.entities.items@.len(),
    {
        let meta_id = match &self.meta_id {
            Some(u) => Some(u.clone()),
            None => None,
        };
        Object {
            name: self.name.clone(),
            entities: self.entities.duplicate(),
            id: self.id.clone(),
            meta_id,
        }
    }

    /// A copy of the object in which every named override has replaced
    /// the entity of that name; the receiver is unchanged.
    pub fn clone_and_update(&self, modif: Vec<(String, A)>) -> (r: Self)
        requires
            self.wf(),
        ensures
            r.wf(),
            r.name@ == self.name@,
            r.id@ == self.id@,
            opt_id_view(r.meta_id) == opt_id_view(self.meta_id),
            r.entities@ == apply_mods(self.entities@, modif.deep_view()),
    {
        let ghost mods = modif.deep_view();
        let mut out = self.duplicate();
        let mut rest = modif;
        let ghost done: int = 0;
        while rest.len() > 0
            invariant
                out.wf(),
                out.name@ == self.name@,
                out.id@ == self.id@,
                opt_id_view(out.meta_id) == opt_id_view(self.meta_id),
                0 <= done <= mods.len(),
                rest.deep_view() =~= mods.subrange(done, mods.len() as int),
                out.entities@ == apply_mods(self.entities@, mods.take(done)),
            decreases rest@.len(),
        {
            proof {
                assert(rest.deep_view().len() == rest@.len());
                assert(done < mods.len());
            }
            let ghost oldv = rest@;
            let ghost olddv = rest.deep_view();
            let (n, a) = rest.remove(0);
            proof {
                assert(olddv[0] == mods[done]);
                assert((n@, a.deep_view()) == olddv[0]);
                assert(mods.take(done + 1).drop_last() =~= mods.take(done));
                assert(rest@ =~= oldv.subrange(1, oldv.len() as int));
                assert forall|j: int| 0 <= j < rest@.len() implies rest.deep_view()[j] == olddv[j
                    + 1] by {
                    assert(rest@[j] == oldv[j + 1]);
                }
                assert(rest.deep_view() =~= mods.subrange(done + 1, mods.len() as int));
            }
            out.update_entity(n.as_str(), a);
            proof {
                done = done + 1;
            }
        }
        proof {
            assert(mods.take(mods.len() as int) =~= mods);
        }
        out
    }
}

impl<A: AttributeKind> Identifier for Object<A> {
    fn get_id(&self) -> &UniqueId {
        &self.id
    }
}

} // verus!
