//! Instance attributes: the concrete, always-nullable values held by an
//! instance object, and the builder that turns raw textual input into a
//! typed instance conforming to a meta object.

use vstd::prelude::*;
use vstd::string::StrSliceExecFns;
use vstd::string::StringExecFns;

use crate::entity::AttributeKind;
use crate::entity::Entity;
use crate::entity::EntityMap;
use crate::entity::unique_names;
use crate::entity::lemma_map_of_contains;
use crate::entity::map_of;
use crate::errors::AttributeError;
use crate::errors::UniqueIdError;
use crate::meta::MetaAttributes;
use crate::meta::MetaObject;
use crate::meta::opt_str_view;
use crate::meta::spec_null_of;
use crate::meta::spec_parse_result;
use crate::object::Object;
use crate::object::opt_id_view;
use crate::text::parse_i16_str;
use crate::text::spec_dec_signed;
use crate::text::spec_parse_i16;
use crate::text::i16_to_string;
use crate::unique_id::UniqueId;
use crate::unique_id::id_shaped;

verus! {

/// An entity of an instance object: a named attribute value.
pub type InstanceEntity = Entity<InstanceAttributes>;

/// The actual values for the attribute types of an instance object,
/// always nullable.
#[derive(Debug, PartialEq)]
pub enum InstanceAttributes {
    Text(Option<String>),
    I16(Option<i16>),
}

/// The mathematical view of an instance attribute value.
pub enum InstanceValue {
    Text(Option<Seq<char>>),
    I16(Option<i16>),
}

impl DeepView for InstanceAttributes {
    type V = InstanceValue;

    open spec fn deep_view(&self) -> InstanceValue {
        match self {
            InstanceAttributes::Text(o) => InstanceValue::Text(
                match o {
                    Option::Some(s) => Option::Some(s@),
                    Option::None => Option::None,
                },
            ),
            InstanceAttributes::I16(o) => InstanceValue::I16(*o),
        }
    }
}

impl AttributeKind for InstanceAttributes {
    fn duplicate(&self) -> (r: Self) {
        match self {
            InstanceAttributes::Text(Some(s)) => InstanceAttributes::Text(Some(s.clone())),
            InstanceAttributes::Text(None) => InstanceAttributes::Text(None),
            InstanceAttributes::I16(Some(v)) => InstanceAttributes::I16(Some(*v)),
            InstanceAttributes::I16(None) => InstanceAttributes::I16(None),
        }
    }
}

/// The textual rendering of an instance value: the text or decimal
/// digits, or the literal `Null` when the value is absent.
pub open spec fn spec_render_value(v: InstanceValue) -> Seq<char> {
    match v {
        InstanceValue::Text(Option::Some(s)) => s,
        InstanceValue::Text(Option::None) => seq!['N', 'u', 'l', 'l'],
        InstanceValue::I16(Option::Some(n)) => spec_dec_signed(n as int),
        InstanceValue::I16(Option::None) => seq!['N', 'u', 'l', 'l'],
    }
}

impl InstanceAttributes {
    /// Parses a raw input into a `Text` attribute, verbatim.
    pub fn parse_text(input: Option<&str>) -> (r: Result<InstanceAttributes, AttributeError>)
        ensures
            r matches Ok(v) && v.deep_view() == InstanceValue::Text(opt_str_view(input)),
    {
        match input {
            Some(txt) => Ok(InstanceAttributes::Text(Some(txt.to_owned()))),
            None => Ok(InstanceAttributes::Text(None)),
        }
    }

    /// Parses a raw input into an `I16` attribute: a base-10 16-bit
    /// integer, or null when the input is absent.  Fails with
    /// `InvalidType` exactly when the text does not read as such an
    /// integer.
    pub fn parse_i16(input: Option<&str>) -> (r: Result<InstanceAttributes, AttributeError>)
        ensures
            match input {
                Option::None => r matches Ok(v) && v.deep_view() == InstanceValue::I16(
                    Option::None,
                ),
                Option::Some(s) => match spec_parse_i16(s@) {
                    Option::Some(n) => r matches Ok(v) && v.deep_view() == InstanceValue::I16(
                        Option::Some(n),
                    ),
                    Option::None => {
                        &&& r matches Err(e)
                        &&& e matches AttributeError::InvalidType(msg)
                        &&& msg@ == "Expect i16 got "@ + s@
                    },
                },
            },
    {
        match input {
            Some(s) => match parse_i16_str(s) {
                Some(n) => Ok(InstanceAttributes::I16(Some(n))),
                None => {
                    let mut msg = String::from_str("Expect i16 got ");
                    msg.append(s);
                    Err(AttributeError::InvalidType(msg))
                },
            },
            None => Ok(InstanceAttributes::I16(None)),
        }
    }

    /// The textual rendering of the value: its text or decimal digits, or
    /// the literal `Null` when absent.
    pub fn display_string(&self) -> (r: String)
        ensures
            r@ == spec_render_value(self.deep_view()),
    {
        match self {
            InstanceAttributes::Text(Some(s)) => s.clone(),
            InstanceAttributes::I16(Some(v)) => i16_to_string(*v),
            InstanceAttributes::Text(None) => {
                let r = String::from_str("Null");
                proof {
                    reveal_strlit("Null");
                    assert(r@ =~= seq!['N', 'u', 'l', 'l']);
                }
                r
            },
            InstanceAttributes::I16(None) => {
                let r = String::from_str("Null");
                proof {
                    reveal_strlit("Null");
                    assert(r@ =~= seq!['N', 'u', 'l', 'l']);
                }
                r
            },
        }
    }
}

/// An object whose entities hold concrete attribute values, linked to the
/// meta object it conforms to.
pub type InstanceObject = Object<InstanceAttributes>;

impl InstanceObject {
    /// Creates a new instance object holding the given entities, with a
    /// fresh `instance`-prefixed identifier and a link to the meta
    /// object's identifier.
    pub fn new_instance(
        name: &str,
        entities: EntityMap<InstanceAttributes>,
        meta_id: &UniqueId,
    ) -> (r: Result<Self, UniqueIdError>)
        requires
            entities.wf(),
        ensures
            match r {
                Ok(o) => {
                    &&& o.name@ == name@
                    &&& o.entities == entities
                    &&& o.wf()
                    &&& opt_id_view(o.meta_id) == Option::Some(meta_id@)
                    &&& id_shaped(o.id@, "instance"@, 8)
                },
                Err(_) => false,
            },
    {
        proof {
            reveal_strlit("instance");
        }
        match UniqueId::new("instance", None) {
            Ok(unique_id) => Ok(
                Object { name: name.to_owned(), entities, id: unique_id, meta_id: Some(
                    meta_id.clone(),
                ) },
            ),
            Err(err) => Err(err),
        }
    }
}

// ---------------------------------------------------------------------------
// The instance builder
// ---------------------------------------------------------------------------

/// The entities of a meta object applied in order to an accumulated
/// instance map: every attribute not yet present is inserted with its
/// type's null value.
pub open spec fn papply(
    inst: Map<Seq<char>, InstanceValue>,
    items: Seq<Entity<MetaAttributes>>,
) -> Map<Seq<char>, InstanceValue>
    decreases items.len(),
{
    if items.len() == 0 {
        inst
    } else {
        let prev = papply(inst, items.drop_last());
        let e = items.last();
        if prev.contains_key(e.name@) {
            prev
        } else {
            prev.insert(e.name@, spec_null_of(e.attribute))
        }
    }
}

/// The defaulting of missing attributes: every meta attribute not present
/// in the instance map is bound to its type's null value; attributes
/// already set are left untouched.
pub open spec fn spec_populate(
    meta: Map<Seq<char>, MetaAttributes>,
    inst: Map<Seq<char>, InstanceValue>,
) -> Map<Seq<char>, InstanceValue> {
    Map::new(
        |k: Seq<char>| inst.contains_key(k) || meta.contains_key(k),
        |k: Seq<char>|
            if inst.contains_key(k) {
                inst[k]
            } else {
                spec_null_of(meta[k])
            },
    )
}

proof fn lemma_papply_populate(
    inst: Map<Seq<char>, InstanceValue>,
    items: Seq<Entity<MetaAttributes>>,
)
    requires
        unique_names(items),
    ensures
        papply(inst, items) == spec_populate(map_of(items), inst),
    decreases items.len(),
{
    if items.len() == 0 {
        assert(spec_populate(map_of(items), inst) =~= inst);
    } else {
        let drop = items.drop_last();
        let e = items.last();
        assert(forall|j: int| 0 <= j < drop.len() ==> drop[j] == items[j]);
        assert(unique_names(drop));
        lemma_papply_populate(inst, drop);
        lemma_map_of_contains(drop, e.name@);
        assert(!map_of(drop).contains_key(e.name@)) by {
            if map_of(drop).contains_key(e.name@) {
                let j = choose|j: int|
                    0 <= j < drop.len() && #[trigger] drop[j].name@ == e.name@;
                assert(items[j].name@ == items[items.len() - 1].name@);
            }
        }
        let prev = spec_populate(map_of(drop), inst);
        if prev.contains_key(e.name@) {
            assert(inst.contains_key(e.name@));
            assert(spec_populate(map_of(items), inst) =~= prev);
        } else {
            assert(spec_populate(map_of(items), inst) =~= prev.insert(
                e.name@,
                spec_null_of(e.attribute),
            ));
        }
    }
}

/// The idempotence of defaulting: populating missing attributes a second
/// time changes nothing, whatever the meta and instance maps.
pub proof fn lemma_populate_idempotent(
    meta: Map<Seq<char>, MetaAttributes>,
    inst: Map<Seq<char>, InstanceValue>,
)
    ensures
        spec_populate(meta, spec_populate(meta, inst)) == spec_populate(meta, inst),
{
    assert(spec_populate(meta, spec_populate(meta, inst)) =~= spec_populate(meta, inst));
}

/// Builds an instance object against a meta object: raw inputs are parsed
/// per attribute, missing attributes can be defaulted, and the result is
/// linked to the meta object's identifier.
pub struct InstanceObjectBuilder {
    pub name: String,
    pub meta_entities: EntityMap<MetaAttributes>,
    pub instance_entities: EntityMap<InstanceAttributes>,
    pub meta_id: UniqueId,
}

impl InstanceObjectBuilder {
    /// Both entity collections have unique names.
    pub open spec fn wf(&self) -> bool {
        self.meta_entities.wf() && self.instance_entities.wf()
    }

    /// Creates a builder for an instance of the given meta object.
    pub fn new(object: &MetaObject, name: &str) -> (r: Self)
        requires
            object.wf(),
        ensures
            r.wf(),
            r.name@ == name@,
            r.meta_entities@ == object.entities@,
            r.meta_entities.names() == object.entities.names(),
            r.instance_entities@ == Map::<Seq<char>, InstanceValue>::empty(),
            r.instance_entities.items@.len() == 0,
            r.meta_id@ == object.id@,
    {
        InstanceObjectBuilder {
            name: name.to_owned(),
            meta_entities: object.entities.duplicate(),
            instance_entities: EntityMap::new(),
            meta_id: object.id.clone(),
        }
    }

    /// Parses a raw input against the declared type of the named
    /// attribute and stores the value.  Fails with `NonMatchingType` when
    /// the meta object declares no attribute of that name, and with
    /// `InvalidType` when the input does not read as the declared type;
    /// on failure nothing is stored.
    pub fn update_entity(&mut self, entity_name: &str, input: Option<&str>) -> (r: Result<
        (),
        AttributeError,
    >)
        requires
            old(self).wf(),
        ensures
            final(self).wf(),
            !old(self).meta_entities@.contains_key(entity_name@) ==> {
                &&& r matches Err(e)
                &&& e matches AttributeError::NonMatchingType(m)
                &&& m@ == "tt"@
                &&& *final(self) == *old(self)
            },
            old(self).meta_entities@.contains_key(entity_name@) ==> match spec_parse_result(
                old(self).meta_entities@[entity_name@],
                opt_str_view(input),
            ) {
                Option::Some(v) => {
                    &&& r matches Ok(u) && u == ()
                    &&& final(self).instance_entities@ == old(self).instance_entities@.insert(
                        entity_name@,
                        v,
                    )
                    &&& final(self).name == old(self).name
                    &&& final(self).meta_entities == old(self).meta_entities
                    &&& final(self).meta_id == old(self).meta_id
                },
                Option::None => {
                    &&& r matches Err(e)
                    &&& e matches AttributeError::InvalidType(msg)
                    &&& input matches Option::Some(s) && msg@ == "Expect i16 got "@ + s@
                    &&& *final(self) == *old(self)
                },
            },
    {
        let mty: MetaAttributes = match self.meta_entities.get(entity_name) {
            Some(e) => e.attribute,
            None => {
                return Err(AttributeError::NonMatchingType(String::from_str("tt")));
            },
        };
        let parsed = match mty.parse_attribute(input) {
            Ok(v) => v,
            Err(e) => {
                return Err(e);
            },
        };
        self.instance_entities.insert(entity_name, parsed);
        Ok(())
    }

    /// Inserts the type's null value for every meta attribute not yet
    /// present; attributes already set are left untouched.  Idempotent.
    pub fn populate_missing_meta_entites(&mut self)
        requires
            old(self).wf(),
        ensures
            final(self).wf(),
            final(self).instance_entities@ == spec_populate(
                old(self).meta_entities@,
                old(self).instance_entities@,
            ),
            final(self).name == old(self).name,
            final(self).meta_entities == old(self).meta_entities,
            final(self).meta_id == old(self).meta_id,
    {
        let ghost meta0 = self.meta_entities;
        let ghost metaitems0 = self.meta_entities.items@;
        let ghost inst0 = self.instance_entities@;
        let ghost name0 = self.name;
        let ghost meta_id0 = self.meta_id;
        let n = self.meta_entities.len();
        let mut i: usize = 0;
        while i < n
            invariant
                i <= n,
                self.wf(),
                n == self.meta_entities.items@.len(),
                self.meta_entities == meta0,
                self.meta_entities.items@ == metaitems0,
                self.name == name0,
                self.meta_id == meta_id0,
                self.instance_entities@ == papply(inst0, metaitems0.take(i as int)),
            decreases n - i,
        {
            proof {
                assert(metaitems0.take(i + 1).drop_last() =~= metaitems0.take(i as int));
                assert(metaitems0.take(i + 1).last() == metaitems0[i as int]);
            }
            let e = self.meta_entities.item_at(i);
            let mty = e.attribute;
            if !self.instance_entities.contains_key(e.get_name()) {
                let null = mty.insert_none_for_type();
                self.instance_entities.insert(e.get_name(), null);
            }
            i = i + 1;
        }
        proof {
            assert(metaitems0.take(n as int) =~= metaitems0);
            lemma_papply_populate(inst0, metaitems0);
        }
    }

    /// Materializes the instance object: a fresh `instance`-prefixed
    /// identifier, the accumulated entities, and a link back to the meta
    /// object's identifier.
    pub fn build(self) -> (r: Result<InstanceObject, UniqueIdError>)
        requires
            self.wf(),
        ensures
            match r {
                Ok(o) => {
                    &&& o.name@ == self.name@
                    &&& o.entities == self.instance_entities
                    &&& o.wf()
                    &&& opt_id_view(o.meta_id) == Option::Some(self.meta_id@)
                    &&& id_shaped(o.id@, "instance"@, 8)
                },
                Err(_) => false,
            },
    {
        let InstanceObjectBuilder { name, meta_entities: _, instance_entities, meta_id } = self;
        InstanceObject::new_instance(name.as_str(), instance_entities, &meta_id)
    }
}

} // verus!
