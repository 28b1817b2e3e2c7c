//! Meta attributes: the closed set of attribute types a schema can
//! declare, and the meta object that declares a schema's attribute set.

use vstd::prelude::*;

use crate::entity::AttributeKind;
use crate::entity::Entity;
use crate::errors::AttributeError;
use crate::errors::UniqueIdError;
use crate::instance::InstanceAttributes;
use crate::instance::InstanceValue;
use crate::object::Object;
use crate::text::spec_parse_i16;
use crate::unique_id::id_shaped;

verus! {

/// An entity of a meta object: a named attribute type.
pub type MetaEntity = Entity<MetaAttributes>;

/// The types of attributes that a meta object can declare.  Each is later
/// instantiated with an actual value in instance objects.
#[derive(Debug, Clone, Copy)]
pub enum MetaAttributes {
    Text,
    I16,
}

impl DeepView for MetaAttributes {
    type V = MetaAttributes;

    open spec fn deep_view(&self) -> MetaAttributes {
        *self
    }
}

impl AttributeKind for MetaAttributes {
    fn duplicate(&self) -> (r: Self) {
        *self
    }
}

/// The null instance value for an attribute type.
pub open spec fn spec_null_of(m: MetaAttributes) -> InstanceValue {
    match m {
        MetaAttributes::Text => InstanceValue::Text(Option::None),
        MetaAttributes::I16 => InstanceValue::I16(Option::None),
    }
}

/// What parsing a raw input against an attribute type yields: the typed
/// value on success, nothing when the input cannot be read as the type.
pub open spec fn spec_parse_result(m: MetaAttributes, input: Option<Seq<char>>) -> Option<
    InstanceValue,
> {
    match m {
        MetaAttributes::Text => Option::Some(InstanceValue::Text(input)),
        MetaAttributes::I16 => match input {
            Option::None => Option::Some(InstanceValue::I16(Option::None)),
            Option::Some(s) => match spec_parse_i16(s) {
                Option::Some(n) => Option::Some(InstanceValue::I16(Option::Some(n))),
                Option::None => Option::None,
            },
        },
    }
}

/// The view of an optional raw input.
pub open spec fn opt_str_view(input: Option<&str>) -> Option<Seq<char>> {
    match input {
        Option::Some(s) => Option::Some(s@),
        Option::None => Option::None,
    }
}

impl MetaAttributes {
    /// Parses a raw input into the corresponding instance attribute.
    /// Fails with `InvalidType` exactly when the input cannot be read as
    /// this attribute's type.
    pub fn parse_attribute(&self, input: Option<&str>) -> (r: Result<
        InstanceAttributes,
        AttributeError,
    >)
        ensures
            match spec_parse_result(*self, opt_str_view(input)) {
                Option::Some(v) => r matches Ok(a) && a.deep_view() == v,
                Option::None => {
                    &&& r matches Err(e)
                    &&& e matches AttributeError::InvalidType(msg)
                    &&& input matches Option::Some(s) && msg@ == "Expect i16 got "@ + s@
                },
            },
    {
        match self {
            MetaAttributes::Text => InstanceAttributes::parse_text(input),
            MetaAttributes::I16 => InstanceAttributes::parse_i16(input),
        }
    }

    /// The null instance value for this attribute type.
    pub fn insert_none_for_type(&self) -> (r: InstanceAttributes)
        ensures
            r.deep_view() == spec_null_of(*self),
    {
        match self {
            MetaAttributes::Text => InstanceAttributes::Text(None),
            MetaAttributes::I16 => InstanceAttributes::I16(None),
        }
    }
}

/// An object whose entities declare attribute types: a schema.
pub type MetaObject = Object<MetaAttributes>;

impl MetaObject {
    /// Creates a new empty meta object with a fresh `meta`-prefixed
    /// identifier.
    pub fn new_meta(name: &str) -> (r: Result<Self, UniqueIdError>)
        ensures
            match r {
                Ok(o) => {
                    &&& o.name@ == name@
                    &&& o.entities.items@.len() == 0
                    &&& o.entities@ == Map::<Seq<char>, MetaAttributes>::empty()
                    &&& o.wf()
                    &&& id_shaped(o.id@, "meta"@, 8)
                    &&& o.meta_id matches Option::None
                },
                Err(_) => false,
            },
    {
        proof {
            reveal_strlit("meta");
        }
        Object::new(name, "meta", None)
    }
}

} // verus!
