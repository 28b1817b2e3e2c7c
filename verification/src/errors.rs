//! Error kinds for the library: attribute parsing, identifier construction,
//! template validation and rendering, and collection lookups.

use vstd::prelude::*;

verus! {

/// Errors that can occur during attribute parsing and validation.
#[derive(Debug, PartialEq)]
pub enum AttributeError {
    /// The raw text could not be parsed into the declared attribute type.
    InvalidType(String),
    /// The attribute name is not declared by the schema.
    NonMatchingType(String),
}

/// Errors that can occur when building or parsing a `UniqueId`.
#[derive(Debug)]
pub enum UniqueIdError {
    /// The identifier was requested with an empty prefix.
    MissingPrefix,
    /// The identifier string does not split into exactly three parts;
    /// the payload is the number of parts found.
    WrongFormat(usize),
}

/// Errors that can occur during template creation or population.
#[derive(Debug, PartialEq)]
pub enum TemplateError {
    /// The instance object has no parent meta object id registered.
    MissingMetaObjectId(String),
    /// The instance object is not linked to the template's meta object.
    UnauthrorisedActionFromMetaObject { meta: String, instance: String },
    /// The content's placeholders do not exactly match the meta object's
    /// entities; the payload holds the entities without a placeholder.
    MissingEntitiesFromMetaObject(Vec<String>),
    /// A lower-level failure wrapped while crossing a builder boundary.
    PropagatedError(String),
}

/// Errors raised by the in-memory collections.
#[derive(Debug)]
pub enum CollectionError {
    /// No stored item carries the given identifier.
    MissingObject(String),
    /// No stored object matches the given lookup key.
    NoMatchingObject(String),
    /// No stored template is bound to the given parent object.
    NoParentObject(String),
}

} // verus!
