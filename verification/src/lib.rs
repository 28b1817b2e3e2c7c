//! A small schema-driven data model: schema objects declare named, typed
//! attribute slots; instance objects hold concrete values conforming to a
//! schema; templates are text strings whose placeholders are validated
//! against a schema and later filled in from an instance's values.

pub mod collections;
pub mod entity;
pub mod errors;
pub mod instance;
pub mod meta;
pub mod object;
pub mod template;
pub mod template_builder;
pub mod template_content;
pub mod text;
pub mod unique_id;
