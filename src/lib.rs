//! Schema and field-encoding model of a full-text search index: field names,
//! per-field option algebra, the schema registry, documents and terms.

pub mod field_name;
pub mod options;
pub mod schema;
pub mod document;
pub mod term;
pub mod codec;

pub use field_name::is_valid_field_name;
pub use options::{TextIndexingOptions, TextOptions, U32Options};
pub use schema::{Field, FieldEntry, FieldType, Schema, SchemaError};
pub use document::{Document, FieldValue, Value};
pub use term::Term;
