//! Schema-flexible typed collections over a relational store.
//!
//! Callers submit JSON-like payloads under a collection name; the engine
//! infers and evolves a column schema, validates and defaults values, and
//! answers point lookups and predicate-filtered scans.

pub mod collection;
pub mod collection_error;
pub mod collections;
pub mod collection_field;
pub mod field_type;
pub mod json_value;
pub mod laws;
pub mod memory;
pub mod sql;
pub mod storage;
pub mod storage_error;
pub mod util;
pub mod value_to_string;
pub mod where_attr;

pub use collection::Collection;
pub use collection_error::CollectionError;
pub use collections::Collections;
pub use collection_field::CollectionField;
pub use field_type::FieldType;
pub use json_value::JsonValue;
pub use memory::MemoryStorage;
pub use storage::Storage;
pub use storage_error::StorageError;
pub use value_to_string::{serialize_value, value_to_string, JsonFormatter};
pub use where_attr::Where;
