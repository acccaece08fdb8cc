//! Failures surfaced by the collection engine to its callers.

use vstd::prelude::*;

use crate::storage_error::StorageError;

verus! {

/// A collection-level failure. Storage failures pass through unchanged in
/// the `StorageError` variant.
#[derive(Debug, Clone, PartialEq, Eq)]
pub enum CollectionError {
    /// A storage backend operation failed.
    StorageError { error: StorageError },
    /// The payload was not a JSON object.
    CollectionInputData { collection: String },
    /// No collection with this name is known.
    CollectionNotFound { collection: String },
    /// Some fields held inadmissible values, or required fields stayed
    /// null; `fields` names exactly the offending ones.
    ValidateFields { collection: String, fields: Vec<String> },
}

} // verus!
