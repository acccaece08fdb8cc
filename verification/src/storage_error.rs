//! Failures raised by a storage backend, each naming the collection (and
//! field) involved.

use vstd::prelude::*;

verus! {

/// A storage-level failure. Every multi-statement storage operation rolls
/// back wholly on its first failure, so a returned error never leaves a
/// partial schema or data mutation behind.
#[derive(Debug, Clone, PartialEq, Eq)]
pub enum StorageError {
    /// Creating the physical table failed.
    CollectionCreateTable { collection: String },
    /// Inserting the catalog row for a new collection failed.
    CollectionCreate { collection: String },
    /// Removing a collection failed.
    CollectionRemove { collection: String },
    /// No catalog row exists for the collection.
    CollectionNotFound { collection: String },
    /// The field is already part of the collection's schema.
    CollectionFieldExists { collection: String, field: String },
    /// Adding a column to the physical table failed.
    CollectionAlterTable { collection: String, field: String },
    /// Dropping a column from the physical table failed.
    CollectionFieldRemove { collection: String, field: String },
    /// No row with the given id exists in the collection.
    ValueNotFound { collection: String, id: String },
}

} // verus!
