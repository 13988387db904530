use vstd::prelude::*;

verus! {

/// Failures of the persistent store.
#[derive(Debug, PartialEq, Eq)]
pub enum DatabaseError {
    /// A required region of the store is missing.
    ColumnNotFound(String),
    /// Stored bytes encode no record.
    DecodeError,
    /// A record could not be encoded.
    EncodeError,
    /// An update would break the order of a history.
    HistoryError,
    /// Scanning a region failed.
    IteratorError,
    /// The underlying store failed; the message says how.
    StoreError(String),
}

} // verus!
