use vstd::prelude::*;

verus! {

/// A rejection by the storage engine.
#[derive(Debug, Clone, Copy, PartialEq, Eq, Structural)]
pub enum StorageError {
    /// The entry's key is empty.
    EmptyKey,
}

/// The ways a transaction operation can fail.
#[derive(Debug, Clone, Copy, PartialEq, Eq, Structural)]
pub enum Error {
    /// The transaction has ended.
    Discarded,
    /// Buffering would exceed the entry-count or byte-size limit of a batch.
    TooLarge,
    /// A key this transaction read or wrote was written by a transaction
    /// that committed after this transaction's snapshot.
    Conflict,
    /// The storage engine rejected the operation.
    Storage(StorageError),
}

} // verus!
