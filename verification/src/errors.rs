use vstd::prelude::*;

verus! {

/// Errors that a `Storage` reports.
#[derive(Debug, Clone, Copy, PartialEq, Eq, Structural)]
pub enum StorageError {
    /// The requested index is before the first available entry.
    Compacted,
    /// The requested index is past the last available entry.
    Unavailable,
    /// The snapshot is older than the one already held.
    SnapshotOutOfDate,
    /// The snapshot is being built and cannot be handed out yet.
    SnapshotTemporarilyUnavailable,
}

/// Errors of the library.
#[derive(Debug)]
pub enum Error {
    /// An error of the storage.
    Store(StorageError),
    /// The configuration is invalid; the text says why.
    ConfigInvalid(String),
    /// The node already exists in the named group.
    Exists(u64, &'static str),
    /// The node does not exist in the named group.
    NotExists(u64, &'static str),
}

/// Results of the library.
pub type Result<T> = core::result::Result<T, Error>;

} // verus!
