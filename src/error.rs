//! Failures reported by the log storage engine.

use vstd::prelude::*;

verus! {

/// Why a storage operation did not succeed.
#[derive(Clone, Copy, Debug, PartialEq, Eq, Structural)]
pub enum StorageError {
    /// The requested index lies below the retained part of the log.
    CompactedLog,
    /// The requested index lies beyond the end of the log.
    Unavailable,
    /// No entry is stored at the requested index.
    NotFound,
    /// The requested snapshot is not ready yet; ask again later.
    SnapshotTemporarilyUnavailable,
    /// An append would leave a hole in the log.
    GapInLog,
    /// An append would rewrite entries that were already compacted.
    OverwriteCompacted,
    /// The backing store has no room left.
    CapacityExceeded,
    /// Persisted records do not describe a well-formed log.
    Corruption,
}

} // verus!
