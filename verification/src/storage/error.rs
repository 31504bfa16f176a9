//! The storage error type.

use vstd::prelude::*;

use crate::storage::coord::SectorCoord;

verus! {

/// Every durable-storage failure. Read paths report `CorruptPayload` so that a
/// caller can fall back to the backup copy; write paths report `Io` or
/// `Serialize`.
#[derive(Clone, Debug)]
pub enum StorageError {
    Io(String),
    Serialize(String),
    Compress(String),
    Decompress(String),
    CorruptPayload { coord: SectorCoord },
    NotFound(SectorCoord),
    Metadata(String),
    Region(String),
    Envelope(String),
}

/// Result of a storage operation.
pub type StorageResult<T> = Result<T, StorageError>;

impl StorageError {
    /// The text carried by a message-bearing error, empty for the others.
    pub open spec fn message(self) -> Seq<char> {
        match self {
            StorageError::Io(s) => s@,
            StorageError::Serialize(s) => s@,
            StorageError::Compress(s) => s@,
            StorageError::Decompress(s) => s@,
            StorageError::Metadata(s) => s@,
            StorageError::Region(s) => s@,
            StorageError::Envelope(s) => s@,
            _ => Seq::empty(),
        }
    }

    /// A `Region` error carrying exactly `msg`.
    pub open spec fn is_region_msg(self, msg: Seq<char>) -> bool {
        self is Region && self.message() == msg
    }
}

} // verus!
