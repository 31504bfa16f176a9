//! Save files: the versioned, integrity-checked envelope around a serialized
//! world or player record.

pub mod envelope;
pub mod migration;
pub mod scheduler;
