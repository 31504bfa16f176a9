//! Durable world storage: sector coordinates, the sector envelope header and
//! its integrity checks, compression, content-addressed deduplication, the
//! region file image format, and dirty tracking for write-back.

pub mod backend;
pub mod bytes;
pub mod compress;
pub mod coord;
pub mod dedup;
pub mod dirty;
pub mod envelope;
pub mod error;
pub mod metadata;
pub mod region;
pub mod reopen;
pub mod text;
