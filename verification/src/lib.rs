//! A chunked, self-describing binary event-log decoder.
//!
//! The format is a stream of fixed-size chunks.  Each chunk carries its own
//! type metadata, a deduplicating constant pool, and a sequence of
//! variable-length event records whose field layout is given by the metadata
//! embedded in the same chunk.

use vstd::prelude::*;

pub mod varint;
pub mod stream;
pub mod types;
pub mod metadata;
pub mod value;
pub mod constant_pool;
pub mod chunk;
pub mod event;

verus! {

/// Format version carried right after the chunk magic.
#[derive(Debug, Clone, Copy, PartialEq, Eq, Structural)]
pub struct Version {
    pub major: i16,
    pub minor: i16,
}

/// Everything that can go wrong while decoding a chunk.
///
/// Constant-pool lookup misses are not errors; every structural fault is.
#[derive(Debug, Clone, Copy, PartialEq, Eq, Structural)]
pub enum Error {
    /// Magic mismatch, malformed record, or a size/offset inconsistency.
    InvalidFormat,
    /// An unrecognized string tag byte.
    InvalidString,
    /// Chunk format version outside the supported set.
    UnsupportedVersion(Version),
    /// An event or field type id absent from the type pool.
    ClassNotFound(i64),
    /// A short read or an out-of-bounds seek on the byte source.
    IoError,
}

pub type Result<T> = core::result::Result<T, Error>;

/// Reserved type id of metadata records.
pub const EVENT_TYPE_METADATA: i64 = 0;

/// Reserved type id of constant-pool checkpoint records.
pub const EVENT_TYPE_CONSTANT_POOL: i64 = 1;

} // verus!
