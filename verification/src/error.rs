//! The failures that sharding and reassembly report.
use vstd::prelude::*;

verus! {

/// What can go wrong while sharding or reassembling.
#[derive(Debug, Clone, Copy, PartialEq, Eq, Structural)]
pub enum ShardError {
    /// The chunk size is zero, or its byte count does not fit in 64 bits.
    InvalidChunkSize,
    /// More chunks than a 32-bit sequence index can number.
    TooManyChunks,
    /// A digest too long for a content identifier.
    Identifier,
    /// The chunk entry at this position of a manifest document has a name
    /// other than the one its position gives, or a digest that is not
    /// hexadecimal.
    MalformedManifest { index: usize },
    /// The store holds no chunk at this position of the manifest.
    MissingChunk { index: usize },
    /// The chunk at this position does not hash to its recorded digest.
    ChunkIntegrity { index: usize },
    /// The reassembled length differs from the declared one.
    SizeMismatch { expected: u64, actual: u64 },
}

} // verus!
