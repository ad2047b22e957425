//! Content-addressed chunking and Merkle integrity checking.
//!
//! * [`digest`] is the hashing substrate: one 256-bit digest used everywhere.
//! * [`encoding`] holds the text and byte encodings: hexadecimal digests,
//!   content-identifier strings, big-endian lengths, decimal numbers.
//! * [`merkle`] builds a binary hash tree over ordered byte records and
//!   re-verifies a record set against a root.
//! * [`manifest`] is the durable description of a sharded file, and
//!   [`identifier`] derives its composite identifier.
//! * [`shard`] splits a byte stream into fixed-size chunks.
//! * [`reassemble`] puts the chunks together again, checking each against
//!   its recorded digest and the whole against the declared length.
//! * [`documents`] writes manifests and trees out and reads them back.
//! * [`binding`] proves what the composite identifier's preimage determines.
//! * [`exif`] turns image metadata into Merkle leaves.
pub mod binding;
pub mod digest;
pub mod documents;
pub mod encoding;
pub mod error;
pub mod exif;
pub mod identifier;
pub mod manifest;
pub mod merkle;
pub mod reassemble;
pub mod shard;
