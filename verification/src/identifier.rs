//! The composite identifier of a sharded file: the names under which chunks
//! are stored, the bytes that are hashed, and the content identifier over
//! their digest.
use crate::digest::{append_bytes, digest_of, hash_bytes};
use crate::encoding::{be_bytes, cid_v1_string, cid_v1_text, decimal, push_be_u64, push_decimal};
use crate::error::ShardError;
use crate::manifest::{chunk_models, ChunkModel, ChunkRecord};
use vstd::prelude::*;
use vstd::utf8::encode_utf8;

verus! {

/// Content-type tag of a content identifier over raw binary.
pub const RAW_CODEC: u64 = 0x55;

/// Digest-function tag of SHA-256 in a content identifier.
pub const SHA2_256_CODE: u64 = 0x12;

/// `chunk_` in ASCII.
pub open spec fn chunk_prefix() -> Seq<u8> {
    seq![99u8, 104u8, 117u8, 110u8, 107u8, 95u8]
}

/// `.part` in ASCII.
pub open spec fn chunk_suffix() -> Seq<u8> {
    seq![46u8, 112u8, 97u8, 114u8, 116u8]
}

/// The zeros that pad a chunk number to three digits.
pub open spec fn zero_pad(n: nat) -> Seq<u8> {
    if n < 10 {
        seq![48u8, 48u8]
    } else if n < 100 {
        seq![48u8]
    } else {
        Seq::empty()
    }
}

/// The name under which the chunk at `index` is stored: `chunk_`, the index
/// in decimal padded with zeros to at least three digits, and `.part`.
pub open spec fn chunk_name(index: u32) -> Seq<u8> {
    chunk_prefix() + zero_pad(index as nat) + decimal(index as nat) + chunk_suffix()
}

/// Appends the stored name of the chunk at `index`.
pub fn push_chunk_name(buf: &mut Vec<u8>, index: u32)
    ensures
        final(buf)@ == old(buf)@ + chunk_name(index),
{
    buf.push(99);
    buf.push(104);
    buf.push(117);
    buf.push(110);
    buf.push(107);
    buf.push(95);
    assert(buf@ =~= old(buf)@ + chunk_prefix());
    if index < 10 {
        buf.push(48);
        buf.push(48);
    } else if index < 100 {
        buf.push(48);
    }
    assert(buf@ =~= old(buf)@ + chunk_prefix() + zero_pad(index as nat));
    push_decimal(buf, index);
    let ghost stem = buf@;
    buf.push(46);
    buf.push(112);
    buf.push(97);
    buf.push(114);
    buf.push(116);
    assert(buf@ =~= stem + chunk_suffix());
    assert(buf@ =~= old(buf)@ + chunk_name(index));
}

/// The stored name of the chunk at `index`, in ASCII.
pub fn chunk_file_name(index: u32) -> (name: Vec<u8>)
    ensures
        name@ == chunk_name(index),
{
    let mut name: Vec<u8> = Vec::new();
    push_chunk_name(&mut name, index);
    assert(name@ =~= chunk_name(index));
    name
}

/// What one chunk contributes to the identifier: its stored name, its length
/// as 8 bytes big-endian, and its digest.
pub open spec fn chunk_preimage(c: ChunkModel) -> Seq<u8> {
    chunk_name(c.sequence_index) + be_bytes(c.byte_length) + c.digest
}

/// The contributions of all chunks, in order.
pub open spec fn chunks_preimage(chunks: Seq<ChunkModel>) -> Seq<u8>
    decreases chunks.len(),
{
    if chunks.len() == 0 {
        Seq::empty()
    } else {
        chunks_preimage(chunks.drop_last()) + chunk_preimage(chunks.last())
    }
}

/// The bytes that are hashed into the identifier: the source name, the total
/// length as 8 bytes big-endian, then every chunk's contribution in order.
pub open spec fn identifier_preimage(name: Seq<u8>, total: u64, chunks: Seq<ChunkModel>) -> Seq<
    u8,
> {
    name + be_bytes(total) + chunks_preimage(chunks)
}

/// The composite identifier: the version-1 content identifier, raw binary,
/// over the SHA-256 digest of the preimage.
pub open spec fn composite_identifier(name: Seq<u8>, total: u64, chunks: Seq<ChunkModel>) -> Seq<
    char,
> {
    cid_v1_text(RAW_CODEC, SHA2_256_CODE, digest_of(identifier_preimage(name, total, chunks)))
}

/// The content identifier over `digest`: version 1, raw binary, SHA-256.
/// A digest of more than 64 bytes does not fit into one.
pub fn identifier_of_digest(digest: &[u8]) -> (r: Result<String, ShardError>)
    ensures
        r is Ok <==> digest@.len() <= 64,
        r matches Ok(text) ==> text@ == cid_v1_text(RAW_CODEC, SHA2_256_CODE, digest@),
        r matches Err(e) ==> e == ShardError::Identifier,
{
    match cid_v1_string(RAW_CODEC, SHA2_256_CODE, digest) {
        Some(text) => Ok(text),
        None => Err(ShardError::Identifier),
    }
}

/// Collects the bytes that are hashed into the identifier.
pub fn build_identifier_preimage(chunks: &[ChunkRecord], name: &[u8], total_size: u64) -> (buf:
    Vec<u8>)
    ensures
        buf@ == identifier_preimage(name@, total_size, chunk_models(chunks@)),
{
    let mut buf: Vec<u8> = Vec::new();
    append_bytes(&mut buf, name);
    push_be_u64(&mut buf, total_size);
    let ghost head = buf@;
    let ghost all = chunk_models(chunks@);
    assert(head =~= name@ + be_bytes(total_size));
    assert(all.take(0) =~= Seq::<ChunkModel>::empty());
    let mut i: usize = 0;
    while i < chunks.len()
        invariant
            i <= chunks@.len(),
            all == chunk_models(chunks@),
            buf@ == head + chunks_preimage(all.take(i as int)),
        decreases chunks@.len() - i,
    {
        let ghost before = buf@;
        push_chunk_name(&mut buf, chunks[i].sequence_index);
        push_be_u64(&mut buf, chunks[i].byte_length);
        append_bytes(&mut buf, chunks[i].digest.as_slice());
        proof {
            let next = all.take(i + 1);
            assert(next.drop_last() =~= all.take(i as int));
            assert(next.last() == chunks@[i as int]@);
            assert(buf@ =~= before + chunk_preimage(chunks@[i as int]@));
            assert(buf@ =~= head + chunks_preimage(next));
        }
        i += 1;
    }
    assert(all.take(i as int) =~= all);
    assert(buf@ =~= identifier_preimage(name@, total_size, all));
    buf
}

/// Derives the composite identifier from a source name, a total size and
/// chunk records, in order: the preimage is hashed, and the digest is
/// wrapped into a content identifier. It always succeeds, and the same
/// arguments always give the same text.
pub fn derive_identifier(chunks: &[ChunkRecord], name: &str, total_size: u64) -> (r: Result<
    String,
    ShardError,
>)
    ensures
        r matches Ok(text) && text@ == composite_identifier(
            encode_utf8(name@),
            total_size,
            chunk_models(chunks@),
        ),
{
    let preimage = build_identifier_preimage(chunks, name.as_bytes(), total_size);
    let digest = hash_bytes(preimage.as_slice());
    identifier_of_digest(digest.as_slice())
}

} // verus!
