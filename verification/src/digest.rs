//! The hashing substrate: SHA-256, and a few byte-buffer helpers.
use sha2::Digest;
use vstd::prelude::*;

verus! {

/// Length in bytes of every digest this library produces.
pub const DIGEST_LEN: usize = 32;

/// The SHA-256 digest of `data`, as `sha2::Sha256::digest` computes it.
pub uninterp spec fn sha256_spec(data: Seq<u8>) -> Seq<u8>;

/// Calls `sha2::Sha256::digest` and copies the output array into a `Vec`.
///
/// Trusted: the result is the SHA-256 digest of `data`, and it is 32 bytes
/// long (the output size that `sha2` fixes for `Sha256`).
#[verifier::external_body]
fn sha256_raw(data: &[u8]) -> (out: Vec<u8>)
    ensures
        out@ == sha256_spec(data@),
        out@.len() == 32,
{
    sha2::Sha256::digest(data).to_vec()
}

/// The digest used throughout: the SHA-256 digest of `data`. `sha2` gives
/// 32 bytes for every input, so this is `sha256_spec(data)`; the second
/// branch only makes the length a fact of the definition, which the laws
/// about trees and identifiers rely on.
pub open spec fn digest_of(data: Seq<u8>) -> Seq<u8> {
    if sha256_spec(data).len() == 32 {
        sha256_spec(data)
    } else {
        Seq::new(32, |i: int| 0u8)
    }
}

/// Every digest is 32 bytes long.
pub proof fn lemma_digest_len(data: Seq<u8>)
    ensures
        digest_of(data).len() == DIGEST_LEN,
{
}

/// Two distinct byte strings with one digest.
pub open spec fn collision(x: Seq<u8>, y: Seq<u8>) -> bool {
    x != y && digest_of(x) == digest_of(y)
}

/// Whether the digest function has any collision at all.
pub open spec fn has_collision() -> bool {
    exists|x: Seq<u8>, y: Seq<u8>| collision(x, y)
}

/// Hashes `data`.
pub fn hash_bytes(data: &[u8]) -> (out: Vec<u8>)
    ensures
        out@ == digest_of(data@),
        out@.len() == DIGEST_LEN,
{
    sha256_raw(data)
}

/// The byte strings that a sequence of buffers holds.
pub open spec fn records(buffers: Seq<Vec<u8>>) -> Seq<Seq<u8>> {
    Seq::new(buffers.len(), |i: int| buffers[i]@)
}

/// Copies the bytes of `data` from `from` up to `to`.
pub fn copy_range(data: &[u8], from: usize, to: usize) -> (out: Vec<u8>)
    requires
        from <= to <= data@.len(),
    ensures
        out@ == data@.subrange(from as int, to as int),
{
    let mut out: Vec<u8> = Vec::new();
    let mut i: usize = from;
    while i < to
        invariant
            from <= i <= to,
            to <= data@.len(),
            out@ == data@.subrange(from as int, i as int),
        decreases to - i,
    {
        out.push(data[i]);
        i += 1;
        assert(out@ =~= data@.subrange(from as int, i as int));
    }
    out
}

/// Appends `src` to `buf`.
pub fn append_bytes(buf: &mut Vec<u8>, src: &[u8])
    ensures
        final(buf)@ == old(buf)@ + src@,
{
    let mut i: usize = 0;
    while i < src.len()
        invariant
            i <= src@.len(),
            buf@ == old(buf)@ + src@.subrange(0, i as int),
        decreases src@.len() - i,
    {
        buf.push(src[i]);
        i += 1;
        assert(buf@ =~= old(buf)@ + src@.subrange(0, i as int));
    }
    assert(src@.subrange(0, i as int) =~= src@);
}

/// Whether two byte strings are equal.
pub fn bytes_equal(a: &[u8], b: &[u8]) -> (same: bool)
    ensures
        same == (a@ == b@),
{
    if a.len() != b.len() {
        return false;
    }
    let mut i: usize = 0;
    while i < a.len()
        invariant
            i <= a@.len(),
            a@.len() == b@.len(),
            a@.subrange(0, i as int) == b@.subrange(0, i as int),
        decreases a@.len() - i,
    {
        if a[i] != b[i] {
            return false;
        }
        i += 1;
        assert(a@.subrange(0, i as int) =~= a@.subrange(0, i - 1).push(a@[i - 1]));
        assert(b@.subrange(0, i as int) =~= b@.subrange(0, i - 1).push(b@[i - 1]));
    }
    assert(a@.subrange(0, i as int) =~= a@);
    assert(b@.subrange(0, i as int) =~= b@);
    true
}

} // verus!
