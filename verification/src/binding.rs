//! What the composite identifier binds: the bytes that are hashed into it
//! determine the source name, the total length and every chunk record.
use crate::digest::{collision, digest_of, has_collision};
use crate::encoding::{be_byte, be_bytes};
use crate::identifier::{chunk_name, chunk_preimage, chunks_preimage, identifier_preimage};
use crate::manifest::ChunkModel;
use vstd::arithmetic::div_mod::lemma_div_denominator;
use vstd::prelude::*;

verus! {

/// Whether the chunks are numbered by position and carry 32-byte digests,
/// as every written manifest has them.
pub open spec fn numbered(chunks: Seq<ChunkModel>) -> bool {
    forall|i: int|
        0 <= i < chunks.len() ==> (#[trigger] chunks[i]).sequence_index == i
            && chunks[i].digest.len() == 32
}

/// A value is what its big-endian bytes add up to.
proof fn lemma_be_value(v: u64)
    ensures
        v as int == be_byte(v, 0) as int * 0x100_0000_0000_0000 + be_byte(v, 1) as int
            * 0x1_0000_0000_0000 + be_byte(v, 2) as int * 0x100_0000_0000 + be_byte(v, 3) as int
            * 0x1_0000_0000 + be_byte(v, 4) as int * 0x100_0000 + be_byte(v, 5) as int * 0x1_0000
            + be_byte(v, 6) as int * 0x100 + be_byte(v, 7) as int,
{
    let x = v as int;
    lemma_div_denominator(x, 0x100, 0x100);
    lemma_div_denominator(x, 0x1_0000, 0x100);
    lemma_div_denominator(x, 0x100_0000, 0x100);
    lemma_div_denominator(x, 0x1_0000_0000, 0x100);
    lemma_div_denominator(x, 0x100_0000_0000, 0x100);
    lemma_div_denominator(x, 0x1_0000_0000_0000, 0x100);
    let q1 = x / 0x100;
    let q2 = q1 / 0x100;
    let q3 = q2 / 0x100;
    let q4 = q3 / 0x100;
    let q5 = q4 / 0x100;
    let q6 = q5 / 0x100;
    let q7 = q6 / 0x100;
    assert(q2 == x / 0x1_0000);
    assert(q3 == x / 0x100_0000);
    assert(q4 == x / 0x1_0000_0000);
    assert(q5 == x / 0x100_0000_0000);
    assert(q6 == x / 0x1_0000_0000_0000);
    assert(q7 == x / 0x100_0000_0000_0000);
    assert(q7 < 0x100);
    assert(be_byte(v, 7) as int == x % 0x100);
    assert(be_byte(v, 6) as int == q1 % 0x100);
    assert(be_byte(v, 5) as int == q2 % 0x100);
    assert(be_byte(v, 4) as int == q3 % 0x100);
    assert(be_byte(v, 3) as int == q4 % 0x100);
    assert(be_byte(v, 2) as int == q5 % 0x100);
    assert(be_byte(v, 1) as int == q6 % 0x100);
    assert(be_byte(v, 0) as int == q7);
}

/// Two values with the same big-endian bytes are the same value.
pub proof fn lemma_be_bytes_injective(a: u64, b: u64)
    requires
        be_bytes(a) == be_bytes(b),
    ensures
        a == b,
{
    assert forall|i: int| 0 <= i < 8 implies be_byte(a, i) == be_byte(b, i) by {
        assert(be_bytes(a)[i] == be_byte(a, i));
        assert(be_bytes(b)[i] == be_byte(b, i));
    }
    lemma_be_value(a);
    lemma_be_value(b);
}

/// Two byte strings that are equal, and whose tails have one length, have
/// equal heads and equal tails.
proof fn lemma_split_at_tail(x1: Seq<u8>, y1: Seq<u8>, x2: Seq<u8>, y2: Seq<u8>)
    requires
        x1 + y1 == x2 + y2,
        y1.len() == y2.len(),
    ensures
        x1 == x2,
        y1 == y2,
{
    let whole = x1 + y1;
    assert(whole.len() == x1.len() + y1.len());
    assert((x2 + y2).len() == x2.len() + y2.len());
    assert(x1 =~= whole.subrange(0, x1.len() as int));
    assert(x2 =~= (x2 + y2).subrange(0, x2.len() as int));
    assert(y1 =~= whole.subrange(x1.len() as int, whole.len() as int));
    assert(y2 =~= (x2 + y2).subrange(x2.len() as int, whole.len() as int));
}

/// The chunk contributions of two numbered lists of one length are equally
/// long.
proof fn lemma_chunks_preimage_len(c1: Seq<ChunkModel>, c2: Seq<ChunkModel>)
    requires
        c1.len() == c2.len(),
        numbered(c1),
        numbered(c2),
    ensures
        chunks_preimage(c1).len() == chunks_preimage(c2).len(),
    decreases c1.len(),
{
    if c1.len() > 0 {
        lemma_chunks_preimage_len(c1.drop_last(), c2.drop_last());
        assert(c1.last().sequence_index == c2.last().sequence_index);
    }
}

/// Two numbered chunk lists of one length with the same contribution are
/// the same list.
proof fn lemma_chunks_preimage_binds(c1: Seq<ChunkModel>, c2: Seq<ChunkModel>)
    requires
        c1.len() == c2.len(),
        numbered(c1),
        numbered(c2),
        chunks_preimage(c1) == chunks_preimage(c2),
    ensures
        c1 == c2,
    decreases c1.len(),
{
    if c1.len() > 0 {
        let a = c1.last();
        let b = c2.last();
        assert(a.sequence_index == b.sequence_index);
        let name = chunk_name(a.sequence_index);
        lemma_split_at_tail(
            chunks_preimage(c1.drop_last()),
            chunk_preimage(a),
            chunks_preimage(c2.drop_last()),
            chunk_preimage(b),
        );
        assert(chunk_preimage(a) =~= name + (be_bytes(a.byte_length) + a.digest));
        assert(chunk_preimage(b) =~= name + (be_bytes(b.byte_length) + b.digest));
        lemma_split_at_tail(
            name,
            be_bytes(a.byte_length) + a.digest,
            name,
            be_bytes(b.byte_length) + b.digest,
        );
        lemma_split_at_tail(be_bytes(a.byte_length), a.digest, be_bytes(b.byte_length), b.digest);
        lemma_be_bytes_injective(a.byte_length, b.byte_length);
        assert(a == b);
        lemma_chunks_preimage_binds(c1.drop_last(), c2.drop_last());
        assert(c1 =~= c1.drop_last().push(a));
        assert(c2 =~= c2.drop_last().push(b));
    }
}

/// The hashed bytes determine what went into them: two sources with
/// equally many numbered chunks and the same preimage have the same name,
/// the same total length, and the same chunk sizes and digests.
pub proof fn lemma_preimage_binds(
    name1: Seq<u8>,
    total1: u64,
    chunks1: Seq<ChunkModel>,
    name2: Seq<u8>,
    total2: u64,
    chunks2: Seq<ChunkModel>,
)
    requires
        chunks1.len() == chunks2.len(),
        numbered(chunks1),
        numbered(chunks2),
        identifier_preimage(name1, total1, chunks1) == identifier_preimage(name2, total2, chunks2),
    ensures
        name1 == name2,
        total1 == total2,
        chunks1 == chunks2,
{
    lemma_chunks_preimage_len(chunks1, chunks2);
    lemma_split_at_tail(
        name1 + be_bytes(total1),
        chunks_preimage(chunks1),
        name2 + be_bytes(total2),
        chunks_preimage(chunks2),
    );
    lemma_split_at_tail(name1, be_bytes(total1), name2, be_bytes(total2));
    lemma_be_bytes_injective(total1, total2);
    lemma_chunks_preimage_binds(chunks1, chunks2);
}

/// The digest that the composite identifier wraps changes with the name,
/// the total length, and every chunk's size and digest: two sources with
/// equally many numbered chunks whose preimages hash to one digest agree in
/// all of these, unless the digest function has a collision.
pub proof fn lemma_identifier_digest_binds(
    name1: Seq<u8>,
    total1: u64,
    chunks1: Seq<ChunkModel>,
    name2: Seq<u8>,
    total2: u64,
    chunks2: Seq<ChunkModel>,
)
    requires
        chunks1.len() == chunks2.len(),
        numbered(chunks1),
        numbered(chunks2),
        digest_of(identifier_preimage(name1, total1, chunks1)) == digest_of(
            identifier_preimage(name2, total2, chunks2),
        ),
    ensures
        (name1 == name2 && total1 == total2 && chunks1 == chunks2) || has_collision(),
{
    let p1 = identifier_preimage(name1, total1, chunks1);
    let p2 = identifier_preimage(name2, total2, chunks2);
    if p1 == p2 {
        lemma_preimage_binds(name1, total1, chunks1, name2, total2, chunks2);
    } else {
        assert(collision(p1, p2));
    }
}

} // verus!
