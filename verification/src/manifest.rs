//! The durable description of a sharded file: chunk records, the manifest,
//! and the invariant that ties them together.
use crate::digest::copy_range;
use crate::encoding::{from_hex, hex_bytes, hex_text, is_hex_text, to_hex};
use crate::identifier::{composite_identifier, derive_identifier};
use vstd::prelude::*;
use vstd::utf8::encode_utf8;

verus! {

/// One chunk: its place in the sequence, its length and its digest.
#[derive(Debug, Clone, PartialEq, Eq)]
pub struct ChunkRecord {
    pub sequence_index: u32,
    pub byte_length: u64,
    pub digest: Vec<u8>,
}

/// The durable description of one sharded file.
#[derive(Debug, Clone, PartialEq, Eq)]
pub struct ContentManifest {
    pub source_name: String,
    pub total_byte_length: u64,
    pub chunk_count: u32,
    pub chunks: Vec<ChunkRecord>,
    pub composite_identifier: String,
}

/// The value of a `ChunkRecord`.
pub ghost struct ChunkModel {
    pub sequence_index: u32,
    pub byte_length: u64,
    pub digest: Seq<u8>,
}

/// The value of a `ContentManifest`.
pub ghost struct ManifestModel {
    pub source_name: Seq<char>,
    pub total_byte_length: u64,
    pub chunk_count: u32,
    pub chunks: Seq<ChunkModel>,
    pub composite_identifier: Seq<char>,
}

impl View for ChunkRecord {
    type V = ChunkModel;

    open spec fn view(&self) -> ChunkModel {
        ChunkModel {
            sequence_index: self.sequence_index,
            byte_length: self.byte_length,
            digest: self.digest@,
        }
    }
}

/// The values of a sequence of chunk records.
pub open spec fn chunk_models(chunks: Seq<ChunkRecord>) -> Seq<ChunkModel> {
    Seq::new(chunks.len(), |i: int| chunks[i]@)
}

impl View for ContentManifest {
    type V = ManifestModel;

    open spec fn view(&self) -> ManifestModel {
        ManifestModel {
            source_name: self.source_name@,
            total_byte_length: self.total_byte_length,
            chunk_count: self.chunk_count,
            chunks: chunk_models(self.chunks@),
            composite_identifier: self.composite_identifier@,
        }
    }
}

/// The sum of the recorded chunk lengths.
pub open spec fn total_recorded(chunks: Seq<ChunkModel>) -> nat
    decreases chunks.len(),
{
    if chunks.len() == 0 {
        0
    } else {
        total_recorded(chunks.drop_last()) + chunks.last().byte_length as nat
    }
}

impl ManifestModel {
    /// The chunk list is numbered from zero, counted by `chunk_count`, its
    /// lengths add up to the total, and the identifier is the one derived
    /// from name, total and chunks.
    pub open spec fn wf(self) -> bool {
        &&& self.chunk_count == self.chunks.len()
        &&& forall|i: int|
            0 <= i < self.chunks.len() ==> (#[trigger] self.chunks[i]).sequence_index == i
        &&& total_recorded(self.chunks) == self.total_byte_length
        &&& self.composite_identifier == composite_identifier(
            encode_utf8(self.source_name),
            self.total_byte_length,
            self.chunks,
        )
    }
}

impl ChunkRecord {
    /// The digest in lower-case hexadecimal, as a manifest document shows it.
    pub fn digest_hex(&self) -> (text: String)
        ensures
            text@ == hex_text(self.digest@),
    {
        to_hex(self.digest.as_slice())
    }

    /// The record with the digest that `digest_hex` spells out; `None` where
    /// that is not an even number of hexadecimal digits.
    pub fn from_hex(sequence_index: u32, byte_length: u64, digest_hex: &str) -> (record: Option<
        ChunkRecord,
    >)
        ensures
            record is Some <==> is_hex_text(digest_hex@),
            record matches Some(r) ==> r@ == (ChunkModel {
                sequence_index,
                byte_length,
                digest: hex_bytes(digest_hex@),
            }),
    {
        match from_hex(digest_hex) {
            Some(digest) => Some(ChunkRecord { sequence_index, byte_length, digest }),
            None => None,
        }
    }
}

/// `_metadata.json` in ASCII.
pub open spec fn metadata_suffix() -> Seq<u8> {
    seq![
        95u8, 109u8, 101u8, 116u8, 97u8, 100u8, 97u8, 116u8, 97u8, 46u8, 106u8, 115u8, 111u8,
        110u8,
    ]
}

/// The position of the first full stop in `name` at or after `from`, or the
/// length of `name` where there is none.
pub open spec fn stem_end(name: Seq<u8>, from: int) -> int
    decreases name.len() - from,
{
    if from < 0 || from >= name.len() {
        name.len() as int
    } else if name[from] == 46u8 {
        from
    } else {
        stem_end(name, from + 1)
    }
}

/// The name under which the manifest of the source `name` is stored: what
/// stands before the first full stop of `name`, then `_metadata.json`.
pub open spec fn metadata_name(name: Seq<u8>) -> Seq<u8> {
    name.subrange(0, stem_end(name, 0)) + metadata_suffix()
}

/// The end of `name` from `from` on is within `name`.
proof fn lemma_stem_end_bounds(name: Seq<u8>, from: int)
    requires
        0 <= from <= name.len(),
    ensures
        from <= stem_end(name, from) <= name.len(),
    decreases name.len() - from,
{
    if from < name.len() && name[from] != 46u8 {
        lemma_stem_end_bounds(name, from + 1);
    }
}

/// The stored name of the manifest of the source `source_name`.
pub fn metadata_file_name(source_name: &[u8]) -> (name: Vec<u8>)
    ensures
        name@ == metadata_name(source_name@),
{
    let mut end: usize = 0;
    while end < source_name.len() && source_name[end] != 46
        invariant
            end <= source_name@.len(),
            stem_end(source_name@, 0) == stem_end(source_name@, end as int),
        decreases source_name@.len() - end,
    {
        end += 1;
    }
    let mut name = copy_range(source_name, 0, end);
    let ghost stem = name@;
    name.push(95);
    name.push(109);
    name.push(101);
    name.push(116);
    name.push(97);
    name.push(100);
    name.push(97);
    name.push(116);
    name.push(97);
    name.push(46);
    name.push(106);
    name.push(115);
    name.push(111);
    name.push(110);
    assert(name@ =~= stem + metadata_suffix());
    name
}

/// A prefix of the chunk list records no more bytes than the whole list.
proof fn lemma_prefix_total(chunks: Seq<ChunkModel>, i: int)
    requires
        0 <= i <= chunks.len(),
    ensures
        total_recorded(chunks.take(i)) <= total_recorded(chunks),
    decreases chunks.len(),
{
    if i == chunks.len() {
        assert(chunks.take(i) =~= chunks);
    } else {
        lemma_prefix_total(chunks.drop_last(), i);
        assert(chunks.drop_last().take(i) =~= chunks.take(i));
    }
}

impl ContentManifest {
    /// Whether the manifest keeps its invariant: the chunks are counted and
    /// numbered from zero, their lengths add up to the total, and the
    /// identifier is the one that name, total and chunks derive. A manifest
    /// that was read from elsewhere is checked with this.
    pub fn is_consistent(&self) -> (ok: bool)
        ensures
            ok == self@.wf(),
    {
        let n = self.chunks.len();
        if n > 0xffff_ffff || self.chunk_count as usize != n {
            return false;
        }
        let ghost all = self@.chunks;
        assert(all.take(0) =~= Seq::<ChunkModel>::empty());
        let mut sum: u64 = 0;
        let mut i: usize = 0;
        while i < n
            invariant
                i <= n,
                n == self.chunks@.len(),
                n <= 0xffff_ffff,
                all == self@.chunks,
                sum == total_recorded(all.take(i as int)),
                forall|j: int| 0 <= j < i ==> (#[trigger] all[j]).sequence_index == j,
            decreases n - i,
        {
            assert(all[i as int] == self.chunks@[i as int]@);
            if self.chunks[i].sequence_index as usize != i {
                return false;
            }
            proof {
                assert(all.take(i + 1).drop_last() =~= all.take(i as int));
                lemma_prefix_total(all, i + 1);
            }
            if self.chunks[i].byte_length > u64::MAX - sum {
                return false;
            }
            sum = sum + self.chunks[i].byte_length;
            i += 1;
        }
        assert(all.take(i as int) =~= all);
        if sum != self.total_byte_length {
            return false;
        }
        match derive_identifier(
            self.chunks.as_slice(),
            self.source_name.as_str(),
            self.total_byte_length,
        ) {
            Ok(text) => text == self.composite_identifier,
            Err(_) => false,
        }
    }
}

} // verus!
