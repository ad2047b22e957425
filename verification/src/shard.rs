//! Splitting a byte stream into fixed-size chunks and describing them in a
//! manifest.
use crate::digest::{copy_range, digest_of, hash_bytes, records};
use crate::error::ShardError;
use crate::identifier::{composite_identifier, derive_identifier};
use crate::manifest::{
    chunk_models, total_recorded, ChunkModel, ChunkRecord, ContentManifest, ManifestModel,
};
use vstd::arithmetic::div_mod::{
    lemma_div_is_ordered_by_denominator, lemma_fundamental_div_mod,
    lemma_fundamental_div_mod_converse,
};
use vstd::arithmetic::mul::lemma_mul_inequality;
use vstd::prelude::*;
use vstd::utf8::encode_utf8;

verus! {

/// Bytes in one mebibyte.
pub const MIB: u64 = 1_048_576;

/// The largest chunk size in mebibytes whose byte count fits in 64 bits.
pub const MAX_CHUNK_SIZE_MB: u64 = 17_592_186_044_415;

/// How many chunks of `c` bytes cover `len` bytes: the quotient, and one
/// more where a remainder is left.
pub open spec fn chunk_count(len: nat, c: nat) -> nat {
    if c == 0 {
        0
    } else if len % c == 0 {
        len / c
    } else {
        len / c + 1
    }
}

/// How many chunks are written for a source that declares `declared` bytes
/// and delivers `available`: reading stops at whichever ends first.
pub open spec fn planned_chunks(declared: nat, available: nat, c: nat) -> nat {
    if chunk_count(declared, c) <= chunk_count(available, c) {
        chunk_count(declared, c)
    } else {
        chunk_count(available, c)
    }
}

/// The `k`-th window of `c` bytes of `data`; the last one may be shorter.
pub open spec fn window(data: Seq<u8>, c: nat, k: int) -> Seq<u8> {
    let start = k * c;
    let end = if start + c < data.len() {
        start + c
    } else {
        data.len() as int
    };
    data.subrange(start, end)
}

/// The first `count` windows of `data`.
pub open spec fn split_spec(data: Seq<u8>, c: nat, count: nat) -> Seq<Seq<u8>> {
    Seq::new(count, |k: int| window(data, c, k))
}

/// The record of the chunk `bytes` at position `k`.
pub open spec fn record_of(k: int, bytes: Seq<u8>) -> ChunkModel {
    ChunkModel {
        sequence_index: k as u32,
        byte_length: bytes.len() as u64,
        digest: digest_of(bytes),
    }
}

/// The records of a sequence of chunks.
pub open spec fn records_of(chunks: Seq<Seq<u8>>) -> Seq<ChunkModel> {
    Seq::new(chunks.len(), |k: int| record_of(k, chunks[k]))
}

/// The manifest of a source called `name` that declares `declared` bytes
/// and was written as `chunks`.
pub open spec fn manifest_of(name: Seq<char>, declared: u64, chunks: Seq<Seq<u8>>) -> ManifestModel {
    ManifestModel {
        source_name: name,
        total_byte_length: declared,
        chunk_count: chunks.len() as u32,
        chunks: records_of(chunks),
        composite_identifier: composite_identifier(
            encode_utf8(name),
            declared,
            records_of(chunks),
        ),
    }
}

/// Window `k` starts inside the data as long as `k` is below the chunk
/// count, and the windows up to the count cover the data.
pub proof fn lemma_window_bounds(len: nat, c: nat, k: nat)
    requires
        c > 0,
    ensures
        k < chunk_count(len, c) ==> k * c < len,
        k >= chunk_count(len, c) ==> k * c >= len,
        (k + 1) * c == k * c + c,
{
    let q = len / c;
    lemma_fundamental_div_mod(len as int, c as int);
    assert(len == c * q + len % c);
    assert(c * q == q * c) by (nonlinear_arith);
    assert((k + 1) * c == k * c + c) by (nonlinear_arith);
    if k < chunk_count(len, c) {
        if k < q {
            lemma_mul_inequality(k as int + 1, q as int, c as int);
        } else {
            assert(k == q);
        }
    } else {
        lemma_mul_inequality(chunk_count(len, c) as int, k as int, c as int);
        if len % c != 0 {
            assert((q + 1) * c == q * c + c) by (nonlinear_arith);
        }
    }
}

/// The chunk count of `n` bytes at chunk size `c`.
pub fn ceil_div(n: u64, c: u64) -> (count: u64)
    requires
        c > 0,
    ensures
        count == chunk_count(n as nat, c as nat),
{
    let q = n / c;
    if n % c == 0 {
        q
    } else {
        proof {
            assert(c >= 2);
            lemma_div_is_ordered_by_denominator(n as int, 2, c as int);
        }
        q + 1
    }
}

/// The chunk count is the quotient where the chunk size divides the length
/// (none at all for an empty source) and one more where it does not; either
/// way it is the quotient of `len + c - 1` by `c`.
pub proof fn lemma_chunk_count(len: nat, c: nat)
    requires
        c > 0,
    ensures
        len == 0 ==> chunk_count(len, c) == 0,
        len % c == 0 ==> chunk_count(len, c) == len / c,
        len % c != 0 ==> chunk_count(len, c) == len / c + 1,
        chunk_count(len, c) == (len + c - 1) / (c as int),
{
    let q = (len / c) as int;
    let r = (len % c) as int;
    lemma_fundamental_div_mod(len as int, c as int);
    assert(c * q == q * c) by (nonlinear_arith);
    if r == 0 {
        lemma_fundamental_div_mod_converse(len + c - 1, c as int, q, c - 1);
    } else {
        assert((q + 1) * c == q * c + c) by (nonlinear_arith);
        lemma_fundamental_div_mod_converse(len + c - 1, c as int, q + 1, r - 1);
    }
}

/// Every chunk but the last is `c` bytes long, and the last holds what is
/// left: the remainder of the length by `c`, or `c` where that is zero.
pub proof fn lemma_chunk_lengths(data: Seq<u8>, c: nat, k: int)
    requires
        c > 0,
        0 <= k < chunk_count(data.len(), c),
    ensures
        k + 1 < chunk_count(data.len(), c) ==> window(data, c, k).len() == c,
        k + 1 == chunk_count(data.len(), c) ==> window(data, c, k).len() == (if data.len() % c
            == 0 {
            c
        } else {
            data.len() % c
        }),
        window(data, c, k).len() > 0,
{
    let len = data.len();
    let q = len / c;
    lemma_window_bounds(len, c, k as nat);
    lemma_window_bounds(len, c, (k + 1) as nat);
    lemma_fundamental_div_mod(len as int, c as int);
    assert(c * q == q * c) by (nonlinear_arith);
    if k + 1 == chunk_count(len, c) {
        if len % c == 0 {
            assert((k + 1) * c == len);
        } else {
            assert(k * c == q * c);
        }
    }
}

/// The first `k` chunks of `data` record as many bytes as they cover:
/// `k * c`, or all of `data` where that is less.
proof fn lemma_split_total(data: Seq<u8>, c: nat, k: nat)
    requires
        c > 0,
        k <= chunk_count(data.len(), c),
        data.len() <= u64::MAX,
    ensures
        total_recorded(records_of(split_spec(data, c, k))) == (if k * c < data.len() {
            k * c
        } else {
            data.len()
        }),
    decreases k,
{
    let parts = split_spec(data, c, k);
    if k == 0 {
        assert(0 * c == 0) by (nonlinear_arith);
    } else {
        let j = (k - 1) as nat;
        lemma_split_total(data, c, j);
        lemma_window_bounds(data.len(), c, j);
        lemma_window_bounds(data.len(), c, k);
        assert(records_of(parts).drop_last() =~= records_of(split_spec(data, c, j)));
        assert(records_of(parts).last() == record_of(j as int, window(data, c, j as int)));
    }
}

/// The manifest written for a source that delivers what it declares keeps
/// the manifest invariant, as long as the chunks can be numbered in 32 bits.
pub proof fn lemma_split_manifest_wf(name: Seq<char>, data: Seq<u8>, c: nat)
    requires
        c > 0,
        data.len() <= u64::MAX,
        chunk_count(data.len(), c) <= u32::MAX,
    ensures
        manifest_of(name, data.len() as u64, split_spec(data, c, chunk_count(data.len(), c))).wf(),
{
    let n = chunk_count(data.len(), c);
    lemma_split_total(data, c, n);
    lemma_window_bounds(data.len(), c, n);
}

/// Splits byte streams into chunks of a fixed size.
pub struct FileSharder {
    chunk_size_bytes: u64,
}

impl FileSharder {
    #[verifier::type_invariant]
    spec fn positive(self) -> bool {
        self.chunk_size_bytes > 0
    }

    /// The chunk size in bytes.
    pub closed spec fn chunk_size(&self) -> nat {
        self.chunk_size_bytes as nat
    }

    /// A sharder with chunks of `chunk_size_mb` mebibytes. The size must be
    /// positive and its byte count must fit in 64 bits.
    pub fn new(chunk_size_mb: u64) -> (r: Result<FileSharder, ShardError>)
        ensures
            r is Ok <==> 0 < chunk_size_mb <= MAX_CHUNK_SIZE_MB,
            r matches Ok(s) ==> s.chunk_size() == chunk_size_mb * MIB,
            r matches Err(e) ==> e == ShardError::InvalidChunkSize,
    {
        if chunk_size_mb == 0 || chunk_size_mb > MAX_CHUNK_SIZE_MB {
            Err(ShardError::InvalidChunkSize)
        } else {
            Ok(FileSharder { chunk_size_bytes: chunk_size_mb * MIB })
        }
    }

    /// A sharder with chunks of `chunk_size_bytes` bytes, which must be
    /// positive.
    pub fn with_chunk_size(chunk_size_bytes: u64) -> (r: Result<FileSharder, ShardError>)
        ensures
            r is Ok <==> chunk_size_bytes > 0,
            r matches Ok(s) ==> s.chunk_size() == chunk_size_bytes,
            r matches Err(e) ==> e == ShardError::InvalidChunkSize,
    {
        if chunk_size_bytes == 0 {
            Err(ShardError::InvalidChunkSize)
        } else {
            Ok(FileSharder { chunk_size_bytes })
        }
    }

    /// The chunk size in bytes; never zero.
    pub fn chunk_size_bytes(&self) -> (c: u64)
        ensures
            c == self.chunk_size(),
            c > 0,
    {
        proof {
            use_type_invariant(self);
        }
        self.chunk_size_bytes
    }

    /// Derives the composite identifier of a file from its name, its total
    /// size and its chunk records, in order. It always succeeds.
    pub fn generate_global_cid(
        &self,
        chunks: &[ChunkRecord],
        source_name: &str,
        total_size: u64,
    ) -> (r: Result<String, ShardError>)
        ensures
            r matches Ok(text) && text@ == composite_identifier(
                encode_utf8(source_name@),
                total_size,
                chunk_models(chunks@),
            ),
    {
        derive_identifier(chunks, source_name, total_size)
    }

    /// Splits `data`, the bytes that a source called `source_name` delivers,
    /// into chunks, and describes them in a manifest. The source declares
    /// `declared_length` bytes; where it delivers fewer, the manifest lists
    /// the chunks that could be read, and where it delivers more, reading
    /// stops after the declared number of chunks.
    pub fn shard_file(&self, source_name: &str, declared_length: u64, data: &[u8]) -> (r: Result<
        (ContentManifest, Vec<Vec<u8>>),
        ShardError,
    >)
        ensures
            r is Ok <==> planned_chunks(declared_length as nat, data@.len(), self.chunk_size())
                <= u32::MAX,
            r matches Ok((manifest, chunks)) ==> {
                let parts = split_spec(
                    data@,
                    self.chunk_size(),
                    planned_chunks(declared_length as nat, data@.len(), self.chunk_size()),
                );
                &&& records(chunks@) == parts
                &&& manifest@ == manifest_of(source_name@, declared_length, parts)
                &&& manifest.chunk_count == parts.len()
                &&& declared_length == data@.len() ==> manifest@.wf()
            },
            r matches Err(e) ==> e == ShardError::TooManyChunks,
    {
        proof {
            use_type_invariant(self);
        }
        let c = self.chunk_size_bytes;
        let len = data.len();
        let planned = ceil_div(declared_length, c);
        let available = ceil_div(len as u64, c);
        let count = if planned <= available {
            planned
        } else {
            available
        };
        if count > 0xffff_ffff {
            return Err(ShardError::TooManyChunks);
        }
        let ghost parts = split_spec(data@, c as nat, count as nat);
        let mut listed: Vec<ChunkRecord> = Vec::new();
        let mut chunks: Vec<Vec<u8>> = Vec::new();
        let mut k: u32 = 0;
        let mut offset: usize = 0;
        while (k as u64) < count
            invariant
                c > 0,
                len == data@.len(),
                count <= chunk_count(len as nat, c as nat),
                count <= 0xffff_ffff,
                k <= count,
                k < count ==> offset == k * c,
                parts == split_spec(data@, c as nat, count as nat),
                chunks@.len() == k,
                listed@.len() == k,
                forall|j: int| 0 <= j < k ==> (#[trigger] chunks@[j])@ == parts[j],
                forall|j: int| 0 <= j < k ==> (#[trigger] listed@[j])@ == record_of(j, parts[j]),
            decreases count - k,
        {
            proof {
                lemma_window_bounds(len as nat, c as nat, k as nat);
                lemma_window_bounds(len as nat, c as nat, (k + 1) as nat);
            }
            let remaining = len - offset;
            let end = if (remaining as u64) <= c {
                len
            } else {
                offset + (c as usize)
            };
            let chunk = copy_range(data, offset, end);
            assert(chunk@ == parts[k as int]);
            let digest = hash_bytes(chunk.as_slice());
            listed.push(
                ChunkRecord { sequence_index: k, byte_length: (end - offset) as u64, digest },
            );
            chunks.push(chunk);
            offset = end;
            k += 1;
        }
        assert(records(chunks@) =~= parts);
        assert(chunk_models(listed@) =~= records_of(parts));
        let composite_identifier = match self.generate_global_cid(
            listed.as_slice(),
            source_name,
            declared_length,
        ) {
            Ok(text) => text,
            Err(e) => {
                return Err(e);
            },
        };
        proof {
            if declared_length == data@.len() {
                lemma_split_manifest_wf(source_name@, data@, c as nat);
            }
        }
        let manifest = ContentManifest {
            source_name: source_name.to_owned(),
            total_byte_length: declared_length,
            chunk_count: k,
            chunks: listed,
            composite_identifier,
        };
        Ok((manifest, chunks))
    }
}

} // verus!
