//! Putting a sharded file together again, checking every chunk against its
//! recorded digest and the whole against the declared length.
use crate::digest::{
    append_bytes, bytes_equal, collision, digest_of, has_collision, hash_bytes, records,
};
use crate::error::ShardError;
use crate::manifest::{total_recorded, ChunkModel, ChunkRecord, ContentManifest, ManifestModel};
use crate::shard::{
    chunk_count, lemma_window_bounds, manifest_of, records_of, split_spec, window, FileSharder,
};
use vstd::prelude::*;

verus! {

/// Whether `bytes` hash to the digest that `record` holds.
pub open spec fn chunk_intact(record: ChunkModel, bytes: Seq<u8>) -> bool {
    digest_of(bytes) == record.digest
}

/// What is wrong with the stored chunk at position `k`, if anything.
pub open spec fn failure_at(chunks: Seq<ChunkModel>, stored: Seq<Seq<u8>>, k: int) -> Option<
    ShardError,
> {
    if k >= stored.len() {
        Some(ShardError::MissingChunk { index: k as usize })
    } else if !chunk_intact(chunks[k], stored[k]) {
        Some(ShardError::ChunkIntegrity { index: k as usize })
    } else {
        None
    }
}

/// The failure at the first position from `from` on that has one.
pub open spec fn first_failure(chunks: Seq<ChunkModel>, stored: Seq<Seq<u8>>, from: int) -> Option<
    ShardError,
>
    decreases chunks.len() - from,
{
    if from < 0 || from >= chunks.len() {
        None
    } else {
        match failure_at(chunks, stored, from) {
            Some(e) => Some(e),
            None => first_failure(chunks, stored, from + 1),
        }
    }
}

/// The byte strings of `parts`, one after the other.
pub open spec fn concat(parts: Seq<Seq<u8>>) -> Seq<u8>
    decreases parts.len(),
{
    if parts.len() == 0 {
        Seq::empty()
    } else {
        concat(parts.drop_last()) + parts.last()
    }
}

/// What reassembly gives: the failure of the first chunk that is missing or
/// does not hash to its recorded digest; else a size mismatch where the
/// chunks together are not as long as the manifest declares; else the
/// chunks, one after the other.
pub open spec fn reassemble_spec(manifest: ManifestModel, stored: Seq<Seq<u8>>) -> Result<
    Seq<u8>,
    ShardError,
> {
    match first_failure(manifest.chunks, stored, 0) {
        Some(e) => Err(e),
        None => {
            let out = concat(stored.take(manifest.chunks.len() as int));
            if out.len() == manifest.total_byte_length {
                Ok(out)
            } else {
                Err(
                    ShardError::SizeMismatch {
                        expected: manifest.total_byte_length,
                        actual: out.len() as u64,
                    },
                )
            }
        },
    }
}

/// Compares the digest `computed` from a stored chunk with the one that
/// `record` holds, and reports a difference as the integrity failure of
/// position `index`.
pub fn check_digest(record: &ChunkRecord, index: usize, computed: &[u8]) -> (r: Result<
    (),
    ShardError,
>)
    ensures
        r is Ok <==> computed@ == record@.digest,
        r matches Err(e) ==> e == (ShardError::ChunkIntegrity { index }),
{
    if bytes_equal(computed, record.digest.as_slice()) {
        Ok(())
    } else {
        Err(ShardError::ChunkIntegrity { index })
    }
}

/// Checks one stored chunk against its record: the digest is recomputed
/// from `data` and compared with the recorded one.
pub fn verify_chunk(record: &ChunkRecord, index: usize, data: &[u8]) -> (r: Result<(), ShardError>)
    ensures
        r is Ok <==> chunk_intact(record@, data@),
        r matches Err(e) ==> e == (ShardError::ChunkIntegrity { index }),
{
    let computed = hash_bytes(data);
    check_digest(record, index, computed.as_slice())
}

/// Checks the number of bytes written against the declared total.
pub fn check_total_size(expected: u64, written: u64) -> (r: Result<(), ShardError>)
    ensures
        r is Ok <==> written == expected,
        r matches Err(e) ==> e == (ShardError::SizeMismatch { expected, actual: written }),
{
    if written == expected {
        Ok(())
    } else {
        Err(ShardError::SizeMismatch { expected, actual: written })
    }
}

/// Reassembles the source from `stored`, the chunks in manifest order.
pub fn reassemble(manifest: &ContentManifest, stored: &[Vec<u8>]) -> (r: Result<
    Vec<u8>,
    ShardError,
>)
    ensures
        match r {
            Ok(bytes) => reassemble_spec(manifest@, records(stored@)) == Ok::<
                Seq<u8>,
                ShardError,
            >(bytes@),
            Err(e) => reassemble_spec(manifest@, records(stored@)) == Err::<Seq<u8>, ShardError>(
                e,
            ),
        },
{
    let n = manifest.chunks.len();
    let ghost chunks = manifest@.chunks;
    let ghost parts = records(stored@);
    let mut out: Vec<u8> = Vec::new();
    let mut i: usize = 0;
    assert(parts.take(0) =~= Seq::<Seq<u8>>::empty());
    while i < n
        invariant
            i <= n,
            n == manifest.chunks@.len(),
            chunks == manifest@.chunks,
            parts == records(stored@),
            i <= stored@.len(),
            first_failure(chunks, parts, 0) == first_failure(chunks, parts, i as int),
            out@ == concat(parts.take(i as int)),
        decreases n - i,
    {
        if i >= stored.len() {
            return Err(ShardError::MissingChunk { index: i });
        }
        assert(chunks[i as int] == manifest.chunks@[i as int]@);
        assert(parts[i as int] == stored@[i as int]@);
        match verify_chunk(&manifest.chunks[i], i, stored[i].as_slice()) {
            Ok(()) => {},
            Err(e) => {
                return Err(e);
            },
        }
        append_bytes(&mut out, stored[i].as_slice());
        proof {
            let next = parts.take(i + 1);
            assert(next.drop_last() =~= parts.take(i as int));
            assert(next.last() == parts[i as int]);
        }
        i += 1;
    }
    match check_total_size(manifest.total_byte_length, out.len() as u64) {
        Ok(()) => Ok(out),
        Err(e) => Err(e),
    }
}

impl FileSharder {
    /// Reassembles the source from `stored`, the chunks in manifest order.
    /// The chunk size plays no part: the manifest says what to expect.
    pub fn reassemble_file(&self, manifest: &ContentManifest, stored: &[Vec<u8>]) -> (r: Result<
        Vec<u8>,
        ShardError,
    >)
        ensures
            match r {
                Ok(bytes) => reassemble_spec(manifest@, records(stored@)) == Ok::<
                    Seq<u8>,
                    ShardError,
                >(bytes@),
                Err(e) => reassemble_spec(manifest@, records(stored@)) == Err::<
                    Seq<u8>,
                    ShardError,
                >(e),
            },
    {
        reassemble(manifest, stored)
    }
}

/// Where every chunk from `from` on is stored and intact, none fails.
proof fn lemma_no_failure(chunks: Seq<ChunkModel>, stored: Seq<Seq<u8>>, from: int)
    requires
        0 <= from,
        forall|k: int| from <= k < chunks.len() ==> failure_at(chunks, stored, k) is None,
    ensures
        first_failure(chunks, stored, from) is None,
    decreases chunks.len() - from,
{
    if from < chunks.len() {
        lemma_no_failure(chunks, stored, from + 1);
    }
}

/// Where nothing fails from `from` on, every chunk from there on is stored
/// and intact.
proof fn lemma_all_intact(chunks: Seq<ChunkModel>, stored: Seq<Seq<u8>>, from: int)
    requires
        0 <= from,
        first_failure(chunks, stored, from) is None,
    ensures
        forall|k: int| from <= k < chunks.len() ==> failure_at(chunks, stored, k) is None,
    decreases chunks.len() - from,
{
    if from < chunks.len() {
        lemma_all_intact(chunks, stored, from + 1);
    }
}

/// The first failure is that of position `k` where all positions from
/// `from` up to `k` are sound and `k` is not.
proof fn lemma_fails_at(chunks: Seq<ChunkModel>, stored: Seq<Seq<u8>>, from: int, k: int)
    requires
        0 <= from <= k < chunks.len(),
        forall|j: int| from <= j < k ==> failure_at(chunks, stored, j) is None,
        failure_at(chunks, stored, k) is Some,
    ensures
        first_failure(chunks, stored, from) == failure_at(chunks, stored, k),
    decreases k - from,
{
    if from < k {
        lemma_fails_at(chunks, stored, from + 1, k);
    }
}

/// The first `k` windows of `data`, one after the other, are the first
/// `k * c` bytes of `data`, or all of it where it is shorter.
pub proof fn lemma_concat_windows(data: Seq<u8>, c: nat, k: nat)
    requires
        c > 0,
        k <= chunk_count(data.len(), c),
    ensures
        concat(split_spec(data, c, k)) == data.subrange(
            0,
            if k * c < data.len() {
                (k * c) as int
            } else {
                data.len() as int
            },
        ),
    decreases k,
{
    let parts = split_spec(data, c, k);
    if k == 0 {
        assert(0 * c == 0) by (nonlinear_arith);
        assert(concat(parts) =~= data.subrange(0, 0));
    } else {
        let j = (k - 1) as nat;
        lemma_concat_windows(data, c, j);
        lemma_window_bounds(data.len(), c, j);
        lemma_window_bounds(data.len(), c, k);
        assert(parts.drop_last() =~= split_spec(data, c, j));
        assert(parts.last() == window(data, c, j as int));
        let end = if k * c < data.len() {
            (k * c) as int
        } else {
            data.len() as int
        };
        assert(concat(parts) =~= data.subrange(0, end));
    }
}

/// The recorded lengths of chunks add up to the length of the chunks put
/// together.
pub proof fn lemma_total_recorded(parts: Seq<Seq<u8>>)
    requires
        forall|k: int| 0 <= k < parts.len() ==> (#[trigger] parts[k]).len() <= u64::MAX,
    ensures
        total_recorded(records_of(parts)) == concat(parts).len(),
    decreases parts.len(),
{
    if parts.len() > 0 {
        lemma_total_recorded(parts.drop_last());
        assert(records_of(parts).drop_last() =~= records_of(parts.drop_last()));
    }
}

/// Splitting and reassembling gives the source back: for any bytes `data`
/// and any positive chunk size `c`, the chunks of `data` pass every check
/// against the manifest written for them, and reassemble to `data`.
pub proof fn lemma_round_trip(name: Seq<char>, data: Seq<u8>, c: nat)
    requires
        c > 0,
        data.len() <= u64::MAX,
    ensures
        ({
            let parts = split_spec(data, c, chunk_count(data.len(), c));
            reassemble_spec(manifest_of(name, data.len() as u64, parts), parts)
        }) == Ok::<Seq<u8>, ShardError>(data),
{
    let n = chunk_count(data.len(), c);
    let parts = split_spec(data, c, n);
    let manifest = manifest_of(name, data.len() as u64, parts);
    lemma_no_failure(manifest.chunks, parts, 0);
    lemma_concat_windows(data, c, n);
    lemma_window_bounds(data.len(), c, n);
    assert(parts.take(n as int) =~= parts);
    assert(data.subrange(0, data.len() as int) =~= data);
}

/// What passes reassembly is the source: where stored chunks pass every
/// check against the manifest written for `data`, the bytes put together
/// are `data`, unless a stored chunk collides with the chunk it stands for
/// under the digest function.
pub proof fn lemma_reassembled_is_source(
    name: Seq<char>,
    data: Seq<u8>,
    c: nat,
    stored: Seq<Seq<u8>>,
)
    requires
        c > 0,
        data.len() <= u64::MAX,
        ({
            let parts = split_spec(data, c, chunk_count(data.len(), c));
            reassemble_spec(manifest_of(name, data.len() as u64, parts), stored)
        }) is Ok,
    ensures
        ({
            let parts = split_spec(data, c, chunk_count(data.len(), c));
            reassemble_spec(manifest_of(name, data.len() as u64, parts), stored)
        }) == Ok::<Seq<u8>, ShardError>(data) || has_collision(),
{
    let n = chunk_count(data.len(), c);
    let parts = split_spec(data, c, n);
    let manifest = manifest_of(name, data.len() as u64, parts);
    if !has_collision() {
        lemma_all_intact(manifest.chunks, stored, 0);
        assert forall|k: int| 0 <= k < n implies stored[k] == parts[k] by {
            assert(failure_at(manifest.chunks, stored, k) is None);
            assert(!collision(stored[k], parts[k]));
        }
        if n > 0 {
            assert(failure_at(manifest.chunks, stored, n - 1) is None);
        }
        assert(stored.take(n as int) =~= parts);
        lemma_round_trip(name, data, c);
        assert(parts.take(n as int) =~= parts);
    }
}

/// A changed chunk is caught: where the stored chunks pass reassembly and
/// one of them, at position `k`, is then replaced by other bytes,
/// reassembly fails with the integrity failure of position `k`, unless the
/// old and the new bytes collide under the digest function.
pub proof fn lemma_corruption_detected(
    manifest: ManifestModel,
    stored: Seq<Seq<u8>>,
    tampered: Seq<Seq<u8>>,
    k: int,
)
    requires
        reassemble_spec(manifest, stored) is Ok,
        0 <= k < manifest.chunks.len(),
        tampered.len() == stored.len(),
        forall|j: int| 0 <= j < stored.len() && j != k ==> tampered[j] == stored[j],
        tampered[k] != stored[k],
    ensures
        reassemble_spec(manifest, tampered) == Err::<Seq<u8>, ShardError>(
            ShardError::ChunkIntegrity { index: k as usize },
        ) || collision(stored[k], tampered[k]),
{
    let chunks = manifest.chunks;
    lemma_all_intact(chunks, stored, 0);
    assert(failure_at(chunks, stored, k) is None);
    if !collision(stored[k], tampered[k]) {
        assert forall|j: int| 0 <= j < k implies failure_at(chunks, tampered, j) is None by {
            assert(failure_at(chunks, stored, j) is None);
        }
        lemma_fails_at(chunks, tampered, 0, k);
    }
}

} // verus!
