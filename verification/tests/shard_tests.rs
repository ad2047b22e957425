use blob_integrity::encoding::{cid_v1_string, from_hex, push_be_u64, push_decimal, to_hex};
use blob_integrity::reassemble::{check_digest, check_total_size, reassemble, verify_chunk};
use blob_integrity::error::ShardError;
use blob_integrity::identifier::{
    build_identifier_preimage, chunk_file_name, derive_identifier, identifier_of_digest,
    RAW_CODEC, SHA2_256_CODE,
};
use blob_integrity::manifest::{metadata_file_name, ChunkRecord, ContentManifest};
use blob_integrity::shard::{ceil_div, FileSharder};

const DIGITS_CID: &str = "bafkreie3i4gehjpu64df4acqcwld547ztowsnl4sdfkjg4isr3apfngmri";
const EMPTY_CID: &str = "bafkreifdor6rlkp34ske7jrscfucz2igq3icj4w7zjbbkawjt5m5wtypoa";

fn sharder(bytes: u64) -> FileSharder {
    FileSharder::with_chunk_size(bytes).unwrap()
}

fn shard(bytes: u64, name: &str, data: &[u8]) -> (ContentManifest, Vec<Vec<u8>>) {
    sharder(bytes).shard_file(name, data.len() as u64, data).unwrap()
}

fn pattern(len: usize) -> Vec<u8> {
    (0..len).map(|i| (i * 31 % 251) as u8).collect()
}

#[test]
fn new_takes_mebibytes() {
    assert_eq!(FileSharder::new(4).unwrap().chunk_size_bytes(), 4 * 1024 * 1024);
    assert_eq!(FileSharder::new(256).unwrap().chunk_size_bytes(), 268_435_456);
    assert_eq!(
        FileSharder::new(17_592_186_044_415).unwrap().chunk_size_bytes(),
        17_592_186_044_415 * 1_048_576
    );
}

#[test]
fn new_rejects_zero_and_overflow() {
    assert_eq!(FileSharder::new(0).err(), Some(ShardError::InvalidChunkSize));
    assert_eq!(FileSharder::new(17_592_186_044_416).err(), Some(ShardError::InvalidChunkSize));
    assert_eq!(FileSharder::new(u64::MAX).err(), Some(ShardError::InvalidChunkSize));
    assert_eq!(FileSharder::with_chunk_size(0).err(), Some(ShardError::InvalidChunkSize));
    assert_eq!(FileSharder::with_chunk_size(1).unwrap().chunk_size_bytes(), 1);
}

#[test]
fn chunk_names_are_zero_padded() {
    assert_eq!(chunk_file_name(0), b"chunk_000.part".to_vec());
    assert_eq!(chunk_file_name(7), b"chunk_007.part".to_vec());
    assert_eq!(chunk_file_name(42), b"chunk_042.part".to_vec());
    assert_eq!(chunk_file_name(123), b"chunk_123.part".to_vec());
    assert_eq!(chunk_file_name(1000), b"chunk_1000.part".to_vec());
    assert_eq!(chunk_file_name(u32::MAX), b"chunk_4294967295.part".to_vec());
}

#[test]
fn decimal_and_big_endian() {
    let mut buf = Vec::new();
    push_decimal(&mut buf, 0);
    push_decimal(&mut buf, 9);
    push_decimal(&mut buf, 10);
    push_decimal(&mut buf, 4_294_967_295);
    assert_eq!(buf, b"09104294967295".to_vec());
    let mut buf = vec![0xffu8];
    push_be_u64(&mut buf, 0x0102_0304_0506_0708);
    assert_eq!(buf, vec![0xff, 1, 2, 3, 4, 5, 6, 7, 8]);
    let mut buf = Vec::new();
    push_be_u64(&mut buf, 10);
    assert_eq!(buf, 10u64.to_be_bytes().to_vec());
    let mut buf = Vec::new();
    push_be_u64(&mut buf, u64::MAX);
    assert_eq!(buf, vec![0xff; 8]);
}

#[test]
fn hex_both_ways() {
    assert_eq!(to_hex(&[1, 2, 3, 15, 16]), "0102030f10");
    assert_eq!(to_hex(&[]), "");
    assert_eq!(to_hex(&[0xff, 0x00, 0xab]), "ff00ab");
    assert_eq!(from_hex("0102030f10"), Some(vec![1, 2, 3, 15, 16]));
    assert_eq!(from_hex("0102030F10"), Some(vec![1, 2, 3, 15, 16]));
    assert_eq!(from_hex(""), Some(vec![]));
    assert_eq!(from_hex("123"), None);
    assert_eq!(from_hex("zz"), None);
    assert_eq!(from_hex("é"), None);
    let all: Vec<u8> = (0..=255).collect();
    assert_eq!(from_hex(&to_hex(&all)), Some(all));
}

#[test]
fn chunk_record_hex() {
    let record = ChunkRecord { sequence_index: 3, byte_length: 9, digest: vec![0xde, 0xad] };
    assert_eq!(record.digest_hex(), "dead");
    assert_eq!(ChunkRecord::from_hex(3, 9, "dead"), Some(record));
    assert_eq!(ChunkRecord::from_hex(3, 9, "dea"), None);
    assert_eq!(ChunkRecord::from_hex(3, 9, "xy"), None);
}

#[test]
fn content_identifier_text() {
    let digest = hex::decode("ba7816bf8f01cfea414140de5dae2223b00361a396177a9cb410ff61f20015ad")
        .unwrap();
    assert_eq!(
        cid_v1_string(RAW_CODEC, SHA2_256_CODE, &digest).unwrap(),
        "bafkreif2pall7dybz7vecqka3zo24irdwabwdi4wc55jznaq75q7eaavvu"
    );
    assert!(cid_v1_string(RAW_CODEC, SHA2_256_CODE, &[0u8; 64]).is_some());
    assert!(cid_v1_string(RAW_CODEC, SHA2_256_CODE, &[0u8; 65]).is_none());
    assert_ne!(
        cid_v1_string(0x70, SHA2_256_CODE, &digest),
        cid_v1_string(RAW_CODEC, SHA2_256_CODE, &digest)
    );
}

#[test]
fn metadata_names() {
    assert_eq!(metadata_file_name(b"photo.jpg"), b"photo_metadata.json".to_vec());
    assert_eq!(metadata_file_name(b"archive.tar.gz"), b"archive_metadata.json".to_vec());
    assert_eq!(metadata_file_name(b"README"), b"README_metadata.json".to_vec());
    assert_eq!(metadata_file_name(b".hidden"), b"_metadata.json".to_vec());
    assert_eq!(metadata_file_name(b""), b"_metadata.json".to_vec());
}

#[test]
fn chunk_count_formula() {
    assert_eq!(ceil_div(0, 4), 0);
    assert_eq!(ceil_div(8, 4), 2);
    assert_eq!(ceil_div(9, 4), 3);
    assert_eq!(ceil_div(1, 4), 1);
    assert_eq!(ceil_div(u64::MAX, 1), u64::MAX);
    assert_eq!(ceil_div(u64::MAX, 2), 1 << 63);
    assert_eq!(ceil_div(u64::MAX, u64::MAX), 1);
    assert_eq!(ceil_div(10 * 1_048_576, 4 * 1_048_576), 3);
}

#[test]
fn shard_ten_bytes_by_four() {
    let (manifest, chunks) = shard(4, "digits.txt", b"0123456789");
    assert_eq!(chunks, vec![b"0123".to_vec(), b"4567".to_vec(), b"89".to_vec()]);
    assert_eq!(manifest.source_name, "digits.txt");
    assert_eq!(manifest.total_byte_length, 10);
    assert_eq!(manifest.chunk_count, 3);
    assert_eq!(manifest.chunks.len(), 3);
    let digests = [
        "1be2e452b46d7a0d9656bbb1f768e8248eba1b75baed65f5d99eafa948899a6a",
        "db2e7f1bd5ab9968ae76199b7cc74795ca7404d5a08d78567715ce532f9d2669",
        "cd70bea023f752a0564abb6ed08d42c1440f2e33e29914e55e0be1595e24f45a",
    ];
    let lengths = [4u64, 4, 2];
    for i in 0..3 {
        assert_eq!(manifest.chunks[i].sequence_index, i as u32);
        assert_eq!(manifest.chunks[i].byte_length, lengths[i]);
        assert_eq!(manifest.chunks[i].digest_hex(), digests[i]);
    }
    assert_eq!(manifest.composite_identifier, DIGITS_CID);
}

#[test]
fn shard_empty_source_has_no_chunks() {
    let (manifest, chunks) = shard(4, "empty.bin", b"");
    assert!(chunks.is_empty());
    assert_eq!(manifest.chunk_count, 0);
    assert!(manifest.chunks.is_empty());
    assert_eq!(manifest.total_byte_length, 0);
    assert_eq!(manifest.composite_identifier, EMPTY_CID);
    assert_eq!(reassemble(&manifest, &chunks), Ok(Vec::new()));
}

#[test]
fn shard_exact_multiple() {
    let data = pattern(12);
    let (manifest, chunks) = shard(4, "even", &data);
    assert_eq!(manifest.chunk_count, 3);
    assert!(chunks.iter().all(|c| c.len() == 4));
    let (manifest, chunks) = shard(12, "even", &data);
    assert_eq!(manifest.chunk_count, 1);
    assert_eq!(chunks, vec![data.clone()]);
    let (manifest, chunks) = shard(13, "even", &data);
    assert_eq!(manifest.chunk_count, 1);
    assert_eq!(chunks, vec![data]);
}

#[test]
fn shard_chunk_counts_and_last_length() {
    for len in 0..40usize {
        for c in 1..9usize {
            let data = pattern(len);
            let (manifest, chunks) = shard(c as u64, "f", &data);
            let expected = (len + c - 1) / c;
            assert_eq!(chunks.len(), expected);
            assert_eq!(manifest.chunk_count as usize, expected);
            for (i, chunk) in chunks.iter().enumerate() {
                let want = if i + 1 < expected || len % c == 0 { c } else { len % c };
                assert_eq!(chunk.len(), want);
                assert_eq!(manifest.chunks[i].byte_length, want as u64);
                assert_eq!(manifest.chunks[i].sequence_index as usize, i);
            }
        }
    }
}

#[test]
fn round_trip_small_sources() {
    for len in 0..50usize {
        for c in 1..8u64 {
            let data = pattern(len);
            let (manifest, chunks) = shard(c, "roundtrip.bin", &data);
            assert_eq!(reassemble(&manifest, &chunks), Ok(data.clone()));
            assert_eq!(sharder(c).reassemble_file(&manifest, &chunks), Ok(data));
        }
    }
}

#[test]
fn truncated_source_gives_shorter_manifest() {
    let (manifest, chunks) = sharder(4).shard_file("short", 10, b"012345").unwrap();
    assert_eq!(chunks, vec![b"0123".to_vec(), b"45".to_vec()]);
    assert_eq!(manifest.chunk_count, 2);
    assert_eq!(manifest.total_byte_length, 10);
    assert_eq!(
        reassemble(&manifest, &chunks),
        Err(ShardError::SizeMismatch { expected: 10, actual: 6 })
    );
}

#[test]
fn source_longer_than_declared_stops_at_declared_count() {
    let (manifest, chunks) = sharder(4).shard_file("long", 10, &pattern(20)).unwrap();
    assert_eq!(chunks.len(), 3);
    assert!(chunks.iter().all(|c| c.len() == 4));
    assert_eq!(manifest.chunk_count, 3);
    assert_eq!(
        reassemble(&manifest, &chunks),
        Err(ShardError::SizeMismatch { expected: 10, actual: 12 })
    );
}

#[test]
fn declared_length_alone_makes_no_chunks() {
    let (manifest, chunks) = sharder(1).shard_file("hollow", u64::MAX, b"").unwrap();
    assert!(chunks.is_empty());
    assert_eq!(manifest.chunk_count, 0);
    assert_eq!(manifest.total_byte_length, u64::MAX);
}

#[test]
fn identifier_needs_a_digest_that_fits() {
    let digest = hex::decode("ba7816bf8f01cfea414140de5dae2223b00361a396177a9cb410ff61f20015ad")
        .unwrap();
    assert_eq!(
        identifier_of_digest(&digest),
        Ok("bafkreif2pall7dybz7vecqka3zo24irdwabwdi4wc55jznaq75q7eaavvu".to_string())
    );
    assert_eq!(identifier_of_digest(&[7u8; 65]), Err(ShardError::Identifier));
}

#[test]
fn identifier_is_deterministic() {
    let s = sharder(4);
    let (manifest, _) = shard(4, "digits.txt", b"0123456789");
    let one = s.generate_global_cid(&manifest.chunks, "digits.txt", 10).unwrap();
    let two = s.generate_global_cid(&manifest.chunks, "digits.txt", 10).unwrap();
    assert_eq!(one, two);
    assert_eq!(one, DIGITS_CID);
    assert_eq!(one, manifest.composite_identifier);
    assert_eq!(s.generate_global_cid(&[], "empty.bin", 0).unwrap(), EMPTY_CID);
}

#[test]
fn identifier_preimage_layout() {
    let (manifest, _) = shard(4, "digits.txt", b"0123456789");
    let preimage = build_identifier_preimage(&manifest.chunks, b"digits.txt", 10);
    let expected = "6469676974732e747874000000000000000a6368756e6b5f3030302e706172740000000000\
0000041be2e452b46d7a0d9656bbb1f768e8248eba1b75baed65f5d99eafa948899a6a6368756e6b5f3030312e7061\
72740000000000000004db2e7f1bd5ab9968ae76199b7cc74795ca7404d5a08d78567715ce532f9d26696368756e6b\
5f3030322e706172740000000000000002cd70bea023f752a0564abb6ed08d42c1440f2e33e29914e55e0be1595e24\
f45a";
    assert_eq!(to_hex(&preimage), expected);
}

#[test]
fn identifier_changes_with_every_input() {
    let s = sharder(4);
    let (manifest, _) = shard(4, "digits.txt", b"0123456789");
    let base = manifest.composite_identifier.clone();
    assert_ne!(s.generate_global_cid(&manifest.chunks, "digits.txd", 10).unwrap(), base);
    assert_ne!(s.generate_global_cid(&manifest.chunks, "digits.txt", 11).unwrap(), base);
    let mut resized = manifest.chunks.clone();
    resized[1].byte_length = 5;
    assert_ne!(s.generate_global_cid(&resized, "digits.txt", 10).unwrap(), base);
    let mut rehashed = manifest.chunks.clone();
    rehashed[2].digest[31] ^= 1;
    assert_ne!(s.generate_global_cid(&rehashed, "digits.txt", 10).unwrap(), base);
    assert_ne!(s.generate_global_cid(&manifest.chunks[..2], "digits.txt", 10).unwrap(), base);
    let (other, _) = shard(4, "digits.txt", b"0123456780");
    assert_ne!(other.composite_identifier, base);
}

#[test]
fn verify_chunk_recomputes_the_digest() {
    let (manifest, chunks) = shard(4, "digits.txt", b"0123456789");
    assert_eq!(verify_chunk(&manifest.chunks[0], 0, &chunks[0]), Ok(()));
    assert_eq!(
        verify_chunk(&manifest.chunks[0], 0, &chunks[1]),
        Err(ShardError::ChunkIntegrity { index: 0 })
    );
    assert_eq!(
        verify_chunk(&manifest.chunks[2], 7, b"8"),
        Err(ShardError::ChunkIntegrity { index: 7 })
    );
}

#[test]
fn check_total_size_reports_both_values() {
    assert_eq!(check_total_size(10, 10), Ok(()));
    assert_eq!(check_total_size(10, 9), Err(ShardError::SizeMismatch { expected: 10, actual: 9 }));
    assert_eq!(check_total_size(0, 1), Err(ShardError::SizeMismatch { expected: 0, actual: 1 }));
}

#[test]
fn every_flipped_bit_is_caught_at_its_chunk() {
    let data = pattern(23);
    let (manifest, chunks) = shard(5, "bits", &data);
    for i in 0..chunks.len() {
        for k in 0..chunks[i].len() {
            for bit in 0..8 {
                let mut stored = chunks.clone();
                stored[i][k] ^= 1 << bit;
                assert_eq!(
                    reassemble(&manifest, &stored),
                    Err(ShardError::ChunkIntegrity { index: i })
                );
            }
        }
    }
}

#[test]
fn first_bad_chunk_is_reported() {
    let (manifest, chunks) = shard(4, "digits.txt", b"0123456789");
    let mut stored = chunks.clone();
    stored[1][0] ^= 1;
    stored[2][0] ^= 1;
    assert_eq!(reassemble(&manifest, &stored), Err(ShardError::ChunkIntegrity { index: 1 }));
}

#[test]
fn missing_chunk_is_reported() {
    let (manifest, chunks) = shard(4, "digits.txt", b"0123456789");
    assert_eq!(reassemble(&manifest, &chunks[..2]), Err(ShardError::MissingChunk { index: 2 }));
    assert_eq!(reassemble(&manifest, &[]), Err(ShardError::MissingChunk { index: 0 }));
}

#[test]
fn recorded_digest_is_only_a_target() {
    let (mut manifest, chunks) = shard(4, "digits.txt", b"0123456789");
    manifest.chunks[0].digest = vec![0u8; 32];
    assert_eq!(reassemble(&manifest, &chunks), Err(ShardError::ChunkIntegrity { index: 0 }));
}

#[test]
fn declared_total_is_checked_last() {
    let (mut manifest, chunks) = shard(4, "digits.txt", b"0123456789");
    manifest.total_byte_length = 11;
    assert_eq!(
        reassemble(&manifest, &chunks),
        Err(ShardError::SizeMismatch { expected: 11, actual: 10 })
    );
}

#[test]
fn ten_mebibytes_in_four_mebibyte_chunks() {
    let mib = 1024 * 1024;
    let data: Vec<u8> = (0..10 * mib).map(|i: usize| (i % 253) as u8).collect();
    let s = FileSharder::new(4).unwrap();
    let (manifest, chunks) = s.shard_file("big.bin", data.len() as u64, &data).unwrap();
    assert_eq!(manifest.chunk_count, 3);
    assert_eq!(chunks.len(), 3);
    assert_eq!(chunks[0].len(), 4 * mib);
    assert_eq!(chunks[1].len(), 4 * mib);
    assert_eq!(chunks[2].len(), 2 * mib);
    assert_eq!(manifest.chunks[0].byte_length, 4 * mib as u64);
    assert_eq!(manifest.chunks[1].byte_length, 4 * mib as u64);
    assert_eq!(manifest.chunks[2].byte_length, 2 * mib as u64);
    let mut stored = chunks;
    stored[1][12345] ^= 0x01;
    assert_eq!(
        s.reassemble_file(&manifest, &stored),
        Err(ShardError::ChunkIntegrity { index: 1 })
    );
    stored[1][12345] ^= 0x01;
    assert_eq!(s.reassemble_file(&manifest, &stored), Ok(data));
}

#[test]
fn derive_identifier_matches_the_method() {
    let (manifest, _) = shard(4, "digits.txt", b"0123456789");
    assert_eq!(derive_identifier(&manifest.chunks, "digits.txt", 10), Ok(DIGITS_CID.to_string()));
    assert_eq!(derive_identifier(&[], "empty.bin", 0), Ok(EMPTY_CID.to_string()));
}

#[test]
fn written_manifests_are_consistent() {
    for len in 0..20usize {
        for c in 1..6u64 {
            let (manifest, _) = shard(c, "file.bin", &pattern(len));
            assert!(manifest.is_consistent());
        }
    }
}

#[test]
fn inconsistent_manifests_are_told_apart() {
    let (manifest, _) = shard(4, "digits.txt", b"0123456789");
    let mut m = manifest.clone();
    m.chunk_count = 2;
    assert!(!m.is_consistent());
    let mut m = manifest.clone();
    m.chunks[1].sequence_index = 2;
    assert!(!m.is_consistent());
    let mut m = manifest.clone();
    m.total_byte_length = 11;
    assert!(!m.is_consistent());
    let mut m = manifest.clone();
    m.chunks[0].byte_length = u64::MAX;
    assert!(!m.is_consistent());
    let mut m = manifest.clone();
    m.source_name = "other.txt".to_string();
    assert!(!m.is_consistent());
    let mut m = manifest.clone();
    m.composite_identifier = EMPTY_CID.to_string();
    assert!(!m.is_consistent());
    let mut m = manifest.clone();
    m.chunks[2].digest[0] ^= 1;
    assert!(!m.is_consistent());
    let (truncated, _) = sharder(4).shard_file("short", 10, b"012345").unwrap();
    assert!(!truncated.is_consistent());
}

#[test]
fn check_digest_compares_with_the_record() {
    let record = ChunkRecord { sequence_index: 4, byte_length: 3, digest: vec![1, 2, 3] };
    assert_eq!(check_digest(&record, 4, &[1, 2, 3]), Ok(()));
    assert_eq!(check_digest(&record, 4, &[1, 2, 4]), Err(ShardError::ChunkIntegrity { index: 4 }));
    assert_eq!(check_digest(&record, 9, &[1, 2]), Err(ShardError::ChunkIntegrity { index: 9 }));
    assert_eq!(check_digest(&record, 0, &[]), Err(ShardError::ChunkIntegrity { index: 0 }));
}
