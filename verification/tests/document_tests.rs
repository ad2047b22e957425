use blob_integrity::documents::{ChunkDocument, ManifestDocument, MerkleDocument};
use blob_integrity::error::ShardError;
use blob_integrity::manifest::ContentManifest;
use blob_integrity::merkle::{build_merkle_tree, MerkleNode};
use blob_integrity::shard::FileSharder;

fn digits_manifest() -> ContentManifest {
    let sharder = FileSharder::with_chunk_size(4).unwrap();
    sharder.shard_file("digits.txt", 10, b"0123456789").unwrap().0
}

#[test]
fn manifest_document_fields() {
    let doc = digits_manifest().to_document();
    assert_eq!(doc.original_file, "digits.txt");
    assert_eq!(doc.total_size, 10);
    assert_eq!(doc.chunk_count, 3);
    assert_eq!(doc.cid, "bafkreie3i4gehjpu64df4acqcwld547ztowsnl4sdfkjg4isr3apfngmri");
    assert_eq!(
        doc.chunks,
        vec![
            ChunkDocument {
                filename: b"chunk_000.part".to_vec(),
                size: 4,
                sha256: "1be2e452b46d7a0d9656bbb1f768e8248eba1b75baed65f5d99eafa948899a6a"
                    .to_string(),
            },
            ChunkDocument {
                filename: b"chunk_001.part".to_vec(),
                size: 4,
                sha256: "db2e7f1bd5ab9968ae76199b7cc74795ca7404d5a08d78567715ce532f9d2669"
                    .to_string(),
            },
            ChunkDocument {
                filename: b"chunk_002.part".to_vec(),
                size: 2,
                sha256: "cd70bea023f752a0564abb6ed08d42c1440f2e33e29914e55e0be1595e24f45a"
                    .to_string(),
            },
        ]
    );
}

#[test]
fn manifest_document_round_trip() {
    let manifest = digits_manifest();
    assert_eq!(ContentManifest::from_document(&manifest.to_document()), Ok(manifest));
    let sharder = FileSharder::with_chunk_size(3).unwrap();
    let empty = sharder.shard_file("nothing", 0, b"").unwrap().0;
    assert_eq!(ContentManifest::from_document(&empty.to_document()), Ok(empty));
}

#[test]
fn manifest_document_accepts_upper_case_digests() {
    let manifest = digits_manifest();
    let mut doc = manifest.to_document();
    doc.chunks[1].sha256 = doc.chunks[1].sha256.to_uppercase();
    assert_eq!(ContentManifest::from_document(&doc), Ok(manifest));
}

#[test]
fn malformed_manifest_documents_name_the_entry() {
    let good = digits_manifest().to_document();
    let mut doc = good.clone();
    doc.chunks[2].sha256 = "not hex".to_string();
    assert_eq!(
        ContentManifest::from_document(&doc),
        Err(ShardError::MalformedManifest { index: 2 })
    );
    let mut doc = good.clone();
    doc.chunks[1].sha256.pop();
    assert_eq!(
        ContentManifest::from_document(&doc),
        Err(ShardError::MalformedManifest { index: 1 })
    );
    let mut doc = good.clone();
    doc.chunks[0].filename = b"chunk_001.part".to_vec();
    doc.chunks[2].sha256 = "zz".to_string();
    assert_eq!(
        ContentManifest::from_document(&doc),
        Err(ShardError::MalformedManifest { index: 0 })
    );
    let mut doc = good;
    doc.chunks.swap(0, 1);
    assert_eq!(
        ContentManifest::from_document(&doc),
        Err(ShardError::MalformedManifest { index: 0 })
    );
}

#[test]
fn tree_document_shows_hex_digests_and_shape() {
    let tree = build_merkle_tree(vec![b"a".to_vec(), b"b".to_vec(), b"c".to_vec()]).unwrap();
    let doc = tree.to_document();
    assert_eq!(doc.digest, "d31a37ef6ac14a2db1470c4316beb5592e6afd4465022339adafda76a18ffabe");
    let left = doc.left.as_ref().unwrap();
    let right = doc.right.as_ref().unwrap();
    assert_eq!(left.digest, "e5a01fee14e0ed5c48714f22180f25ad8365b53f9779f79dc4a3d7e93963f94a");
    assert_eq!(right.digest, "a3e333fbee455b9a054cf05077f0f9d45b91bd13db4cd4a3681ec47455af085c");
    let leaf = left.left.as_ref().unwrap();
    assert_eq!(leaf.digest, "ca978112ca1bbdcafac231b39a23dc4da786eff8147c4e72b9807785afee48bb");
    assert!(leaf.left.is_none() && leaf.right.is_none());
}

#[test]
fn tree_document_round_trip() {
    for n in 1..8usize {
        let leaves: Vec<Vec<u8>> = (0..n).map(|i| vec![i as u8, 7, 9]).collect();
        let tree = build_merkle_tree(leaves.clone()).unwrap();
        let back = MerkleNode::from_document(&tree.to_document()).unwrap();
        assert_eq!(back, tree);
        assert!(back.verify(&leaves));
    }
}

#[test]
fn malformed_tree_documents_are_refused() {
    let leaf = |digest: &str| MerkleDocument { digest: digest.to_string(), left: None, right: None };
    assert_eq!(
        MerkleNode::from_document(&leaf("0aff")),
        Some(MerkleNode { hash: vec![0x0a, 0xff], left: None, right: None })
    );
    assert_eq!(MerkleNode::from_document(&leaf("0af")), None);
    assert_eq!(MerkleNode::from_document(&leaf("0afg")), None);
    let nested = MerkleDocument {
        digest: "00".to_string(),
        left: Some(Box::new(leaf("11"))),
        right: Some(Box::new(leaf("xx"))),
    };
    assert_eq!(MerkleNode::from_document(&nested), None);
    let lopsided = MerkleDocument {
        digest: "00".to_string(),
        left: Some(Box::new(leaf("11"))),
        right: None,
    };
    let read = MerkleNode::from_document(&lopsided).unwrap();
    assert!(read.right.is_none());
    assert!(!read.is_well_formed());
}
