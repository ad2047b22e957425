//! The persisted documents: a manifest and a Merkle tree as they are written
//! out, with digests in hexadecimal, and the way back from each.
use crate::digest::bytes_equal;
use crate::encoding::{from_hex, hex_bytes, hex_text, is_hex_text, lemma_hex_round_trip, to_hex};
use crate::error::ShardError;
use crate::identifier::{chunk_file_name, chunk_name};
use crate::manifest::{chunk_models, ChunkModel, ChunkRecord, ContentManifest, ManifestModel};
use crate::merkle::{MerkleNode, TreeShape};
use vstd::prelude::*;

verus! {

/// One chunk as a manifest document lists it.
#[derive(Debug, Clone, PartialEq, Eq)]
pub struct ChunkDocument {
    pub filename: Vec<u8>,
    pub size: u64,
    pub sha256: String,
}

/// A manifest as it is written out.
#[derive(Debug, Clone, PartialEq, Eq)]
pub struct ManifestDocument {
    pub original_file: String,
    pub total_size: u64,
    pub chunk_count: u32,
    pub chunks: Vec<ChunkDocument>,
    pub cid: String,
}

/// The value of a `ChunkDocument`.
pub ghost struct ChunkEntry {
    pub filename: Seq<u8>,
    pub size: u64,
    pub sha256: Seq<char>,
}

/// The value of a `ManifestDocument`.
pub ghost struct ManifestText {
    pub original_file: Seq<char>,
    pub total_size: u64,
    pub chunk_count: u32,
    pub chunks: Seq<ChunkEntry>,
    pub cid: Seq<char>,
}

impl View for ChunkDocument {
    type V = ChunkEntry;

    open spec fn view(&self) -> ChunkEntry {
        ChunkEntry { filename: self.filename@, size: self.size, sha256: self.sha256@ }
    }
}

/// The values of a sequence of chunk entries.
pub open spec fn chunk_entries(chunks: Seq<ChunkDocument>) -> Seq<ChunkEntry> {
    Seq::new(chunks.len(), |i: int| chunks[i]@)
}

impl View for ManifestDocument {
    type V = ManifestText;

    open spec fn view(&self) -> ManifestText {
        ManifestText {
            original_file: self.original_file@,
            total_size: self.total_size,
            chunk_count: self.chunk_count,
            chunks: chunk_entries(self.chunks@),
            cid: self.cid@,
        }
    }
}

/// How a chunk record is written out: under its stored name, with its
/// digest in hexadecimal.
pub open spec fn entry_of(record: ChunkModel) -> ChunkEntry {
    ChunkEntry {
        filename: chunk_name(record.sequence_index),
        size: record.byte_length,
        sha256: hex_text(record.digest),
    }
}

/// How a manifest is written out.
pub open spec fn written(manifest: ManifestModel) -> ManifestText {
    ManifestText {
        original_file: manifest.source_name,
        total_size: manifest.total_byte_length,
        chunk_count: manifest.chunk_count,
        chunks: Seq::new(manifest.chunks.len(), |i: int| entry_of(manifest.chunks[i])),
        cid: manifest.composite_identifier,
    }
}

/// Whether the entry at position `i` can be read back: the position fits a
/// sequence index, the name is the one that the position gives, and the
/// digest is hexadecimal.
pub open spec fn entry_readable(entry: ChunkEntry, i: int) -> bool {
    i <= u32::MAX && entry.filename == chunk_name(i as u32) && is_hex_text(entry.sha256)
}

/// The record that the entry at position `i` stands for.
pub open spec fn record_read(entry: ChunkEntry, i: int) -> ChunkModel {
    ChunkModel {
        sequence_index: i as u32,
        byte_length: entry.size,
        digest: hex_bytes(entry.sha256),
    }
}

/// The first position from `from` on whose entry cannot be read back.
pub open spec fn first_unreadable(entries: Seq<ChunkEntry>, from: int) -> Option<int>
    decreases entries.len() - from,
{
    if from < 0 || from >= entries.len() {
        None
    } else if !entry_readable(entries[from], from) {
        Some(from)
    } else {
        first_unreadable(entries, from + 1)
    }
}

/// What reading a manifest document gives: the position of the first entry
/// that cannot be read back, or the manifest that the document stands for.
pub open spec fn read_back(text: ManifestText) -> Result<ManifestModel, ShardError> {
    match first_unreadable(text.chunks, 0) {
        Some(i) => Err(ShardError::MalformedManifest { index: i as usize }),
        None => Ok(
            ManifestModel {
                source_name: text.original_file,
                total_byte_length: text.total_size,
                chunk_count: text.chunk_count,
                chunks: Seq::new(text.chunks.len(), |i: int| record_read(text.chunks[i], i)),
                composite_identifier: text.cid,
            },
        ),
    }
}

impl ContentManifest {
    /// Writes the manifest out as a document.
    pub fn to_document(&self) -> (doc: ManifestDocument)
        ensures
            doc@ == written(self@),
    {
        let mut chunks: Vec<ChunkDocument> = Vec::new();
        let mut i: usize = 0;
        while i < self.chunks.len()
            invariant
                i <= self.chunks@.len(),
                chunks@.len() == i,
                forall|j: int| 0 <= j < i ==> (#[trigger] chunks@[j])@ == entry_of(self.chunks@[j]@),
            decreases self.chunks@.len() - i,
        {
            let record = &self.chunks[i];
            chunks.push(
                ChunkDocument {
                    filename: chunk_file_name(record.sequence_index),
                    size: record.byte_length,
                    sha256: record.digest_hex(),
                },
            );
            i += 1;
        }
        assert(chunk_entries(chunks@) =~= written(self@).chunks);
        ManifestDocument {
            original_file: self.source_name.clone(),
            total_size: self.total_byte_length,
            chunk_count: self.chunk_count,
            chunks,
            cid: self.composite_identifier.clone(),
        }
    }

    /// Reads a manifest back from a document. Every chunk entry must carry
    /// the name that its position gives and a hexadecimal digest; the first
    /// that does not is reported.
    pub fn from_document(doc: &ManifestDocument) -> (r: Result<ContentManifest, ShardError>)
        ensures
            match r {
                Ok(manifest) => read_back(doc@) == Ok::<ManifestModel, ShardError>(manifest@),
                Err(e) => read_back(doc@) == Err::<ManifestModel, ShardError>(e),
            },
    {
        let ghost entries = doc@.chunks;
        let mut chunks: Vec<ChunkRecord> = Vec::new();
        let mut i: usize = 0;
        while i < doc.chunks.len()
            invariant
                i <= doc.chunks@.len(),
                entries == doc@.chunks,
                chunks@.len() == i,
                first_unreadable(entries, 0) == first_unreadable(entries, i as int),
                forall|j: int| 0 <= j < i ==> (#[trigger] chunks@[j])@ == record_read(entries[j], j),
            decreases doc.chunks@.len() - i,
        {
            let entry = &doc.chunks[i];
            assert(entries[i as int] == entry@);
            if i > 0xffff_ffff {
                return Err(ShardError::MalformedManifest { index: i });
            }
            let index = i as u32;
            let expected = chunk_file_name(index);
            if !bytes_equal(entry.filename.as_slice(), expected.as_slice()) {
                return Err(ShardError::MalformedManifest { index: i });
            }
            match ChunkRecord::from_hex(index, entry.size, entry.sha256.as_str()) {
                Some(record) => {
                    chunks.push(record);
                },
                None => {
                    return Err(ShardError::MalformedManifest { index: i });
                },
            }
            i += 1;
        }
        let manifest = ContentManifest {
            source_name: doc.original_file.clone(),
            total_byte_length: doc.total_size,
            chunk_count: doc.chunk_count,
            chunks,
            composite_identifier: doc.cid.clone(),
        };
        assert(chunk_models(manifest.chunks@) =~= Seq::new(
            entries.len(),
            |j: int| record_read(entries[j], j),
        ));
        Ok(manifest)
    }
}

/// Where every entry from `from` on can be read back, none is reported.
proof fn lemma_all_readable(entries: Seq<ChunkEntry>, from: int)
    requires
        0 <= from,
        forall|i: int| from <= i < entries.len() ==> entry_readable(#[trigger] entries[i], i),
    ensures
        first_unreadable(entries, from) is None,
    decreases entries.len() - from,
{
    if from < entries.len() {
        lemma_all_readable(entries, from + 1);
    }
}

/// Writing a manifest out and reading it back gives the same manifest:
/// every field, and every chunk record in its place, provided that the
/// chunks are numbered by position.
pub proof fn lemma_manifest_round_trip(manifest: ManifestModel)
    requires
        forall|i: int|
            0 <= i < manifest.chunks.len() ==> (#[trigger] manifest.chunks[i]).sequence_index == i,
    ensures
        read_back(written(manifest)) == Ok::<ManifestModel, ShardError>(manifest),
{
    let text = written(manifest);
    assert forall|i: int| 0 <= i < text.chunks.len() implies entry_readable(
        #[trigger] text.chunks[i],
        i,
    ) && record_read(text.chunks[i], i) == manifest.chunks[i] by {
        lemma_hex_round_trip(manifest.chunks[i].digest);
    }
    lemma_all_readable(text.chunks, 0);
    assert(Seq::new(text.chunks.len(), |i: int| record_read(text.chunks[i], i))
        =~= manifest.chunks);
}

/// A Merkle tree as it is written out: every digest in hexadecimal, the
/// shape kept as it is.
#[derive(Debug, PartialEq, Eq)]
pub struct MerkleDocument {
    pub digest: String,
    pub left: Option<Box<MerkleDocument>>,
    pub right: Option<Box<MerkleDocument>>,
}

/// The value of a `MerkleDocument`.
pub ghost struct TreeText {
    pub digest: Seq<char>,
    pub left: Option<Box<TreeText>>,
    pub right: Option<Box<TreeText>>,
}

impl MerkleDocument {
    /// The value of this document.
    pub open spec fn text(&self) -> TreeText
        decreases self,
    {
        TreeText {
            digest: self.digest@,
            left: match self.left {
                Some(l) => Some(Box::new(l.text())),
                None => None,
            },
            right: match self.right {
                Some(r) => Some(Box::new(r.text())),
                None => None,
            },
        }
    }
}

impl View for MerkleDocument {
    type V = TreeText;

    open spec fn view(&self) -> TreeText {
        self.text()
    }
}

/// How a tree is written out.
pub open spec fn tree_written(tree: TreeShape) -> TreeText
    decreases tree,
{
    TreeText {
        digest: hex_text(tree.digest),
        left: match tree.left {
            Some(l) => Some(Box::new(tree_written(*l))),
            None => None,
        },
        right: match tree.right {
            Some(r) => Some(Box::new(tree_written(*r))),
            None => None,
        },
    }
}

/// What reading an optional subtree gives: nothing stays nothing, and a
/// subtree must itself be readable.
pub open spec fn subtree_read(text: Option<Box<TreeText>>) -> Option<Option<Box<TreeShape>>>
    decreases text,
{
    match text {
        None => Some(None),
        Some(t) => match tree_read(*t) {
            Some(tree) => Some(Some(Box::new(tree))),
            None => None,
        },
    }
}

/// What reading a tree document gives: the tree, where every digest in it
/// is hexadecimal; nothing otherwise.
pub open spec fn tree_read(text: TreeText) -> Option<TreeShape>
    decreases text,
{
    if !is_hex_text(text.digest) {
        None
    } else {
        match (subtree_read(text.left), subtree_read(text.right)) {
            (Some(left), Some(right)) => Some(
                TreeShape { digest: hex_bytes(text.digest), left, right },
            ),
            _ => None,
        }
    }
}

impl MerkleNode {
    /// Writes the tree out as a document.
    pub fn to_document(&self) -> (doc: MerkleDocument)
        ensures
            doc@ == tree_written(self@),
        decreases self,
    {
        let left = match &self.left {
            Some(l) => Some(Box::new(l.to_document())),
            None => None,
        };
        let right = match &self.right {
            Some(r) => Some(Box::new(r.to_document())),
            None => None,
        };
        MerkleDocument { digest: to_hex(self.hash.as_slice()), left, right }
    }

    /// Reads a tree back from a document; nothing where a digest in it is
    /// not hexadecimal.
    pub fn from_document(doc: &MerkleDocument) -> (tree: Option<MerkleNode>)
        ensures
            match tree {
                Some(t) => tree_read(doc@) == Some(t@),
                None => tree_read(doc@) is None,
            },
        decreases doc,
    {
        let hash = match from_hex(doc.digest.as_str()) {
            Some(h) => h,
            None => {
                return None;
            },
        };
        let left = match &doc.left {
            Some(l) => match MerkleNode::from_document(l) {
                Some(t) => Some(Box::new(t)),
                None => {
                    return None;
                },
            },
            None => None,
        };
        let right = match &doc.right {
            Some(r) => match MerkleNode::from_document(r) {
                Some(t) => Some(Box::new(t)),
                None => {
                    return None;
                },
            },
            None => None,
        };
        Some(MerkleNode { hash, left, right })
    }
}

/// Writing a tree out and reading it back gives the same tree: every
/// digest, and the same shape.
pub proof fn lemma_tree_round_trip(tree: TreeShape)
    ensures
        tree_read(tree_written(tree)) == Some(tree),
    decreases tree,
{
    lemma_hex_round_trip(tree.digest);
    match tree.left {
        Some(l) => {
            lemma_tree_round_trip(*l);
        },
        None => {},
    }
    match tree.right {
        Some(r) => {
            lemma_tree_round_trip(*r);
        },
        None => {},
    }
}

} // verus!
