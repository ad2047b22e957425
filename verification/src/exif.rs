//! Image metadata as a source of Merkle leaves: finding the EXIF segment of
//! a JPEG stream, turning fields into byte records, building the tree over
//! them in a fixed order, and a plausibility check on metadata text.
use crate::digest::{append_bytes, copy_range, records};
use crate::merkle::{build_from_records, build_spec, MerkleNode};
use vstd::prelude::*;
use vstd::relations::{antisymmetric, reflexive, sorted_by, strongly_connected, transitive};
use vstd::seq_lib::lemma_sorted_unique;
use vstd::utf8::encode_utf8;

verus! {

/// Whether `needle` occurs in `hay` as a contiguous run of characters.
pub open spec fn contains_text(hay: Seq<char>, needle: Seq<char>) -> bool {
    exists|i: int|
        0 <= i <= hay.len() - needle.len() && #[trigger] hay.subrange(i, i + needle.len())
            == needle
}

/// Calls `str::contains` with a string pattern.
///
/// Trusted: the result says whether the pattern occurs in the text as a
/// contiguous substring, as std documents.
#[verifier::external_body]
fn str_contains(hay: &str, needle: &str) -> (found: bool)
    ensures
        found == contains_text(hay@, needle@),
{
    hay.contains(needle)
}

/// Whether the metadata text names the expected camera make, camera model
/// and capture time.
pub fn validate_exif(blob_str: &str) -> (ok: bool)
    ensures
        ok == (contains_text(blob_str@, "Canon"@) && contains_text(blob_str@, "5D Mark III"@)
            && contains_text(blob_str@, "2015:05:22 15:07:45"@)),
{
    let make_ok = str_contains(blob_str, "Canon");
    let model_ok = str_contains(blob_str, "5D Mark III");
    let date_ok = str_contains(blob_str, "2015:05:22 15:07:45");
    make_ok && model_ok && date_ok
}

/// `Exif`, then two zero bytes: the header of an EXIF segment body.
pub open spec fn exif_header() -> Seq<u8> {
    seq![69u8, 120u8, 105u8, 102u8, 0u8, 0u8]
}

/// The length that the segment at `pos` declares: two bytes, big-endian,
/// which count themselves.
pub open spec fn segment_len(jpeg: Seq<u8>, pos: int) -> int {
    jpeg[pos + 2] as int * 256 + jpeg[pos + 3] as int
}

/// The body of the first APP1 segment at or after `pos` that begins with
/// the EXIF header. Segments are walked in order: a marker byte `0xFF`, a
/// kind, a length. None where the walk meets a malformed segment first, one
/// that runs past the end of the stream, or the end itself.
pub open spec fn scan_segments(jpeg: Seq<u8>, pos: int) -> Option<Seq<u8>>
    decreases jpeg.len() - pos,
{
    if pos < 0 || pos + 4 > jpeg.len() {
        None
    } else if jpeg[pos] != 0xFFu8 || segment_len(jpeg, pos) < 2 {
        None
    } else {
        let end = pos + 2 + segment_len(jpeg, pos);
        if end > jpeg.len() {
            None
        } else if jpeg[pos + 1] != 0xE1u8 {
            scan_segments(jpeg, end)
        } else {
            let body = jpeg.subrange(pos + 4, end);
            if body.len() >= 6 && body.subrange(0, 6) == exif_header() {
                Some(body)
            } else {
                scan_segments(jpeg, end)
            }
        }
    }
}

/// The EXIF blob of a JPEG stream: the stream must open with the
/// start-of-image marker `FF D8`, and the blob is then the body of its first
/// APP1 segment that begins with the EXIF header.
pub open spec fn exif_blob(jpeg: Seq<u8>) -> Option<Seq<u8>> {
    if jpeg.len() >= 2 && jpeg[0] == 0xFFu8 && jpeg[1] == 0xD8u8 {
        scan_segments(jpeg, 2)
    } else {
        None
    }
}

/// Whether `body` begins with the EXIF header.
fn has_exif_header(body: &[u8]) -> (yes: bool)
    ensures
        yes == (body@.len() >= 6 && body@.subrange(0, 6) == exif_header()),
{
    if body.len() < 6 {
        return false;
    }
    let yes = body[0] == 69 && body[1] == 120 && body[2] == 105 && body[3] == 102 && body[4] == 0
        && body[5] == 0;
    proof {
        let head = body@.subrange(0, 6);
        if yes {
            assert(head =~= exif_header());
        } else {
            assert(head[0] == body@[0] && head[1] == body@[1] && head[2] == body@[2]);
            assert(head[3] == body@[3] && head[4] == body@[4] && head[5] == body@[5]);
            assert(exif_header()[0] == 69u8 && exif_header()[1] == 120u8);
            assert(exif_header()[2] == 105u8 && exif_header()[3] == 102u8);
            assert(exif_header()[4] == 0u8 && exif_header()[5] == 0u8);
        }
    }
    yes
}

/// Returns the raw EXIF blob of a JPEG stream (the segment body, without
/// marker and length), or nothing where the stream holds none.
pub fn extract_exif_blob(jpeg: &[u8]) -> (blob: Option<Vec<u8>>)
    ensures
        blob is Some <==> exif_blob(jpeg@) is Some,
        blob matches Some(b) ==> Some(b@) == exif_blob(jpeg@),
{
    let n = jpeg.len();
    if n < 2 || jpeg[0] != 0xFF || jpeg[1] != 0xD8 {
        return None;
    }
    let mut pos: usize = 2;
    loop
        invariant
            n == jpeg@.len(),
            2 <= pos <= n,
            exif_blob(jpeg@) == scan_segments(jpeg@, pos as int),
        decreases n - pos,
    {
        if n - pos < 4 {
            return None;
        }
        if jpeg[pos] != 0xFF {
            return None;
        }
        let marker = jpeg[pos + 1];
        let hi: usize = jpeg[pos + 2] as usize;
        let lo: usize = jpeg[pos + 3] as usize;
        let len: usize = hi * 256 + lo;
        assert(len == segment_len(jpeg@, pos as int));
        if len < 2 {
            return None;
        }
        if len - 2 > n - pos - 4 {
            return None;
        }
        let end: usize = pos + 2 + len;
        if marker == 0xE1 {
            let body = copy_range(jpeg, pos + 4, end);
            if has_exif_header(body.as_slice()) {
                return Some(body);
            }
        }
        pos = end;
    }
}

/// Whether `b` is a visible ASCII character or a space.
pub open spec fn is_printable(b: u8) -> bool {
    33 <= b <= 126 || b == 32
}

/// The visible ASCII characters and spaces of `blob`, in order.
pub open spec fn printable(blob: Seq<u8>) -> Seq<u8>
    decreases blob.len(),
{
    if blob.len() == 0 {
        Seq::empty()
    } else if is_printable(blob.last()) {
        printable(blob.drop_last()).push(blob.last())
    } else {
        printable(blob.drop_last())
    }
}

/// Keeps the visible ASCII characters and spaces of `blob`, so that a blob
/// can be shown as text.
pub fn printable_ascii(blob: &[u8]) -> (shown: Vec<u8>)
    ensures
        shown@ == printable(blob@),
{
    let mut shown: Vec<u8> = Vec::new();
    let mut i: usize = 0;
    assert(blob@.take(0) =~= Seq::<u8>::empty());
    while i < blob.len()
        invariant
            i <= blob@.len(),
            shown@ == printable(blob@.take(i as int)),
        decreases blob@.len() - i,
    {
        let b = blob[i];
        assert(blob@.take(i + 1).drop_last() =~= blob@.take(i as int));
        if (33 <= b && b <= 126) || b == 32 {
            shown.push(b);
        }
        i += 1;
    }
    assert(blob@.take(i as int) =~= blob@);
    shown
}

/// The byte record of one metadata field: its tag, a colon, its value.
pub open spec fn field_record(tag: Seq<char>, value: Seq<char>) -> Seq<u8> {
    encode_utf8(tag) + seq![58u8] + encode_utf8(value)
}

/// Renders one metadata field as a byte record.
pub fn exif_leaf(tag: &str, value: &str) -> (leaf: Vec<u8>)
    ensures
        leaf@ == field_record(tag@, value@),
{
    let mut leaf: Vec<u8> = Vec::new();
    append_bytes(&mut leaf, tag.as_bytes());
    leaf.push(58);
    append_bytes(&mut leaf, value.as_bytes());
    assert(leaf@ =~= field_record(tag@, value@));
    leaf
}

/// Whether `a` comes before `b`, or is `b`, in the order of byte strings:
/// by the first byte in which they differ, a prefix before what extends it.
pub open spec fn lex_le(a: Seq<u8>, b: Seq<u8>) -> bool
    decreases a.len(),
{
    if a.len() == 0 {
        true
    } else if b.len() == 0 {
        false
    } else if a[0] != b[0] {
        a[0] < b[0]
    } else {
        lex_le(a.skip(1), b.skip(1))
    }
}

/// Whether `s` is in ascending order.
pub open spec fn lex_sorted(s: Seq<Seq<u8>>) -> bool {
    forall|i: int, j: int| 0 <= i <= j < s.len() ==> lex_le(#[trigger] s[i], #[trigger] s[j])
}

/// Calls the slice method `sort` on the records.
///
/// Trusted: afterwards the records are the same ones, each as often as
/// before, in ascending order; byte vectors compare lexicographically, as
/// std documents.
#[verifier::external_body]
fn sort_records(leaves: &mut Vec<Vec<u8>>)
    ensures
        final(leaves)@.len() == old(leaves)@.len(),
        lex_sorted(records(final(leaves)@)),
        records(final(leaves)@).to_multiset() == records(old(leaves)@).to_multiset(),
{
    leaves.sort();
}

/// Whether `tree` is the tree over the records `fields` taken in ascending
/// order.
pub open spec fn is_sorted_tree(tree: Option<MerkleNode>, fields: Seq<Seq<u8>>) -> bool {
    exists|sorted: Seq<Seq<u8>>|
        {
            &&& sorted.len() == fields.len()
            &&& #[trigger] lex_sorted(sorted)
            &&& sorted.to_multiset() == fields.to_multiset()
            &&& match tree {
                Some(t) => build_spec(sorted) == Some(t@),
                None => build_spec(sorted) is None,
            }
        }
}

/// Builds the Merkle tree over metadata field records. The records are put
/// in ascending order first, so that the tree does not depend on the order
/// in which the fields were read. No fields, no tree.
pub fn build_exif_merkle_tree(fields: Vec<Vec<u8>>) -> (tree: Option<MerkleNode>)
    ensures
        tree.is_some() == (fields@.len() > 0),
        is_sorted_tree(tree, records(fields@)),
{
    let mut leaves = fields;
    sort_records(&mut leaves);
    let tree = build_from_records(leaves.as_slice());
    assert(lex_sorted(records(leaves@)));
    tree
}

/// Every byte string is at most itself.
proof fn lemma_lex_reflexive(a: Seq<u8>)
    ensures
        lex_le(a, a),
    decreases a.len(),
{
    if a.len() > 0 {
        lemma_lex_reflexive(a.skip(1));
    }
}

/// Two byte strings that are each at most the other are the same.
proof fn lemma_lex_antisymmetric(a: Seq<u8>, b: Seq<u8>)
    requires
        lex_le(a, b),
        lex_le(b, a),
    ensures
        a == b,
    decreases a.len(),
{
    if a.len() == 0 {
        assert(a =~= b);
    } else {
        lemma_lex_antisymmetric(a.skip(1), b.skip(1));
        assert(a =~= seq![a[0]] + a.skip(1));
        assert(b =~= seq![b[0]] + b.skip(1));
    }
}

/// The order of byte strings is transitive.
proof fn lemma_lex_transitive(a: Seq<u8>, b: Seq<u8>, c: Seq<u8>)
    requires
        lex_le(a, b),
        lex_le(b, c),
    ensures
        lex_le(a, c),
    decreases a.len(),
{
    if a.len() > 0 && a[0] == b[0] && b[0] == c[0] {
        lemma_lex_transitive(a.skip(1), b.skip(1), c.skip(1));
    }
}

/// Of two byte strings, one is at most the other.
proof fn lemma_lex_connected(a: Seq<u8>, b: Seq<u8>)
    ensures
        lex_le(a, b) || lex_le(b, a),
    decreases a.len(),
{
    if a.len() > 0 && b.len() > 0 && a[0] == b[0] {
        lemma_lex_connected(a.skip(1), b.skip(1));
    }
}

/// The tree over metadata fields does not depend on the order in which the
/// fields were read: two field sequences that hold the same records, each
/// as often, have the same tree.
pub proof fn lemma_sorted_tree_unique(
    tree1: Option<MerkleNode>,
    fields1: Seq<Seq<u8>>,
    tree2: Option<MerkleNode>,
    fields2: Seq<Seq<u8>>,
)
    requires
        is_sorted_tree(tree1, fields1),
        is_sorted_tree(tree2, fields2),
        fields1.to_multiset() == fields2.to_multiset(),
    ensures
        match (tree1, tree2) {
            (Some(a), Some(b)) => a@ == b@,
            (None, None) => true,
            _ => false,
        },
{
    let s1 = choose|s: Seq<Seq<u8>>|
        {
            &&& s.len() == fields1.len()
            &&& #[trigger] lex_sorted(s)
            &&& s.to_multiset() == fields1.to_multiset()
            &&& match tree1 {
                Some(t) => build_spec(s) == Some(t@),
                None => build_spec(s) is None,
            }
        };
    let s2 = choose|s: Seq<Seq<u8>>|
        {
            &&& s.len() == fields2.len()
            &&& #[trigger] lex_sorted(s)
            &&& s.to_multiset() == fields2.to_multiset()
            &&& match tree2 {
                Some(t) => build_spec(s) == Some(t@),
                None => build_spec(s) is None,
            }
        };
    let leq = |a: Seq<u8>, b: Seq<u8>| lex_le(a, b);
    assert(reflexive(leq)) by {
        assert forall|x: Seq<u8>| #[trigger] leq(x, x) by {
            lemma_lex_reflexive(x);
        }
    }
    assert(antisymmetric(leq)) by {
        assert forall|x: Seq<u8>, y: Seq<u8>| #[trigger] leq(x, y) && #[trigger] leq(y, x) implies x
            == y by {
            lemma_lex_antisymmetric(x, y);
        }
    }
    assert(transitive(leq)) by {
        assert forall|x: Seq<u8>, y: Seq<u8>, z: Seq<u8>| #[trigger] leq(x, y) && #[trigger] leq(
            y,
            z,
        ) implies leq(x, z) by {
            lemma_lex_transitive(x, y, z);
        }
    }
    assert(strongly_connected(leq)) by {
        assert forall|x: Seq<u8>, y: Seq<u8>| #[trigger] leq(x, y) || #[trigger] leq(y, x) by {
            lemma_lex_connected(x, y);
        }
    }
    assert(sorted_by(s1, leq)) by {
        assert forall|i: int, j: int| 0 <= i < j < s1.len() implies #[trigger] leq(s1[i], s1[j]) by {
            assert(lex_le(s1[i], s1[j]));
        }
    }
    assert(sorted_by(s2, leq)) by {
        assert forall|i: int, j: int| 0 <= i < j < s2.len() implies #[trigger] leq(s2[i], s2[j]) by {
            assert(lex_le(s2[i], s2[j]));
        }
    }
    lemma_sorted_unique(s1, s2, leq);
}

} // verus!
