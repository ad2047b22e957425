//! A binary Merkle tree over an ordered sequence of byte records.
use crate::digest::{
    append_bytes, bytes_equal, collision, digest_of, has_collision, hash_bytes, records,
};
use vstd::prelude::*;

verus! {

/// One node of the tree. A leaf has no children; an internal node owns two.
#[derive(Debug, PartialEq, Eq)]
pub struct MerkleNode {
    pub hash: Vec<u8>,
    pub left: Option<Box<MerkleNode>>,
    pub right: Option<Box<MerkleNode>>,
}

/// The mathematical value of a tree: digests and shape.
pub ghost struct TreeShape {
    pub digest: Seq<u8>,
    pub left: Option<Box<TreeShape>>,
    pub right: Option<Box<TreeShape>>,
}

impl TreeShape {
    /// A leaf has no child and an internal node has two, whose digests,
    /// left then right, hash to its own.
    pub open spec fn wf(self) -> bool
        decreases self,
    {
        match (self.left, self.right) {
            (None, None) => true,
            (Some(l), Some(r)) => l.wf() && r.wf() && self.digest == digest_of(
                l.digest + r.digest,
            ),
            _ => false,
        }
    }
}

/// The leaf that stands for the record `data`.
pub open spec fn leaf_shape(data: Seq<u8>) -> TreeShape {
    TreeShape { digest: digest_of(data), left: None, right: None }
}

/// The internal node over `l` and `r`.
pub open spec fn join_shape(l: TreeShape, r: TreeShape) -> TreeShape {
    TreeShape {
        digest: digest_of(l.digest + r.digest),
        left: Some(Box::new(l)),
        right: Some(Box::new(r)),
    }
}

/// The partner of the node at `2 * i` in `level`: its right neighbour, or
/// itself where it is the odd one out at the end.
pub open spec fn partner(level: Seq<TreeShape>, i: int) -> TreeShape {
    if 2 * i + 1 < level.len() {
        level[2 * i + 1]
    } else {
        level[2 * i]
    }
}

/// One level up: adjacent nodes joined left to right.
pub open spec fn pair_up(level: Seq<TreeShape>) -> Seq<TreeShape> {
    Seq::new(((level.len() + 1) / 2) as nat, |i: int| join_shape(level[2 * i], partner(level, i)))
}

/// The root that repeated pairing reduces a non-empty level to.
pub open spec fn reduce(level: Seq<TreeShape>) -> TreeShape
    decreases level.len(),
{
    if level.len() <= 1 {
        level[0]
    } else {
        reduce(pair_up(level))
    }
}

/// The level of leaves of an ordered record sequence.
pub open spec fn leaf_level(leaves: Seq<Seq<u8>>) -> Seq<TreeShape> {
    Seq::new(leaves.len(), |i: int| leaf_shape(leaves[i]))
}

/// The tree over `leaves`, or none where there are no leaves.
pub open spec fn build_spec(leaves: Seq<Seq<u8>>) -> Option<TreeShape> {
    if leaves.len() == 0 {
        None
    } else {
        Some(reduce(leaf_level(leaves)))
    }
}

/// Whether `leaves` rebuild to a tree whose root digest is `root_digest`.
pub open spec fn verify_spec(root_digest: Seq<u8>, leaves: Seq<Seq<u8>>) -> bool {
    match build_spec(leaves) {
        Some(t) => t.digest == root_digest,
        None => false,
    }
}

/// The values of a sequence of nodes.
pub open spec fn shapes(nodes: Seq<MerkleNode>) -> Seq<TreeShape> {
    Seq::new(nodes.len(), |i: int| nodes[i]@)
}

impl View for MerkleNode {
    type V = TreeShape;

    open spec fn view(&self) -> TreeShape {
        self.shape()
    }
}

impl MerkleNode {
    /// The value of this tree: its digests and shape.
    pub open spec fn shape(&self) -> TreeShape
        decreases self,
    {
        TreeShape {
            digest: self.hash@,
            left: match self.left {
                Some(l) => Some(Box::new(l.shape())),
                None => None,
            },
            right: match self.right {
                Some(r) => Some(Box::new(r.shape())),
                None => None,
            },
        }
    }

    /// A leaf over `data`.
    pub fn new(data: &[u8]) -> (node: MerkleNode)
        ensures
            node@ == leaf_shape(data@),
    {
        MerkleNode { hash: hash_bytes(data), left: None, right: None }
    }

    /// The internal node over two subtrees: its digest is the hash of the
    /// left digest followed by the right one.
    pub fn from_children(left: MerkleNode, right: MerkleNode) -> (node: MerkleNode)
        ensures
            node@ == join_shape(left@, right@),
    {
        let mut buf: Vec<u8> = Vec::new();
        append_bytes(&mut buf, left.hash.as_slice());
        append_bytes(&mut buf, right.hash.as_slice());
        assert(buf@ =~= left.hash@ + right.hash@);
        let hash = hash_bytes(buf.as_slice());
        MerkleNode { hash, left: Some(Box::new(left)), right: Some(Box::new(right)) }
    }

    /// A deep copy: same digests, same shape.
    pub fn duplicate(&self) -> (copy: MerkleNode)
        ensures
            copy@ == self@,
        decreases self,
    {
        let mut hash: Vec<u8> = Vec::new();
        append_bytes(&mut hash, self.hash.as_slice());
        assert(hash@ =~= self.hash@);
        let left = match &self.left {
            Some(l) => Some(Box::new(l.duplicate())),
            None => None,
        };
        let right = match &self.right {
            Some(r) => Some(Box::new(r.duplicate())),
            None => None,
        };
        MerkleNode { hash, left, right }
    }

    /// Whether every node is a leaf or has two children whose digests hash
    /// to its own: what holds of every tree that was built here, and may
    /// fail of one that was read from elsewhere.
    pub fn is_well_formed(&self) -> (ok: bool)
        ensures
            ok == self@.wf(),
        decreases self,
    {
        match (&self.left, &self.right) {
            (None, None) => true,
            (Some(l), Some(r)) => {
                if !l.is_well_formed() || !r.is_well_formed() {
                    return false;
                }
                let mut buf: Vec<u8> = Vec::new();
                append_bytes(&mut buf, l.hash.as_slice());
                append_bytes(&mut buf, r.hash.as_slice());
                assert(buf@ =~= l.hash@ + r.hash@);
                let expected = hash_bytes(buf.as_slice());
                bytes_equal(expected.as_slice(), self.hash.as_slice())
            },
            _ => false,
        }
    }

    /// Rebuilds a tree from `data` and compares its root digest with this
    /// node's. False where `data` is empty.
    pub fn verify(&self, data: &[Vec<u8>]) -> (ok: bool)
        ensures
            ok == verify_spec(self@.digest, records(data@)),
    {
        match build_from_records(data) {
            Some(tree) => bytes_equal(self.hash.as_slice(), tree.hash.as_slice()),
            None => false,
        }
    }
}

/// Builds the next level up from `nodes`: adjacent nodes are joined left to
/// right, and an odd node at the end is joined with a copy of itself.
pub fn pair_level(nodes: &[MerkleNode]) -> (next: Vec<MerkleNode>)
    ensures
        shapes(next@) == pair_up(shapes(nodes@)),
{
    let mut next: Vec<MerkleNode> = Vec::new();
    let n = nodes.len();
    let half = n / 2 + n % 2;
    let mut k: usize = 0;
    while k < half
        invariant
            n == nodes@.len(),
            half == (n + 1) / 2,
            k <= half,
            next@.len() == k,
            forall|j: int|
                0 <= j < k ==> (#[trigger] next@[j])@ == pair_up(shapes(nodes@))[j],
        decreases half - k,
    {
        let i = 2 * k;
        let left = nodes[i].duplicate();
        let right = if n - i >= 2 {
            nodes[i + 1].duplicate()
        } else {
            nodes[i].duplicate()
        };
        assert(right@ == partner(shapes(nodes@), k as int));
        next.push(MerkleNode::from_children(left, right));
        k += 1;
    }
    assert(shapes(next@) =~= pair_up(shapes(nodes@)));
    next
}

/// Builds the tree over `leaves`, taken in the order given.
pub fn build_from_records(leaves: &[Vec<u8>]) -> (tree: Option<MerkleNode>)
    ensures
        tree.is_some() == (leaves@.len() > 0),
        tree matches Some(t) ==> Some(t@) == build_spec(records(leaves@)) && t@.wf(),
{
    if leaves.len() == 0 {
        return None;
    }
    let mut nodes: Vec<MerkleNode> = Vec::new();
    let mut i: usize = 0;
    while i < leaves.len()
        invariant
            i <= leaves@.len(),
            nodes@.len() == i,
            forall|k: int| 0 <= k < i ==> (#[trigger] nodes@[k])@ == leaf_shape(leaves@[k]@),
        decreases leaves@.len() - i,
    {
        nodes.push(MerkleNode::new(leaves[i].as_slice()));
        i += 1;
    }
    assert(shapes(nodes@) =~= leaf_level(records(leaves@)));
    while nodes.len() > 1
        invariant
            nodes@.len() >= 1,
            reduce(shapes(nodes@)) == reduce(leaf_level(records(leaves@))),
            forall|k: int| 0 <= k < nodes@.len() ==> (#[trigger] nodes@[k])@.wf(),
        decreases nodes@.len(),
    {
        let next = pair_level(nodes.as_slice());
        assert(shapes(next@).len() == (nodes@.len() + 1) / 2);
        assert forall|k: int| 0 <= k < next@.len() implies (#[trigger] next@[k])@.wf() by {
            let level = shapes(nodes@);
            assert(next@[k]@ == shapes(next@)[k]);
            assert(next@[k]@ == join_shape(level[2 * k], partner(level, k)));
            assert(level[2 * k] == nodes@[2 * k]@);
            if 2 * k + 1 < nodes@.len() {
                assert(level[2 * k + 1] == nodes@[2 * k + 1]@);
            }
            assert(level[2 * k].wf() && partner(level, k).wf());
        }
        nodes = next;
    }
    let ghost last_level = nodes@;
    let root = nodes.pop().unwrap();
    assert(root@ == shapes(last_level)[0]);
    Some(root)
}

/// Builds the tree over `leaves`, taken in the order given: every record
/// becomes a leaf, adjacent nodes are joined level by level, and an odd node
/// at the end of a level is joined with itself. No leaves, no tree.
pub fn build_merkle_tree(leaves: Vec<Vec<u8>>) -> (tree: Option<MerkleNode>)
    ensures
        tree.is_some() == (leaves@.len() > 0),
        tree matches Some(t) ==> Some(t@) == build_spec(records(leaves@)) && t@.wf(),
{
    build_from_records(leaves.as_slice())
}

/// Verification against a root that may be absent. An absent root stands
/// for the empty record set and for nothing else.
pub fn verify_optional(root: Option<&MerkleNode>, data: &[Vec<u8>]) -> (ok: bool)
    ensures
        ok == match root {
            Some(r) => verify_spec(r@.digest, records(data@)),
            None => data@.len() == 0,
        },
{
    match root {
        Some(r) => r.verify(data),
        None => data.len() == 0,
    }
}

/// Whether every digest in `level` has the length of a digest.
pub open spec fn digests_sized(level: Seq<TreeShape>) -> bool {
    forall|i: int| 0 <= i < level.len() ==> (#[trigger] level[i]).digest.len() == 32
}

/// A tree accepts the records it was built from: verifying the tree over a
/// non-empty record sequence against that same sequence succeeds.
pub proof fn lemma_verify_accepts_source(leaves: Seq<Seq<u8>>)
    requires
        leaves.len() > 0,
    ensures
        build_spec(leaves) matches Some(t) && verify_spec(t.digest, leaves),
{
}

/// No leaves, no tree; and no root digest is accepted for the empty sequence.
pub proof fn lemma_empty_has_no_tree(root_digest: Seq<u8>)
    ensures
        build_spec(Seq::<Seq<u8>>::empty()) is None,
        !verify_spec(root_digest, Seq::<Seq<u8>>::empty()),
{
}

/// Three leaves reduce in two steps: the first two are paired, the third is
/// paired with itself, and the two results are joined.
pub proof fn lemma_three_leaves(a: Seq<u8>, b: Seq<u8>, c: Seq<u8>)
    ensures
        build_spec(seq![a, b, c]) == Some(
            join_shape(
                join_shape(leaf_shape(a), leaf_shape(b)),
                join_shape(leaf_shape(c), leaf_shape(c)),
            ),
        ),
{
    let l0 = leaf_level(seq![a, b, c]);
    let l1 = pair_up(l0);
    let l2 = pair_up(l1);
    assert(l0 =~= seq![leaf_shape(a), leaf_shape(b), leaf_shape(c)]);
    assert(l1 =~= seq![
        join_shape(leaf_shape(a), leaf_shape(b)),
        join_shape(leaf_shape(c), leaf_shape(c)),
    ]);
    assert(l2 =~= seq![join_shape(l1[0], l1[1])]);
    reveal_with_fuel(reduce, 3);
    assert(reduce(l0) == reduce(l1));
    assert(reduce(l1) == reduce(l2));
    assert(reduce(l2) == l2[0]);
}

/// Where two levels of equal length reduce to one root digest and the digest
/// function has no collision, the levels agree digest by digest.
proof fn lemma_reduce_binds(l1: Seq<TreeShape>, l2: Seq<TreeShape>)
    requires
        l1.len() == l2.len(),
        l1.len() > 0,
        digests_sized(l1),
        digests_sized(l2),
        reduce(l1).digest == reduce(l2).digest,
        !has_collision(),
    ensures
        forall|i: int| 0 <= i < l1.len() ==> (#[trigger] l1[i]).digest == l2[i].digest,
    decreases l1.len(),
{
    if l1.len() > 1 {
        let p1 = pair_up(l1);
        let p2 = pair_up(l2);
        assert(digests_sized(p1));
        assert(digests_sized(p2));
        lemma_reduce_binds(p1, p2);
        assert forall|i: int| 0 <= i < l1.len() implies (#[trigger] l1[i]).digest
            == l2[i].digest by {
            let k = i / 2;
            let x = l1[2 * k].digest + partner(l1, k).digest;
            let y = l2[2 * k].digest + partner(l2, k).digest;
            assert(p1[k].digest == p2[k].digest);
            assert(p1[k].digest == digest_of(x));
            assert(p2[k].digest == digest_of(y));
            assert(!collision(x, y));
            assert(x == y);
            assert(l1[2 * k].digest.len() == 32);
            assert(l2[2 * k].digest.len() == 32);
            assert(x.subrange(0, 32) =~= l1[2 * k].digest);
            assert(y.subrange(0, 32) =~= l2[2 * k].digest);
            assert(x.subrange(32, x.len() as int) =~= partner(l1, k).digest);
            assert(y.subrange(32, y.len() as int) =~= partner(l2, k).digest);
        }
    }
}

/// The root digest binds the records: two record sequences of one length
/// whose trees have the same root digest are the same sequence, unless the
/// digest function has a collision.
pub proof fn lemma_root_binds_leaves(a: Seq<Seq<u8>>, b: Seq<Seq<u8>>)
    requires
        a.len() == b.len(),
        a.len() > 0,
        verify_spec(build_spec(a).unwrap().digest, b),
    ensures
        a == b || has_collision(),
{
    if !has_collision() {
        let l1 = leaf_level(a);
        let l2 = leaf_level(b);
        lemma_reduce_binds(l1, l2);
        assert forall|i: int| 0 <= i < a.len() implies a[i] == b[i] by {
            assert(l1[i].digest == l2[i].digest);
            assert(!collision(a[i], b[i]));
        }
        assert(a =~= b);
    }
}

} // verus!
