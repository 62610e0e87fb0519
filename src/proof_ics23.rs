use vstd::prelude::*;
use crate::error::{Error, Result};
use crate::h256::{bit_at, zero_bytes, H256, TREE_HEIGHT};

verus! {

broadcast use crate::h256::H256::lemma_len;

/// Relies on ics23's `HashOp::Sha256`, whose protobuf code is 1.
#[verifier::external_body]
fn hash_op_sha256() -> (r: i32)
    ensures
        r == 1,
{
    ics23::HashOp::Sha256.into()
}

/// Relies on ics23's `HashOp::NoHash`, whose protobuf code is 0.
#[verifier::external_body]
fn hash_op_no_hash() -> (r: i32)
    ensures
        r == 0,
{
    ics23::HashOp::NoHash.into()
}

/// Relies on ics23's `LengthOp::NoPrefix`, whose protobuf code is 0.
#[verifier::external_body]
fn length_op_no_prefix() -> (r: i32)
    ensures
        r == 0,
{
    ics23::LengthOp::NoPrefix.into()
}

/// A compacted proof for one leaf, as the tree produces it: the merge
/// heights of each proven leaf, and the sibling entries with their heights.
pub struct MerkleProof {
    pub leaves_path: Vec<Vec<u8>>,
    pub proof: Vec<(H256, u8)>,
}

impl MerkleProof {
    pub fn new(leaves_path: Vec<Vec<u8>>, proof: Vec<(H256, u8)>) -> (r: MerkleProof)
        ensures
            r.leaves_path == leaves_path,
            r.proof == proof,
    {
        MerkleProof { leaves_path, proof }
    }

    pub fn take(self) -> (r: (Vec<Vec<u8>>, Vec<(H256, u8)>))
        ensures
            r.0 == self.leaves_path,
            r.1 == self.proof,
    {
        (self.leaves_path, self.proof)
    }
}

/// How a leaf is hashed in the standardized proof format.
pub struct LeafOp {
    pub hash: i32,
    pub prehash_key: i32,
    pub prehash_value: i32,
    pub length: i32,
    pub prefix: Vec<u8>,
}

/// One level of a standardized proof: the sibling digest stands in `prefix`
/// or in `suffix`, the other one is empty.
pub struct InnerOp {
    pub hash: i32,
    pub prefix: Vec<u8>,
    pub suffix: Vec<u8>,
}

/// A standardized existence proof of `key` holding `value`.
pub struct ExistenceProof {
    pub key: Vec<u8>,
    pub value: Vec<u8>,
    pub leaf: Option<LeafOp>,
    pub path: Vec<InnerOp>,
}

/// How inner nodes are hashed in the standardized proof format.
pub struct InnerSpec {
    pub child_order: Vec<i32>,
    pub child_size: i32,
    pub min_prefix_length: i32,
    pub max_prefix_length: i32,
    pub empty_child: Vec<u8>,
    pub hash: i32,
}

/// The fixed shape of every proof of this tree.
pub struct ProofSpec {
    pub leaf_spec: Option<LeafOp>,
    pub inner_spec: Option<InnerSpec>,
    pub max_depth: i32,
    pub min_depth: i32,
}

/// One level of the walk: whether the sibling goes in the prefix, and its
/// bytes.
pub type LevelModel = (bool, Seq<u8>);

/// The leaf operation of this tree: no prehashing, no length prefix, a
/// prefix of thirty-two zero bytes.
pub open spec fn is_tree_leaf_op(l: LeafOp) -> bool {
    &&& l.hash == 1
    &&& l.prehash_key == 0
    &&& l.prehash_value == 0
    &&& l.length == 0
    &&& l.prefix@ == zero_bytes()
}

/// The inner nodes of this tree: two children, left first, of 32 bytes each,
/// with a prefix of at most 32 bytes.
pub open spec fn is_tree_inner_spec(i: InnerSpec) -> bool {
    &&& i.child_order@ == seq![0i32, 1i32]
    &&& i.child_size == 32
    &&& i.min_prefix_length == 0
    &&& i.max_prefix_length == 32
    &&& i.empty_child@.len() == 0
    &&& i.hash == 1
}

/// `op` places `level`'s sibling in its prefix or suffix, the other empty.
pub open spec fn inner_op_is(op: InnerOp, level: LevelModel) -> bool {
    &&& op.hash == 1
    &&& if level.0 {
        op.prefix@ == level.1 && op.suffix@.len() == 0
    } else {
        op.prefix@.len() == 0 && op.suffix@ == level.1
    }
}

/// `p` proves `key` holding `value` through `levels`, from the leaf up.
pub open spec fn existence_proof_is(p: ExistenceProof, key: Seq<u8>, value: Seq<u8>, levels: Seq<LevelModel>) -> bool {
    &&& p.key@ == key
    &&& p.value@ == value
    &&& p.leaf matches Some(l) && is_tree_leaf_op(l)
    &&& p.path@.len() == levels.len()
    &&& forall|k: int| 0 <= k < levels.len() ==> #[trigger] inner_op_is(p.path@[k], levels[k])
}

/// The measure of the walk: each entry takes at most two steps.
pub open spec fn walk_measure(merge: Seq<u8>, entries: Seq<(H256, u8)>, mi: int, ei: int, height: int) -> int {
    2 * (entries.len() - ei) + if 0 <= mi < merge.len() && merge[mi] as int != height {
        1int
    } else {
        0int
    }
}

/// The height-driven walk that expands a compacted proof into one level per
/// sibling entry. `merge` are the merge heights still to meet from index
/// `mi`, `entries` the sibling entries from index `ei`; `height` is the
/// current height, and the current key is `key` with every bit at or below
/// `floor` cleared. `None` when the walk passes the top of the tree with
/// entries left.
pub open spec fn walk(
    merge: Seq<u8>,
    entries: Seq<(H256, u8)>,
    key: Seq<u8>,
    mi: int,
    ei: int,
    height: int,
    floor: int,
) -> Option<Seq<LevelModel>>
    decreases walk_measure(merge, entries, mi, ei, height),
{
    if ei < 0 || ei >= entries.len() {
        Some(Seq::empty())
    } else if height >= 256 {
        None
    } else {
        let mh = if 0 <= mi < merge.len() { merge[mi] as int } else { height };
        if height != mh {
            walk(merge, entries, key, mi, ei, mh, floor)
        } else {
            let sibling = entries[ei].0;
            let sh = entries[ei].1 as int;
            let h = if height < sh { sh } else { height };
            let is_right = h > floor && bit_at(key, h);
            let next_mi = if mi < merge.len() { mi + 1 } else { mi };
            match walk(merge, entries, key, next_mi, ei + 1, h + 1, if floor < h { h } else { floor }) {
                Some(rest) => Some(seq![(!is_right, sibling@)] + rest),
                None => None,
            }
        }
    }
}

/// A walk that reaches the top of the tree with entries left fails.
pub proof fn lemma_walk_overrun(
    merge: Seq<u8>,
    entries: Seq<(H256, u8)>,
    key: Seq<u8>,
    mi: int,
    ei: int,
    floor: int,
)
    requires
        0 <= ei < entries.len(),
    ensures
        walk(merge, entries, key, mi, ei, 256, floor) is None,
{
}

/// A walk that succeeds gives one level for each entry left.
pub proof fn lemma_walk_len(
    merge: Seq<u8>,
    entries: Seq<(H256, u8)>,
    key: Seq<u8>,
    mi: int,
    ei: int,
    height: int,
    floor: int,
)
    requires
        0 <= ei <= entries.len(),
    ensures
        walk(merge, entries, key, mi, ei, height, floor) matches Some(ops) ==> ops.len() == entries.len() - ei,
    decreases walk_measure(merge, entries, mi, ei, height),
{
    if ei < entries.len() && height < 256 {
        let mh = if 0 <= mi < merge.len() { merge[mi] as int } else { height };
        if height != mh {
            lemma_walk_len(merge, entries, key, mi, ei, mh, floor);
        } else {
            let sh = entries[ei].1 as int;
            let h = if height < sh { sh } else { height };
            let next_mi = if mi < merge.len() { mi + 1 } else { mi };
            lemma_walk_len(merge, entries, key, next_mi, ei + 1, h + 1, if floor < h { h } else { floor });
        }
    }
}

fn get_leaf_op() -> (r: LeafOp)
    ensures
        is_tree_leaf_op(r),
{
    LeafOp {
        hash: hash_op_sha256(),
        prehash_key: hash_op_no_hash(),
        prehash_value: hash_op_no_hash(),
        length: length_op_no_prefix(),
        prefix: vstd::slice::slice_to_vec(H256::zero().as_slice()),
    }
}

/// The inner operation for `sibling`: a node that is the right child has its
/// sibling on the left, in the suffix; a left child has it in the prefix.
fn get_inner_op(sibling: &H256, is_right_node: bool) -> (r: InnerOp)
    ensures
        inner_op_is(r, (!is_right_node, sibling@)),
{
    let node = vstd::slice::slice_to_vec(sibling.as_slice());
    let (prefix, suffix) = if is_right_node {
        (Vec::new(), node)
    } else {
        (node, Vec::new())
    };
    InnerOp { hash: hash_op_sha256(), prefix, suffix }
}

fn get_inner_spec() -> (r: InnerSpec)
    ensures
        is_tree_inner_spec(r),
{
    InnerSpec {
        child_order: vec![0, 1],
        child_size: 32,
        min_prefix_length: 0,
        max_prefix_length: 32,
        empty_child: Vec::new(),
        hash: hash_op_sha256(),
    }
}

/// The proof shape of this tree, for verifiers of standardized proofs.
pub fn get_spec() -> (r: ProofSpec)
    ensures
        r.leaf_spec matches Some(l) && is_tree_leaf_op(l),
        r.inner_spec matches Some(i) && is_tree_inner_spec(i),
        r.max_depth == 256,
        r.min_depth == 0,
{
    ProofSpec {
        leaf_spec: Some(get_leaf_op()),
        inner_spec: Some(get_inner_spec()),
        max_depth: TREE_HEIGHT as i32,
        min_depth: 0,
    }
}

/// Expands the compacted proof of `key` holding `value` into a standardized
/// existence proof, one inner operation per sibling entry, from the leaf up.
pub fn convert(merkle_proof: MerkleProof, key: &H256, value: &H256) -> (r: Result<ExistenceProof>)
    requires
        merkle_proof.leaves_path.len() > 0,
    ensures
        match walk(merkle_proof.leaves_path[0]@, merkle_proof.proof@, key@, 0, 0, 0, -1) {
            Some(levels) => r matches Ok(p) && existence_proof_is(p, key@, value@, levels)
                && p.path@.len() == merkle_proof.proof@.len(),
            None => r == Err::<ExistenceProof, Error>(Error::CorruptedProof),
        },
{
    let ghost entries = merkle_proof.proof@;
    let ghost total = walk(merkle_proof.leaves_path[0]@, entries, key@, 0, 0, 0, -1);
    proof {
        lemma_walk_len(merkle_proof.leaves_path[0]@, entries, key@, 0, 0, 0, -1);
    }
    let (leaves_path, proof) = merkle_proof.take();
    let merge_heights = &leaves_path[0];
    let mut mi: usize = 0;
    let mut ei: usize = 0;
    let mut height: usize = 0;
    let mut cur_key = *key;
    let ghost mut floor: int = -1;
    let ghost mut done: Seq<LevelModel> = Seq::empty();
    let mut path: Vec<InnerOp> = Vec::new();
    while ei < proof.len()
        invariant
            proof@ == entries,
            total == walk(merge_heights@, entries, key@, 0, 0, 0, -1),
            total == walk(merkle_proof.leaves_path[0]@, entries, key@, 0, 0, 0, -1),
            entries == merkle_proof.proof@,
            height <= 256,
            mi <= merge_heights.len(),
            ei <= proof.len(),
            floor < 256,
            forall|j: int| 0 <= j < 256 ==> #[trigger] bit_at(cur_key@, j) == (j > floor && bit_at(key@, j)),
            done.len() == path@.len(),
            forall|k: int| 0 <= k < done.len() ==> #[trigger] inner_op_is(path@[k], done[k]),
            total == match walk(merge_heights@, entries, key@, mi as int, ei as int, height as int, floor) {
                Some(rest) => Some(done + rest),
                None => None,
            },
        decreases walk_measure(merge_heights@, entries, mi as int, ei as int, height as int),
    {
        if height == TREE_HEIGHT {
            assert(walk(merge_heights@, entries, key@, mi as int, ei as int, height as int, floor) is None);
            return Err(Error::CorruptedProof);
        }
        let merge_height: usize = if mi < merge_heights.len() {
            merge_heights[mi] as usize
        } else {
            height
        };
        if height != merge_height {
            height = merge_height;
            continue;
        }
        let (sibling, sibling_height) = proof[ei];
        ei += 1;
        if height < sibling_height as usize {
            height = sibling_height as usize;
        }
        let is_right = cur_key.get_bit(height as u8);
        let op = get_inner_op(&sibling, is_right);
        path.push(op);
        if mi < merge_heights.len() {
            mi += 1;
        }
        cur_key = cur_key.parent_path(height as u8);
        proof {
            let level = (!is_right, sibling@);
            let rest = walk(merge_heights@, entries, key@, mi as int, ei as int, height + 1, if floor < height { height as int } else { floor });
            if let Some(rest) = rest {
                assert(done.push(level) + rest =~= done + (seq![level] + rest));
            }
            done = done.push(level);
            if floor < height {
                floor = height as int;
            }
        }
        height += 1;
    }
    proof {
        assert(done + Seq::<LevelModel>::empty() =~= done);
    }
    Ok(ExistenceProof {
        key: vstd::slice::slice_to_vec(key.as_slice()),
        value: vstd::slice::slice_to_vec(value.as_slice()),
        leaf: Some(get_leaf_op()),
        path,
    })
}

} // verus!
