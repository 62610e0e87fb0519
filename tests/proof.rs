use sparse_merkle_tree::proof_ics23::{convert, get_spec, MerkleProof};
use sparse_merkle_tree::{Error, H256};

fn path_with_bits(bits: &[u8]) -> H256 {
    let mut p = H256::zero();
    for &b in bits {
        p.set_bit(b);
    }
    p
}

fn leaf_is_standard(p: &sparse_merkle_tree::proof_ics23::ExistenceProof) {
    let leaf = p.leaf.as_ref().unwrap();
    assert_eq!(leaf.hash, 1);
    assert_eq!(leaf.prehash_key, 0);
    assert_eq!(leaf.prehash_value, 0);
    assert_eq!(leaf.length, 0);
    assert_eq!(leaf.prefix, vec![0u8; 32]);
}

#[test]
fn single_leaf_gives_empty_path() {
    let key = path_with_bits(&[4, 77]);
    let value = path_with_bits(&[1]);
    let proof = MerkleProof::new(vec![vec![]], vec![]);
    let p = convert(proof, &key, &value).unwrap();
    assert!(p.path.is_empty());
    assert_eq!(p.key, key.as_slice().to_vec());
    assert_eq!(p.value, value.as_slice().to_vec());
    leaf_is_standard(&p);
}

#[test]
fn sibling_at_height_zero_left_child() {
    let key = path_with_bits(&[9]);
    let sibling = path_with_bits(&[0, 9, 30]);
    let proof = MerkleProof::new(vec![vec![0]], vec![(sibling, 0)]);
    let p = convert(proof, &key, &H256::zero()).unwrap();
    assert_eq!(p.path.len(), 1);
    assert_eq!(p.path[0].prefix, sibling.as_slice().to_vec());
    assert!(p.path[0].suffix.is_empty());
    assert_eq!(p.path[0].hash, 1);
}

#[test]
fn sibling_at_height_zero_right_child() {
    let key = path_with_bits(&[0, 9]);
    let sibling = path_with_bits(&[9, 30]);
    let proof = MerkleProof::new(vec![vec![0]], vec![(sibling, 0)]);
    let p = convert(proof, &key, &H256::zero()).unwrap();
    assert_eq!(p.path.len(), 1);
    assert!(p.path[0].prefix.is_empty());
    assert_eq!(p.path[0].suffix, sibling.as_slice().to_vec());
}

#[test]
fn merge_heights_skip_levels() {
    let key = path_with_bits(&[0, 5]);
    let value = path_with_bits(&[200]);
    let s1 = path_with_bits(&[1]);
    let s2 = path_with_bits(&[2]);
    let proof = MerkleProof::new(vec![vec![0, 5]], vec![(s1, 0), (s2, 5)]);
    let p = convert(proof, &key, &value).unwrap();
    assert_eq!(p.key, key.as_slice().to_vec());
    assert_eq!(p.value, value.as_slice().to_vec());
    assert_eq!(p.path.len(), 2);
    assert_eq!(p.path[0].suffix, s1.as_slice().to_vec());
    assert_eq!(p.path[1].suffix, s2.as_slice().to_vec());
    leaf_is_standard(&p);
}

#[test]
fn entry_height_jumps_ahead() {
    let key = path_with_bits(&[3]);
    let s1 = path_with_bits(&[7]);
    let proof = MerkleProof::new(vec![vec![]], vec![(s1, 3)]);
    let p = convert(proof, &key, &H256::zero()).unwrap();
    assert_eq!(p.path.len(), 1);
    assert_eq!(p.path[0].suffix, s1.as_slice().to_vec());
}

#[test]
fn overrun_is_corrupted_proof() {
    let key = path_with_bits(&[255]);
    let s1 = path_with_bits(&[1]);
    let s2 = path_with_bits(&[2]);
    let proof = MerkleProof::new(vec![vec![255]], vec![(s1, 255), (s2, 0)]);
    assert_eq!(convert(proof, &key, &H256::zero()).err(), Some(Error::CorruptedProof));
}

#[test]
fn proof_spec_constants() {
    let spec = get_spec();
    assert_eq!(spec.max_depth, 256);
    assert_eq!(spec.min_depth, 0);
    let inner = spec.inner_spec.unwrap();
    assert_eq!(inner.child_order, vec![0, 1]);
    assert_eq!(inner.child_size, 32);
    assert_eq!(inner.min_prefix_length, 0);
    assert_eq!(inner.max_prefix_length, 32);
    assert!(inner.empty_child.is_empty());
    assert_eq!(inner.hash, 1);
    let leaf = spec.leaf_spec.unwrap();
    assert_eq!(leaf.prefix, vec![0u8; 32]);
}
