use sparse_merkle_tree::H256;

fn path_with_bits(bits: &[u8]) -> H256 {
    let mut p = H256::zero();
    for &b in bits {
        p.set_bit(b);
    }
    p
}

#[test]
fn zero_is_zero() {
    assert!(H256::zero().is_zero());
    assert!(!path_with_bits(&[0]).is_zero());
    assert_eq!(H256::zero().as_slice(), &[0u8; 32][..]);
}

#[test]
fn bit_layout_is_big_endian() {
    let p = path_with_bits(&[0]);
    let bytes: [u8; 32] = p.into();
    assert_eq!(bytes[31], 1);
    let p = path_with_bits(&[255]);
    let bytes: [u8; 32] = p.into();
    assert_eq!(bytes[0], 0x80);
    let p = path_with_bits(&[9]);
    let bytes: [u8; 32] = p.into();
    assert_eq!(bytes[30], 2);
}

#[test]
fn set_then_get_and_clear_then_get() {
    let mut raw = [0u8; 32];
    for (k, b) in raw.iter_mut().enumerate() {
        *b = (k as u8).wrapping_mul(37).wrapping_add(11);
    }
    let base = H256::from(raw);
    for i in 0..=255u8 {
        let mut p = base;
        p.set_bit(i);
        assert!(p.get_bit(i));
        for j in 0..=255u8 {
            if j != i {
                assert_eq!(p.get_bit(j), base.get_bit(j));
            }
        }
        let mut q = base;
        q.clear_bit(i);
        assert!(!q.get_bit(i));
        for j in 0..=255u8 {
            if j != i {
                assert_eq!(q.get_bit(j), base.get_bit(j));
            }
        }
    }
}

#[test]
fn fork_height_of_equal_paths_is_zero() {
    let p = path_with_bits(&[3, 100, 200]);
    assert_eq!(p.fork_height(&p), 0);
    assert_eq!(H256::zero().fork_height(&H256::zero()), 0);
}

#[test]
fn fork_height_is_highest_differing_bit() {
    let a = path_with_bits(&[3, 100, 200]);
    let b = path_with_bits(&[3, 7, 100, 200]);
    assert_eq!(a.fork_height(&b), 7);
    let c = path_with_bits(&[255]);
    assert_eq!(a.fork_height(&c), 255);
    let d = path_with_bits(&[0]);
    assert_eq!(H256::zero().fork_height(&d), 0);
    let h = a.fork_height(&b);
    assert_ne!(a.get_bit(h), b.get_bit(h));
    for j in (h as u16 + 1)..256 {
        assert_eq!(a.get_bit(j as u8), b.get_bit(j as u8));
    }
}

#[test]
fn copy_full_range_is_identity() {
    let p = path_with_bits(&[0, 1, 8, 63, 64, 127, 200, 255]);
    assert_eq!(p.copy_bits(0, 256), p);
    assert_eq!(p.copy_bits(0, 300), p);
}

#[test]
fn copy_empty_range_is_zero() {
    let p = path_with_bits(&[0, 1, 8, 63, 64, 127, 200, 255]);
    for i in 0..=255u8 {
        assert!(p.copy_bits(i, i as u16).is_zero());
    }
}

#[test]
fn copy_bits_keeps_only_range() {
    let mut raw = [0xffu8; 32];
    raw[5] = 0x5a;
    let p = H256::from(raw);
    for &(s, e) in &[(0u8, 7u16), (3, 5), (9, 14), (5, 200), (8, 16), (13, 256), (100, 101)] {
        let r = p.copy_bits(s, e);
        for j in 0..256u16 {
            let expected = (s as u16) <= j && j < e && p.get_bit(j as u8);
            assert_eq!(r.get_bit(j as u8), expected);
        }
        assert_eq!(r.copy_bits(s, e), r);
    }
}

#[test]
fn copy_bits_exact_bytes() {
    let p = H256::from([0xffu8; 32]);
    let r: [u8; 32] = p.copy_bits(4, 12).into();
    let mut expected = [0u8; 32];
    expected[31] = 0xf0;
    expected[30] = 0x0f;
    assert_eq!(r, expected);
}

#[test]
fn parent_path_clears_low_bits() {
    let p = H256::from([0xffu8; 32]);
    let r: [u8; 32] = p.parent_path(7).into();
    let mut expected = [0xffu8; 32];
    expected[31] = 0;
    assert_eq!(r, expected);
    let q = path_with_bits(&[0, 5, 6, 200]);
    assert_eq!(q.parent_path(5), path_with_bits(&[6, 200]));
    assert_eq!(q.parent_path(0), path_with_bits(&[5, 6, 200]));
}

#[test]
fn parent_path_at_top_is_zero() {
    let p = H256::from([0xffu8; 32]);
    assert!(p.parent_path(255).is_zero());
    assert!(p.parent_path(254).get_bit(255));
}

#[test]
fn hash_from_path_keeps_bytes() {
    let p = path_with_bits(&[1, 2, 3]);
    let raw: [u8; 32] = p.into();
    assert_eq!(sparse_merkle_tree::h256::Hash::from(p), sparse_merkle_tree::h256::Hash::from(raw));
    assert_ne!(sparse_merkle_tree::h256::Hash::from(p), sparse_merkle_tree::h256::Hash::from(H256::zero()));
}
