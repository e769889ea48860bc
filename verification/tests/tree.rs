use rust_bao::{
    build_tree_single_pass, chunk_cv, is_root_level, parent_cv, read_cv, reduce_level,
    reduce_to_root, write_cv,
};

fn leaf(seed: u8) -> [u8; 32] {
    let mut cv = [0u8; 32];
    for (i, b) in cv.iter_mut().enumerate() {
        *b = seed.wrapping_mul(31).wrapping_add(i as u8);
    }
    cv
}

fn join(left: &[u8; 32], right: &[u8; 32], is_root: bool) -> [u8; 32] {
    let mut input = Vec::new();
    input.extend_from_slice(left);
    input.extend_from_slice(right);
    let mut output = vec![0u8; 32];
    parent_cv(&input, &mut output, is_root);
    read_cv(&output, 0)
}

fn stage(leaves: &[[u8; 32]]) -> Vec<u8> {
    let mut input = Vec::new();
    for cv in leaves {
        input.extend_from_slice(cv);
    }
    input
}

fn build(leaves: &[[u8; 32]]) -> [u8; 32] {
    let input = stage(leaves);
    let mut output = vec![0u8; 32];
    assert_eq!(build_tree_single_pass(&input, &mut output, leaves.len()), 32);
    read_cv(&output, 0)
}

#[test]
fn no_leaves_write_nothing() {
    let input = vec![1u8; 64];
    let mut output = vec![0xabu8; 48];
    assert_eq!(build_tree_single_pass(&input, &mut output, 0), 0);
    assert_eq!(output, vec![0xabu8; 48]);
    let mut nothing: Vec<u8> = Vec::new();
    assert_eq!(build_tree_single_pass(&[], &mut nothing, 0), 0);
}

#[test]
fn one_leaf_is_copied_through() {
    let only = leaf(3);
    let mut input = stage(&[only]);
    input.extend_from_slice(&[0x55u8; 32]);
    let mut output = vec![0xabu8; 48];
    assert_eq!(build_tree_single_pass(&input, &mut output, 1), 32);
    assert_eq!(&output[..32], &only);
    assert_eq!(&output[32..], &[0xabu8; 16]);
}

#[test]
fn two_leaves_are_one_root_combination() {
    let a = leaf(1);
    let b = leaf(2);
    let root = build(&[a, b]);
    assert_eq!(root, join(&a, &b, true));
    assert_ne!(root, join(&a, &b, false));
    assert_ne!(root, join(&b, &a, true));
}

#[test]
fn three_leaves_carry_the_last_one() {
    let a = leaf(1);
    let b = leaf(2);
    let c = leaf(3);
    let inner = join(&a, &b, false);
    let root = build(&[a, b, c]);
    assert_eq!(root, join(&inner, &c, true));
    assert_ne!(root, join(&join(&a, &b, true), &c, true));
    assert_ne!(root, join(&a, &join(&b, &c, false), true));
}

#[test]
fn four_leaves_are_a_balanced_tree() {
    let l: Vec<[u8; 32]> = (0..4).map(leaf).collect();
    let left = join(&l[0], &l[1], false);
    let right = join(&l[2], &l[3], false);
    assert_eq!(build(&l), join(&left, &right, true));
}

#[test]
fn five_leaves_carry_through_two_levels() {
    let l: Vec<[u8; 32]> = (0..5).map(leaf).collect();
    let p01 = join(&l[0], &l[1], false);
    let p23 = join(&l[2], &l[3], false);
    let p0123 = join(&p01, &p23, false);
    assert_eq!(build(&l), join(&p0123, &l[4], true));
}

#[test]
fn seven_leaves_pair_the_carry_on_the_second_level() {
    let l: Vec<[u8; 32]> = (0..7).map(leaf).collect();
    let p01 = join(&l[0], &l[1], false);
    let p23 = join(&l[2], &l[3], false);
    let p45 = join(&l[4], &l[5], false);
    let left = join(&p01, &p23, false);
    let right = join(&p45, &l[6], false);
    assert_eq!(build(&l), join(&left, &right, true));
}

#[test]
fn leaf_order_matters() {
    let a = leaf(1);
    let b = leaf(2);
    let c = leaf(3);
    let d = leaf(4);
    assert_ne!(build(&[a, b, c, d]), build(&[b, a, c, d]));
    assert_ne!(build(&[a, b, c, d]), build(&[c, d, a, b]));
}

#[test]
fn tree_ignores_bytes_past_the_leaves() {
    let a = leaf(1);
    let b = leaf(2);
    let mut input = stage(&[a, b]);
    input.extend_from_slice(&[0x77u8; 96]);
    let mut output = vec![0u8; 64];
    assert_eq!(build_tree_single_pass(&input, &mut output, 2), 32);
    assert_eq!(&output[..32], &join(&a, &b, true));
    assert_eq!(&output[32..], &[0u8; 32]);
}

#[test]
fn tree_over_chunks_is_the_blake3_hash() {
    for chunks in 2..=8usize {
        let data: Vec<u8> = (0..chunks * 1024).map(|i| (i % 251) as u8).collect();
        let mut leaves = Vec::new();
        for i in 0..chunks {
            let mut out = vec![0u8; 32];
            chunk_cv(&data[i * 1024..], &mut out, 1024, i as u64, false);
            leaves.push(read_cv(&out, 0));
        }
        assert_eq!(&build(&leaves), blake3::hash(&data).as_bytes(), "{} chunks", chunks);
    }
}

#[test]
fn a_full_region_of_leaves_reduces() {
    let leaves: Vec<[u8; 32]> = (0..32768u32).map(|i| leaf((i % 256) as u8)).collect();
    let input = stage(&leaves);
    assert_eq!(input.len(), rust_bao::INPUT_SIZE);
    let mut output = vec![0u8; 32];
    assert_eq!(build_tree_single_pass(&input, &mut output, 32768), 32);
    assert_eq!(read_cv(&output, 0), reduce_to_root(leaves));
}

#[test]
fn only_a_level_of_two_is_the_root_level() {
    assert!(!is_root_level(0));
    assert!(!is_root_level(1));
    assert!(is_root_level(2));
    assert!(!is_root_level(3));
    assert!(!is_root_level(4));
    assert!(!is_root_level(usize::MAX));
}

#[test]
fn reduce_level_pairs_left_to_right() {
    let l: Vec<[u8; 32]> = (0..5).map(leaf).collect();
    let next = reduce_level(&l);
    assert_eq!(next.len(), 3);
    assert_eq!(next[0], join(&l[0], &l[1], false));
    assert_eq!(next[1], join(&l[2], &l[3], false));
    assert_eq!(next[2], l[4]);

    let two = vec![leaf(8), leaf(9)];
    assert_eq!(reduce_level(&two), vec![join(&two[0], &two[1], true)]);

    let one = vec![leaf(8)];
    assert_eq!(reduce_level(&one), one);
    assert_eq!(reduce_level(&Vec::new()), Vec::<[u8; 32]>::new());
}

#[test]
fn reduce_to_root_matches_the_region_operation() {
    for n in 1..=9u8 {
        let l: Vec<[u8; 32]> = (0..n).map(leaf).collect();
        assert_eq!(reduce_to_root(l.clone()), build(&l));
    }
    assert_eq!(reduce_to_root(vec![leaf(4)]), leaf(4));
}

#[test]
fn read_and_write_address_one_record() {
    let mut region: Vec<u8> = (0..96u8).collect();
    let cv = read_cv(&region, 32);
    let expect: Vec<u8> = (32..64u8).collect();
    assert_eq!(&cv[..], &expect[..]);
    write_cv(&mut region, 64, &cv);
    assert_eq!(&region[64..], &expect[..]);
    let head: Vec<u8> = (0..64u8).collect();
    assert_eq!(&region[..64], &head[..]);
}
