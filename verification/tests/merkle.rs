use merkle_root::hashing::{hash_leaf, hash_leaves};
use merkle_root::merkle::{calculate_merkle_root, combine};
use sha2::Digest;

fn sha256(data: &[u8]) -> [u8; 32] {
    sha2::Sha256::digest(data).into()
}

fn reference_combine(a: &[u8; 32], b: &[u8; 32]) -> [u8; 32] {
    let (lo, hi) = if a <= b { (a, b) } else { (b, a) };
    let mut buf = Vec::new();
    buf.extend_from_slice(lo);
    buf.extend_from_slice(hi);
    sha256(&buf)
}

#[test]
fn test_merkle_root_known_case() {
    let leaf1: [u8; 32] = sha2::Sha256::digest("a").into();
    let leaf2: [u8; 32] = sha2::Sha256::digest("b").into();
    let leaf3: [u8; 32] = sha2::Sha256::digest("c").into();
    let leaves = vec![leaf1, leaf2, leaf3];

    let root = calculate_merkle_root(&leaves);

    assert_ne!(root, [0u8; 32], "Root should not be zero for non-empty input");
}

#[test]
fn empty_input_gives_zero_root() {
    let leaves: Vec<[u8; 32]> = Vec::new();
    assert_eq!(calculate_merkle_root(&leaves), [0u8; 32]);
}

#[test]
fn singleton_returns_the_leaf() {
    let d = sha256(b"only");
    assert_eq!(calculate_merkle_root(&vec![d]), d);
    let odd: [u8; 32] = [0xab; 32];
    assert_eq!(calculate_merkle_root(&vec![odd]), odd);
}

#[test]
fn repeated_calls_agree() {
    let leaves = vec![sha256(b"x"), sha256(b"y"), sha256(b"z"), sha256(b"w"), sha256(b"v")];
    let r1 = calculate_merkle_root(&leaves);
    let r2 = calculate_merkle_root(&leaves);
    let r3 = calculate_merkle_root(&leaves);
    assert_eq!(r1, r2);
    assert_eq!(r2, r3);
}

#[test]
fn combine_is_symmetric() {
    let a = sha256(b"left");
    let b = sha256(b"right");
    assert_eq!(combine(&a, &b), combine(&b, &a));
    assert_eq!(combine(&a, &a), combine(&a, &a));
}

#[test]
fn combine_matches_reference() {
    let a = sha256(b"left");
    let b = sha256(b"right");
    assert_eq!(combine(&a, &b), reference_combine(&a, &b));
    assert_eq!(combine(&b, &a), reference_combine(&a, &b));
}

#[test]
fn odd_level_duplicates_last() {
    let h1 = sha256(b"one");
    let h2 = sha256(b"two");
    let h3 = sha256(b"three");
    let expected = combine(&combine(&h1, &h2), &combine(&h3, &h3));
    assert_eq!(calculate_merkle_root(&vec![h1, h2, h3]), expected);
}

#[test]
fn three_leaf_regression() {
    let h1 = sha256(b"a");
    let h2 = sha256(b"b");
    let h3 = sha256(b"c");
    let root = calculate_merkle_root(&vec![h1, h2, h3]);

    // Independently apply the algorithm: pairs (h1,h2) and (h3,h3), then the
    // two parents, canonicalized at each step.
    let expected = reference_combine(&reference_combine(&h1, &h2), &reference_combine(&h3, &h3));
    assert_eq!(root, expected);

    assert_eq!(
        hex::encode(root),
        "b1da020d217b348265d6578cdfe4cc717bb79b5deaffce7fc167180e9e1ec8c6"
    );
}

#[test]
fn four_leaf_regression() {
    let items: Vec<Vec<u8>> = vec![
        b"alice-address".to_vec(),
        b"bob-address".to_vec(),
        b"charlie-address".to_vec(),
        b"david-address".to_vec(),
    ];
    let leaves = hash_leaves(&items);
    assert_eq!(leaves.len(), 4);
    let root = calculate_merkle_root(&leaves);

    let expected = reference_combine(
        &reference_combine(&leaves[0], &leaves[1]),
        &reference_combine(&leaves[2], &leaves[3]),
    );
    assert_eq!(root, expected);

    assert_eq!(
        hex::encode(root),
        "29ba2d20b6da12e90f678ab2ab5a2af23067e22a0aa3a6bffb3fb2f3595c70fb"
    );
}

#[test]
fn hash_leaf_matches_sha256() {
    let d = hash_leaf(b"abc");
    assert_eq!(
        hex::encode(d),
        "ba7816bf8f01cfea414140de5dae2223b00361a396177a9cb410ff61f20015ad"
    );
    assert_eq!(d, sha256(b"abc"));
    let empty = hash_leaf(b"");
    assert_eq!(
        hex::encode(empty),
        "e3b0c44298fc1c149afbf4c8996fb92427ae41e4649b934ca495991b7852b855"
    );
}

#[test]
fn hash_leaves_keeps_length_and_order() {
    let items: Vec<Vec<u8>> = vec![b"first".to_vec(), b"second".to_vec(), Vec::new()];
    let leaves = hash_leaves(&items);
    assert_eq!(leaves.len(), 3);
    assert_eq!(leaves[0], sha256(b"first"));
    assert_eq!(leaves[1], sha256(b"second"));
    assert_eq!(leaves[2], sha256(b""));
}

#[test]
fn two_leaves_root_is_their_parent() {
    let h1 = sha256(b"p");
    let h2 = sha256(b"q");
    assert_eq!(calculate_merkle_root(&vec![h1, h2]), combine(&h1, &h2));
}
