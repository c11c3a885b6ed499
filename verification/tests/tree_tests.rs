use zeos_caterpillar::digest::Digest;
use zeos_caterpillar::error::WalletError;
use zeos_caterpillar::tree::{MerkleTree, recompute_root, TREE_CAPACITY, TREE_DEPTH};

fn leaf(i: u64) -> Digest {
    Digest { w0: i, w1: i ^ 7, w2: i.wrapping_mul(31), w3: !i }
}

#[test]
fn witness_recomputes_to_root_for_every_leaf() {
    let mut t = MerkleTree::new();
    let n = 21u64;
    for i in 0..n {
        let pos = t.append(leaf(i)).unwrap();
        assert_eq!(pos, i);
    }
    let root = t.root();
    for i in 0..n {
        let path = t.witness(i).unwrap();
        assert_eq!(path.len(), TREE_DEPTH);
        let rec = recompute_root(&path, i, &leaf(i));
        assert_eq!(rec, root);
    }
}

#[test]
fn witness_of_wrong_leaf_does_not_recompute_root() {
    let mut t = MerkleTree::new();
    for i in 0..5u64 {
        t.append(leaf(i)).unwrap();
    }
    let root = t.root();
    let path = t.witness(2).unwrap();
    let rec = recompute_root(&path, 2, &leaf(3));
    assert_ne!(rec, root);
}

#[test]
fn append_past_capacity_fails_with_capacity_exceeded() {
    let mut t = MerkleTree::new();
    for i in 0..TREE_CAPACITY as u64 {
        t.append(leaf(i)).unwrap();
    }
    assert_eq!(t.leaf_count(), TREE_CAPACITY);
    let r = t.append(leaf(99999));
    assert_eq!(r, Err(WalletError::CapacityExceeded));
    assert_eq!(t.leaf_count(), TREE_CAPACITY);
}

#[test]
fn witness_for_uninserted_position_fails() {
    let mut t = MerkleTree::new();
    t.append(leaf(0)).unwrap();
    let r = t.witness(1);
    assert!(matches!(r, Err(WalletError::NotYetInserted)));
}

#[test]
fn tree_reconstructs_identically_from_leaves() {
    let mut t = MerkleTree::new();
    for i in 0..9u64 {
        t.append(leaf(i)).unwrap();
    }
    let copy = MerkleTree::from_leaves(t.leaves().clone()).unwrap();
    assert_eq!(copy.root(), t.root());
    assert_eq!(copy.leaf_count(), t.leaf_count());
}

#[test]
fn root_changes_when_a_leaf_is_appended() {
    let mut t = MerkleTree::new();
    t.append(leaf(1)).unwrap();
    let r1 = t.root();
    t.append(leaf(2)).unwrap();
    assert_ne!(t.root(), r1);
}
