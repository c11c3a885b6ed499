//! Append-only, fixed-depth commitment accumulator.
//!
//! Leaves are note commitments appended in chain order; the tree never
//! shrinks or reorders, so its whole state is the leaf sequence.  The
//! root and membership witnesses are recomputed from that sequence,
//! which makes the accumulator reconstruct identically from persisted
//! leaves.  Missing leaves of the fixed-depth tree are the zero digest.

use vstd::prelude::*;
use crate::digest::{Digest, combine, spec_combine, spec_zero_digest, zero_digest};
use crate::error::WalletError;

verus! {

/// Depth of the accumulator; capacity is `1 << TREE_DEPTH` leaves.
pub const TREE_DEPTH: usize = 16;

/// Maximum number of leaves, `2 ^ TREE_DEPTH`.
pub const TREE_CAPACITY: usize = 65536;

pub open spec fn pow2(d: nat) -> nat
    decreases d,
{
    if d == 0 {
        1
    } else {
        2 * pow2((d - 1) as nat)
    }
}

pub proof fn lemma_pow2_positive(d: nat)
    ensures
        pow2(d) >= 1,
    decreases d,
{
    if d > 0 {
        lemma_pow2_positive((d - 1) as nat);
    }
}

pub proof fn lemma_pow2_capacity()
    ensures
        pow2(TREE_DEPTH as nat) == TREE_CAPACITY,
{
    reveal_with_fuel(pow2, 18);
}

/// Root of the empty subtree of the given depth.
pub open spec fn spec_empty_root(depth: nat) -> Digest
    decreases depth,
{
    if depth == 0 {
        spec_zero_digest()
    } else {
        spec_combine(spec_empty_root((depth - 1) as nat), spec_empty_root((depth - 1) as nat))
    }
}

/// Root of the subtree of the given depth whose leftmost leaf slot is
/// `start`; leaf slots at or past `leaves.len()` are empty.
pub open spec fn spec_node(leaves: Seq<Digest>, start: nat, depth: nat) -> Digest
    decreases depth,
{
    if depth == 0 {
        if start < leaves.len() {
            leaves[start as int]
        } else {
            spec_zero_digest()
        }
    } else {
        spec_combine(
            spec_node(leaves, start, (depth - 1) as nat),
            spec_node(leaves, start + pow2((depth - 1) as nat), (depth - 1) as nat),
        )
    }
}

/// Root of the whole accumulator.
pub open spec fn spec_root(leaves: Seq<Digest>) -> Digest {
    spec_node(leaves, 0, TREE_DEPTH as nat)
}

/// Witness for relative leaf index `i` inside the subtree at `start`:
/// the sibling roots along the path, ordered root to leaf.
pub open spec fn spec_path(leaves: Seq<Digest>, start: nat, depth: nat, i: nat) -> Seq<Digest>
    decreases depth,
{
    if depth == 0 {
        Seq::empty()
    } else {
        let half = pow2((depth - 1) as nat);
        if i < half {
            seq![spec_node(leaves, start + half, (depth - 1) as nat)]
                + spec_path(leaves, start, (depth - 1) as nat, i)
        } else {
            seq![spec_node(leaves, start, (depth - 1) as nat)]
                + spec_path(leaves, start + half, (depth - 1) as nat, (i - half) as nat)
        }
    }
}

/// Folds a root-to-leaf witness back up into a root, for leaf value
/// `leaf` at relative index `i`.
pub open spec fn spec_recompute(path: Seq<Digest>, i: nat, leaf: Digest) -> Digest
    decreases path.len(),
{
    if path.len() == 0 {
        leaf
    } else {
        let half = pow2((path.len() - 1) as nat);
        if i < half {
            spec_combine(spec_recompute(path.skip(1), i, leaf), path[0])
        } else {
            spec_combine(path[0], spec_recompute(path.skip(1), (i - half) as nat, leaf))
        }
    }
}

pub proof fn lemma_path_len(leaves: Seq<Digest>, start: nat, depth: nat, i: nat)
    ensures
        spec_path(leaves, start, depth, i).len() == depth,
    decreases depth,
{
    if depth > 0 {
        let half = pow2((depth - 1) as nat);
        if i < half {
            lemma_path_len(leaves, start, (depth - 1) as nat, i);
        } else {
            lemma_path_len(leaves, start + half, (depth - 1) as nat, (i - half) as nat);
        }
    }
}

/// Core accumulator soundness: within any subtree, the witness of a
/// present leaf recomputes to that subtree's root.
pub proof fn lemma_path_recomputes(leaves: Seq<Digest>, start: nat, depth: nat, i: nat)
    requires
        i < pow2(depth),
        start + i < leaves.len(),
    ensures
        spec_recompute(spec_path(leaves, start, depth, i), i, leaves[(start + i) as int])
            == spec_node(leaves, start, depth),
    decreases depth,
{
    if depth == 0 {
        assert(i == 0);
    } else {
        let half = pow2((depth - 1) as nat);
        let leaf = leaves[(start + i) as int];
        let p = spec_path(leaves, start, depth, i);
        lemma_path_len(leaves, start, depth, i);
        if i < half {
            let rest = spec_path(leaves, start, (depth - 1) as nat, i);
            assert(p.skip(1) =~= rest);
            lemma_path_recomputes(leaves, start, (depth - 1) as nat, i);
        } else {
            let rest = spec_path(leaves, start + half, (depth - 1) as nat, (i - half) as nat);
            assert(p.skip(1) =~= rest);
            lemma_path_recomputes(leaves, start + half, (depth - 1) as nat, (i - half) as nat);
        }
    }
}

/// Accumulator law: for any sequence of at most `TREE_CAPACITY` appended
/// commitments, the witness of every present leaf recomputes to the
/// accumulator root.
pub proof fn lemma_witness_recomputes_to_root(leaves: Seq<Digest>, i: nat)
    requires
        leaves.len() <= TREE_CAPACITY,
        i < leaves.len(),
    ensures
        spec_recompute(spec_path(leaves, 0, TREE_DEPTH as nat, i), i, leaves[i as int])
            == spec_root(leaves),
{
    lemma_pow2_capacity();
    lemma_path_recomputes(leaves, 0, TREE_DEPTH as nat, i);
}

pub proof fn lemma_node_empty(leaves: Seq<Digest>, start: nat, depth: nat)
    requires
        start >= leaves.len(),
    ensures
        spec_node(leaves, start, depth) == spec_empty_root(depth),
    decreases depth,
{
    if depth > 0 {
        lemma_pow2_positive((depth - 1) as nat);
        lemma_node_empty(leaves, start, (depth - 1) as nat);
        lemma_node_empty(leaves, start + pow2((depth - 1) as nat), (depth - 1) as nat);
    }
}

pub proof fn lemma_pow2_increases(d1: nat, d2: nat)
    requires
        d1 <= d2,
    ensures
        pow2(d1) <= pow2(d2),
    decreases d2,
{
    if d1 < d2 {
        lemma_pow2_increases(d1, (d2 - 1) as nat);
        lemma_pow2_positive((d2 - 1) as nat);
    }
}

fn pow2_exec(d: usize) -> (r: usize)
    requires
        d <= TREE_DEPTH,
    ensures
        r == pow2(d as nat),
    decreases d,
{
    proof {
        lemma_pow2_increases(d as nat, TREE_DEPTH as nat);
        lemma_pow2_capacity();
    }
    if d == 0 {
        1
    } else {
        2 * pow2_exec(d - 1)
    }
}

fn empty_root_exec(depth: usize) -> (r: Digest)
    requires
        depth <= TREE_DEPTH,
    ensures
        r == spec_empty_root(depth as nat),
    decreases depth,
{
    if depth == 0 {
        zero_digest()
    } else {
        let c = empty_root_exec(depth - 1);
        combine(&c, &c)
    }
}

fn node_root(leaves: &Vec<Digest>, start: usize, depth: usize) -> (d: Digest)
    requires
        depth <= TREE_DEPTH,
        start + pow2(depth as nat) <= TREE_CAPACITY,
    ensures
        d == spec_node(leaves@, start as nat, depth as nat),
    decreases depth,
{
    if start >= leaves.len() {
        proof {
            lemma_node_empty(leaves@, start as nat, depth as nat);
        }
        empty_root_exec(depth)
    } else if depth == 0 {
        leaves[start]
    } else {
        let half = pow2_exec(depth - 1);
        let l = node_root(leaves, start, depth - 1);
        let r = node_root(leaves, start + half, depth - 1);
        combine(&l, &r)
    }
}

fn node_path(leaves: &Vec<Digest>, start: usize, depth: usize, i: usize) -> (p: Vec<Digest>)
    requires
        depth <= TREE_DEPTH,
        start + pow2(depth as nat) <= TREE_CAPACITY,
        i < pow2(depth as nat),
    ensures
        p@ == spec_path(leaves@, start as nat, depth as nat, i as nat),
    decreases depth,
{
    if depth == 0 {
        Vec::new()
    } else {
        let half = pow2_exec(depth - 1);
        if i < half {
            let sib = node_root(leaves, start + half, depth - 1);
            let mut p: Vec<Digest> = Vec::new();
            p.push(sib);
            let mut rest = node_path(leaves, start, depth - 1, i);
            p.append(&mut rest);
            proof {
                assert(p@ =~= spec_path(leaves@, start as nat, depth as nat, i as nat));
            }
            p
        } else {
            let sib = node_root(leaves, start, depth - 1);
            let mut p: Vec<Digest> = Vec::new();
            p.push(sib);
            let mut rest = node_path(leaves, start + half, depth - 1, i - half);
            p.append(&mut rest);
            proof {
                assert(p@ =~= spec_path(leaves@, start as nat, depth as nat, i as nat));
            }
            p
        }
    }
}

/// The append-only commitment accumulator.
pub struct MerkleTree {
    leaves: Vec<Digest>,
}

impl View for MerkleTree {
    type V = Seq<Digest>;

    closed spec fn view(&self) -> Seq<Digest> {
        self.leaves@
    }
}

impl MerkleTree {
    pub open spec fn wf(&self) -> bool {
        self@.len() <= TREE_CAPACITY
    }

    pub fn new() -> (t: Self)
        ensures
            t@ =~= Seq::<Digest>::empty(),
            t.wf(),
    {
        MerkleTree { leaves: Vec::new() }
    }

    /// Rebuilds an accumulator from a persisted leaf sequence; append
    /// order is the only nondeterminism source, and it is fixed by
    /// chain order, so this reconstructs the tree identically.
    pub fn from_leaves(leaves: Vec<Digest>) -> (r: Result<Self, WalletError>)
        ensures
            match r {
                Ok(t) => leaves@.len() <= TREE_CAPACITY && t@ == leaves@,
                Err(e) => e == WalletError::CapacityExceeded && leaves@.len() > TREE_CAPACITY,
            },
    {
        if leaves.len() > TREE_CAPACITY {
            Err(WalletError::CapacityExceeded)
        } else {
            Ok(MerkleTree { leaves })
        }
    }

    pub fn leaf_count(&self) -> (n: usize)
        ensures
            n == self@.len(),
    {
        self.leaves.len()
    }

    pub fn leaf_at(&self, i: usize) -> (d: Digest)
        requires
            i < self@.len(),
        ensures
            d == self@[i as int],
    {
        self.leaves[i]
    }

    /// All leaves, in append order, for persistence.
    pub fn leaves(&self) -> (v: &Vec<Digest>)
        ensures
            v@ == self@,
    {
        &self.leaves
    }

    /// Appends one commitment; fails exactly when the tree is full, and
    /// a failed append leaves the tree unchanged.
    pub fn append(&mut self, c: Digest) -> (r: Result<u64, WalletError>)
        requires
            old(self).wf(),
        ensures
            final(self).wf(),
            match r {
                Ok(pos) => old(self)@.len() < TREE_CAPACITY && pos == old(self)@.len()
                    && final(self)@ == old(self)@.push(c),
                Err(e) => e == WalletError::CapacityExceeded && old(self)@.len() == TREE_CAPACITY
                    && final(self)@ == old(self)@,
            },
    {
        if self.leaves.len() < TREE_CAPACITY {
            let pos = self.leaves.len() as u64;
            self.leaves.push(c);
            Ok(pos)
        } else {
            Err(WalletError::CapacityExceeded)
        }
    }

    /// Index of the first leaf equal to `c`, if any.
    pub fn leaf_index(&self, c: &Digest) -> (r: Option<u64>)
        requires
            self.wf(),
        ensures
            r == spec_leaf_index(self@, *c),
    {
        let n = self.leaves.len();
        let mut i: usize = 0;
        while i < n
            invariant
                n == self@.len(),
                i <= n,
                self@.len() <= TREE_CAPACITY,
                forall|j: int| 0 <= j < i ==> self@[j] != *c,
                spec_leaf_index(self@, *c) == spec_leaf_index_from(self@, *c, i as nat),
            decreases n - i,
        {
            if self.leaves[i] == *c {
                return Some(i as u64);
            }
            i = i + 1;
        }
        None
    }

    pub fn root(&self) -> (d: Digest)
        requires
            self.wf(),
        ensures
            d == spec_root(self@),
    {
        proof {
            lemma_pow2_capacity();
        }
        node_root(&self.leaves, 0, TREE_DEPTH)
    }

    /// Witness for leaf `i`: sibling roots ordered root to leaf; fails
    /// exactly when leaf `i` has not been inserted yet.
    pub fn witness(&self, i: u64) -> (r: Result<Vec<Digest>, WalletError>)
        requires
            self.wf(),
        ensures
            match r {
                Ok(path) => i < self@.len()
                    && path@ == spec_path(self@, 0, TREE_DEPTH as nat, i as nat),
                Err(e) => e == WalletError::NotYetInserted && i >= self@.len(),
            },
    {
        proof {
            lemma_pow2_capacity();
        }
        if i >= self.leaves.len() as u64 {
            Err(WalletError::NotYetInserted)
        } else {
            Ok(node_path(&self.leaves, 0, TREE_DEPTH, i as usize))
        }
    }
}

/// Index of the first occurrence of `c` in `leaves`, if any.
pub open spec fn spec_leaf_index(leaves: Seq<Digest>, c: Digest) -> Option<u64> {
    spec_leaf_index_from(leaves, c, 0)
}

pub open spec fn spec_leaf_index_from(leaves: Seq<Digest>, c: Digest, i: nat) -> Option<u64>
    decreases leaves.len() - i when i <= leaves.len()
{
    if i >= leaves.len() {
        None
    } else if leaves[i as int] == c {
        Some(i as u64)
    } else {
        spec_leaf_index_from(leaves, c, i + 1)
    }
}

/// A found leaf index points at a leaf equal to the sought digest.
pub proof fn lemma_leaf_index_found(leaves: Seq<Digest>, c: Digest, i: nat)
    requires
        leaves.len() <= TREE_CAPACITY,
        i <= leaves.len(),
    ensures
        match spec_leaf_index_from(leaves, c, i) {
            Some(p) => i <= p < leaves.len() && leaves[p as int] == c,
            None => true,
        },
    decreases leaves.len() - i,
{
    if i >= leaves.len() {
    } else if leaves[i as int] == c {
        assert(spec_leaf_index_from(leaves, c, i) == Some(i as u64));
    } else {
        lemma_leaf_index_found(leaves, c, i + 1);
        assert(spec_leaf_index_from(leaves, c, i) == spec_leaf_index_from(leaves, c, i + 1));
    }
}

/// Recomputes a root from a witness, leaf index and leaf digest.
pub fn recompute_root(path: &Vec<Digest>, i: u64, leaf: &Digest) -> (d: Digest)
    requires
        path@.len() <= TREE_DEPTH,
        i < pow2(path@.len()),
    ensures
        d == spec_recompute(path@, i as nat, *leaf),
{
    let d = recompute_from(path, 0, i, leaf);
    proof {
        assert(path@.skip(0) =~= path@);
    }
    d
}

fn recompute_from(path: &Vec<Digest>, k: usize, i: u64, leaf: &Digest) -> (d: Digest)
    requires
        path@.len() <= TREE_DEPTH,
        k <= path@.len(),
        i < pow2((path@.len() - k) as nat),
    ensures
        d == spec_recompute(path@.skip(k as int), i as nat, *leaf),
    decreases path@.len() - k,
{
    let n = path.len();
    if k == n {
        assert(path@.skip(k as int) =~= Seq::<Digest>::empty());
        *leaf
    } else {
        let half_us = pow2_exec(n - k - 1);
        let half = half_us as u64;
        proof {
            assert(path@.skip(k as int).len() == n - k);
            assert(path@.skip(k as int).skip(1) =~= path@.skip(k as int + 1));
            assert(path@.skip(k as int)[0] == path@[k as int]);
        }
        if i < half {
            let sub = recompute_from(path, k + 1, i, leaf);
            combine(&sub, &path[k])
        } else {
            let sub = recompute_from(path, k + 1, i - half, leaf);
            combine(&path[k], &sub)
        }
    }
}

} // verus!
