use vstd::prelude::*;

use crate::bytes::{compare_bytes, Ordering3};
use crate::hashing::{sha256, sha256_of, Hash32};
use crate::tree_node::{leaf_hash, push_bytes32, Entry, ProofStep};

verus! {

/// Domain tag prepended to the two children of an inner node before hashing.
pub const NODE_TAG: u8 = 1;

/// The hash of an inner node with children `l` (left) and `r` (right).
pub open spec fn node_hash(l: Hash32, r: Hash32) -> Hash32 {
    sha256_of(seq![NODE_TAG] + l@ + r@)
}

/// The level above `level`: adjacent nodes are paired left to right, and a
/// last node without a partner is carried up unchanged.
pub open spec fn next_level(level: Seq<Hash32>) -> Seq<Hash32> {
    Seq::new(
        ((level.len() + 1) / 2) as nat,
        |i: int|
            if 2 * i + 1 < level.len() {
                node_hash(level[2 * i], level[2 * i + 1])
            } else {
                level[2 * i]
            },
    )
}

/// The root of the tree whose lowest level is `level`.
pub open spec fn root_of(level: Seq<Hash32>) -> Hash32
    decreases level.len(),
{
    if level.len() <= 1 {
        level[0]
    } else {
        root_of(next_level(level))
    }
}

/// The proof step that the node at `idx` of `level` contributes: its sibling,
/// if it has one.
pub open spec fn step_at(level: Seq<Hash32>, idx: int) -> Seq<ProofStep> {
    if idx % 2 == 1 {
        seq![ProofStep { sibling: level[idx - 1], sibling_is_left: true }]
    } else if idx + 1 < level.len() {
        seq![ProofStep { sibling: level[idx + 1], sibling_is_left: false }]
    } else {
        seq![]
    }
}

/// The inclusion proof of the node at `idx` of `level`, from that level up to
/// the root.
pub open spec fn path_of(level: Seq<Hash32>, idx: int) -> Seq<ProofStep>
    decreases level.len(),
{
    if level.len() <= 1 {
        seq![]
    } else {
        step_at(level, idx) + path_of(next_level(level), idx / 2)
    }
}

/// The hash one level up from `h`, given the sibling step `s`.
pub open spec fn apply_step(h: Hash32, s: ProofStep) -> Hash32 {
    if s.sibling_is_left {
        node_hash(s.sibling, h)
    } else {
        node_hash(h, s.sibling)
    }
}

/// The hash reached by folding `proof` into `h`, step by step.
pub open spec fn fold_proof(h: Hash32, proof: Seq<ProofStep>) -> Hash32
    decreases proof.len(),
{
    if proof.len() == 0 {
        h
    } else {
        fold_proof(apply_step(h, proof[0]), proof.drop_first())
    }
}

/// `proof` shows that `e` is a leaf of the tree with root `root`.
pub open spec fn proof_valid(root: Hash32, e: Entry, proof: Seq<ProofStep>) -> bool {
    fold_proof(leaf_hash(e), proof) == root
}

proof fn lemma_fold_step_then_rest(h: Hash32, a: Seq<ProofStep>, b: Seq<ProofStep>)
    requires
        a.len() <= 1,
    ensures
        fold_proof(h, a + b) == fold_proof(fold_proof(h, a), b),
{
    if a.len() == 0 {
        assert(a + b =~= b);
    } else {
        assert((a + b).drop_first() =~= b);
        assert((a + b)[0] == a[0]);
        assert(a.drop_first() =~= Seq::<ProofStep>::empty());
        let h1 = apply_step(h, a[0]);
        assert(fold_proof(h, a) == fold_proof(h1, a.drop_first()));
        assert(fold_proof(h1, Seq::<ProofStep>::empty()) == h1);
        assert(fold_proof(h, a + b) == fold_proof(h1, (a + b).drop_first()));
    }
}

proof fn lemma_step_reaches_parent(level: Seq<Hash32>, idx: int)
    requires
        0 <= idx < level.len(),
    ensures
        fold_proof(level[idx], step_at(level, idx)) == next_level(level)[idx / 2],
{
    let s = step_at(level, idx);
    let h = level[idx];
    if s.len() == 1 {
        assert(s.drop_first() =~= Seq::<ProofStep>::empty());
        let h1 = apply_step(h, s[0]);
        assert(fold_proof(h, s) == fold_proof(h1, s.drop_first()));
        assert(fold_proof(h1, Seq::<ProofStep>::empty()) == h1);
        if idx % 2 == 1 {
            assert(2 * (idx / 2) + 1 == idx);
        } else {
            assert(2 * (idx / 2) == idx);
        }
    } else {
        assert(fold_proof(h, s) == h);
        assert(2 * (idx / 2) == idx);
    }
}

/// Folding the path of any node of a level into that node gives the level's root.
pub proof fn lemma_path_reaches_root(level: Seq<Hash32>, idx: int)
    requires
        0 <= idx < level.len(),
    ensures
        fold_proof(level[idx], path_of(level, idx)) == root_of(level),
    decreases level.len(),
{
    if level.len() > 1 {
        let next = next_level(level);
        lemma_step_reaches_parent(level, idx);
        lemma_fold_step_then_rest(level[idx], step_at(level, idx), path_of(next, idx / 2));
        lemma_path_reaches_root(next, idx / 2);
    }
}

/// Hashes an inner node.
pub fn hash_node(l: &Hash32, r: &Hash32) -> (h: Hash32)
    ensures
        h == node_hash(*l, *r),
{
    let mut data: Vec<u8> = Vec::new();
    data.push(NODE_TAG);
    push_bytes32(&mut data, l);
    push_bytes32(&mut data, r);
    assert(data@ =~= seq![NODE_TAG] + l@ + r@);
    sha256(&data)
}

/// Computes the level above `level`.
pub fn compute_next_level(level: &Vec<Hash32>) -> (r: Vec<Hash32>)
    ensures
        r@ == next_level(level@),
{
    let n = level.len();
    let m = n / 2 + n % 2;
    let mut out: Vec<Hash32> = Vec::new();
    let mut i: usize = 0;
    while i < m
        invariant
            n == level@.len(),
            m == (n + 1) / 2,
            0 <= i <= m,
            out@ =~= next_level(level@).take(i as int),
        decreases m - i,
    {
        if 2 * i + 1 < n {
            let h = hash_node(&level[2 * i], &level[2 * i + 1]);
            out.push(h);
        } else {
            out.push(level[2 * i]);
        }
        assert(next_level(level@).take(i as int + 1) =~= next_level(level@).take(i as int).push(
            next_level(level@)[i as int],
        ));
        i = i + 1;
    }
    assert(next_level(level@).take(m as int) =~= next_level(level@));
    out
}

/// The levels of a binary hash tree, from the leaves up to the root.
pub struct MerkleTree {
    pub levels: Vec<Vec<Hash32>>,
}

impl MerkleTree {
    /// The leaf level.
    pub open spec fn leaves(&self) -> Seq<Hash32> {
        self.levels@[0]@
    }

    /// Each level is the one above the previous, and the top level is the root alone.
    pub open spec fn wf(&self) -> bool {
        &&& self.levels@.len() >= 1
        &&& self.levels@[0]@.len() >= 1
        &&& forall|k: int|
            0 <= k < self.levels@.len() - 1 ==> #[trigger] self.levels@[k + 1]@ == next_level(
                self.levels@[k]@,
            )
        &&& self.levels@[self.levels@.len() - 1]@.len() == 1
    }

    /// Builds the tree over the given leaf hashes.
    pub fn new(leaves: Vec<Hash32>) -> (t: MerkleTree)
        requires
            leaves@.len() >= 1,
        ensures
            t.wf(),
            t.leaves() == leaves@,
    {
        let ghost first = leaves@;
        let mut levels: Vec<Vec<Hash32>> = Vec::new();
        levels.push(leaves);
        while levels[levels.len() - 1].len() > 1
            invariant
                levels@.len() >= 1,
                levels@[0]@ == first,
                first.len() >= 1,
                forall|k: int|
                    0 <= k < levels@.len() - 1 ==> #[trigger] levels@[k + 1]@ == next_level(
                        levels@[k]@,
                    ),
                levels@[levels@.len() - 1]@.len() >= 1,
            decreases levels@[levels@.len() - 1]@.len(),
        {
            let next = compute_next_level(&levels[levels.len() - 1]);
            levels.push(next);
        }
        MerkleTree { levels }
    }

    /// The root hash.
    pub fn root(&self) -> (r: Hash32)
        requires
            self.wf(),
        ensures
            r == root_of(self.leaves()),
    {
        proof {
            self.lemma_root_from(0);
        }
        self.levels[self.levels.len() - 1][0]
    }

    /// The root of level `k` is the single node of the top level.
    proof fn lemma_root_from(&self, k: int)
        requires
            self.wf(),
            0 <= k < self.levels@.len(),
        ensures
            root_of(self.levels@[k]@) == self.levels@[self.levels@.len() - 1]@[0],
            self.levels@[k]@.len() >= 1,
        decreases self.levels@.len() - k,
    {
        if k < self.levels@.len() - 1 {
            self.lemma_root_from(k + 1);
            assert(self.levels@[k + 1]@ == next_level(self.levels@[k]@));
        }
    }

    /// The path of the node at `idx` of level `k` is its own step followed by
    /// the path of its parent in level `k + 1`.
    proof fn lemma_path_split(&self, k: int, idx: int)
        requires
            self.wf(),
            0 <= k < self.levels@.len() - 1,
            0 <= idx < self.levels@[k]@.len(),
        ensures
            path_of(self.levels@[k]@, idx) == step_at(self.levels@[k]@, idx) + path_of(
                self.levels@[k + 1]@,
                idx / 2,
            ),
            idx / 2 < self.levels@[k + 1]@.len(),
    {
        let level = self.levels@[k]@;
        assert(self.levels@[k + 1]@ == next_level(level));
        if level.len() <= 1 {
            assert(step_at(level, idx) =~= Seq::<ProofStep>::empty());
            assert(next_level(level).len() == 1);
            assert(path_of(next_level(level), idx / 2) =~= Seq::<ProofStep>::empty());
            assert(Seq::<ProofStep>::empty() + Seq::<ProofStep>::empty() =~= Seq::<
                ProofStep,
            >::empty());
        }
    }
}

/// The inclusion proof of the leaf at `index`: the sibling hashes met on the
/// way from that leaf to the root, each with its side.
pub fn get_proof(merkle_tree: &MerkleTree, index: usize) -> (proof: Vec<ProofStep>)
    requires
        merkle_tree.wf(),
        index < merkle_tree.leaves().len(),
    ensures
        proof@ == path_of(merkle_tree.leaves(), index as int),
{
    let levels = &merkle_tree.levels;
    let mut proof: Vec<ProofStep> = Vec::new();
    let mut k: usize = 0;
    let mut idx: usize = index;
    while k < levels.len() - 1
        invariant
            merkle_tree.wf(),
            levels == merkle_tree.levels,
            0 <= k < levels@.len(),
            idx < levels@[k as int]@.len(),
            proof@ + path_of(levels@[k as int]@, idx as int) == path_of(
                levels@[0]@,
                index as int,
            ),
        decreases levels@.len() - k,
    {
        proof {
            merkle_tree.lemma_path_split(k as int, idx as int);
        }
        let level = &levels[k];
        let ghost before = proof@;
        if idx % 2 == 1 {
            proof.push(ProofStep { sibling: level[idx - 1], sibling_is_left: true });
        } else if idx + 1 < level.len() {
            proof.push(ProofStep { sibling: level[idx + 1], sibling_is_left: false });
        }
        assert(proof@ =~= before + step_at(level@, idx as int));
        assert(proof@ + path_of(levels@[k + 1]@, idx as int / 2) =~= before + (step_at(
            level@,
            idx as int,
        ) + path_of(levels@[k + 1]@, idx as int / 2)));
        idx = idx / 2;
        k = k + 1;
    }
    assert(path_of(levels@[k as int]@, idx as int) =~= Seq::<ProofStep>::empty());
    assert(proof@ + Seq::<ProofStep>::empty() =~= proof@);
    proof
}

/// Checks that `proof` leads from the leaf of the given entitlement to `root`.
pub fn verify(
    root: &Hash32,
    claimant: &[u8; 32],
    amount_unlocked: u64,
    amount_locked: u64,
    proof: &Vec<ProofStep>,
) -> (ok: bool)
    ensures
        ok == proof_valid(
            *root,
            Entry { claimant: *claimant, amount_unlocked, amount_locked },
            proof@,
        ),
{
    let e = Entry { claimant: *claimant, amount_unlocked, amount_locked };
    let mut h = e.hash();
    let mut i: usize = 0;
    assert(proof@.skip(0) =~= proof@);
    while i < proof.len()
        invariant
            0 <= i <= proof@.len(),
            fold_proof(h, proof@.skip(i as int)) == fold_proof(leaf_hash(e), proof@),
        decreases proof@.len() - i,
    {
        let step = proof[i];
        assert(proof@.skip(i as int).drop_first() =~= proof@.skip(i as int + 1));
        if step.sibling_is_left {
            h = hash_node(&step.sibling, &h);
        } else {
            h = hash_node(&h, &step.sibling);
        }
        i = i + 1;
    }
    assert(proof@.skip(i as int) =~= Seq::<ProofStep>::empty());
    let c = compare_bytes(&h, root);
    if c == Ordering3::Equal {
        assert(h =~= *root);
        true
    } else {
        false
    }
}

} // verus!
