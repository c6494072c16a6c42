use vstd::prelude::*;

use crate::bytes::{compare_bytes, lemma_lex_asymmetric, lemma_lex_transitive, lex_lt, Ordering3};
use crate::error::MerkleTreeError;
use crate::hashing::Hash32;
use crate::merkle_tree::{
    get_proof, lemma_path_reaches_root, path_of, proof_valid, root_of, MerkleTree,
};
use crate::tree_node::{decoded_pubkey, leaf_hash, CsvEntry, Entry, ProofStep, TreeNode};

verus! {

/// Two entries of `es` name the same claimant.
pub open spec fn has_duplicate_claimant(es: Seq<Entry>) -> bool {
    exists|i: int, j: int|
        0 <= i < j < es.len() && #[trigger] es[i].claimant@ == #[trigger] es[j].claimant@
}

/// The entries are in strictly ascending order of claimant bytes.
pub open spec fn strictly_sorted(s: Seq<Entry>) -> bool {
    forall|i: int, j: int|
        0 <= i < j < s.len() ==> lex_lt(#[trigger] s[i].claimant@, #[trigger] s[j].claimant@)
}

/// `s` holds the entries of `es`, in strictly ascending order of claimant.
pub open spec fn sorted_arrangement(s: Seq<Entry>, es: Seq<Entry>) -> bool {
    &&& s.len() == es.len()
    &&& strictly_sorted(s)
    &&& forall|k: int| 0 <= k < es.len() ==> s.contains(#[trigger] es[k])
    &&& forall|p: int| 0 <= p < s.len() ==> es.contains(#[trigger] s[p])
}

/// The sum of all unlocked and locked amounts.
pub open spec fn total_of(es: Seq<Entry>) -> int
    decreases es.len(),
{
    if es.len() == 0 {
        0
    } else {
        total_of(es.drop_last()) + es.last().amount_unlocked + es.last().amount_locked
    }
}

/// The entitlements that a list of nodes commits to.
pub open spec fn entries_of(nodes: Seq<TreeNode>) -> Seq<Entry> {
    Seq::new(nodes.len(), |i: int| nodes[i].entry())
}

/// The leaf hashes of a list of entries.
pub open spec fn leaf_hashes(es: Seq<Entry>) -> Seq<Hash32> {
    Seq::new(es.len(), |i: int| leaf_hash(es[i]))
}

/// Collects the entitlements of a list of nodes.
pub fn to_entries(nodes: &Vec<TreeNode>) -> (r: Vec<Entry>)
    ensures
        r@ == entries_of(nodes@),
{
    let mut out: Vec<Entry> = Vec::new();
    let mut i: usize = 0;
    while i < nodes.len()
        invariant
            0 <= i <= nodes@.len(),
            out@ =~= entries_of(nodes@).take(i as int),
        decreases nodes@.len() - i,
    {
        out.push(nodes[i].to_entry());
        assert(entries_of(nodes@).take(i as int + 1) =~= entries_of(nodes@).take(i as int).push(
            entries_of(nodes@)[i as int],
        ));
        i = i + 1;
    }
    assert(entries_of(nodes@).take(i as int) =~= entries_of(nodes@));
    out
}

/// Hashes each entry into a leaf.
pub fn hash_leaves(es: &Vec<Entry>) -> (r: Vec<Hash32>)
    ensures
        r@ == leaf_hashes(es@),
{
    let mut out: Vec<Hash32> = Vec::new();
    let mut i: usize = 0;
    while i < es.len()
        invariant
            0 <= i <= es@.len(),
            out@ =~= leaf_hashes(es@).take(i as int),
        decreases es@.len() - i,
    {
        out.push(es[i].hash());
        assert(leaf_hashes(es@).take(i as int + 1) =~= leaf_hashes(es@).take(i as int).push(
            leaf_hashes(es@)[i as int],
        ));
        i = i + 1;
    }
    assert(leaf_hashes(es@).take(i as int) =~= leaf_hashes(es@));
    out
}

pub(crate) proof fn lemma_total_prefix_monotone(es: Seq<Entry>, j: int)
    requires
        0 <= j <= es.len(),
    ensures
        total_of(es.take(j)) <= total_of(es),
    decreases es.len() - j,
{
    if j < es.len() {
        lemma_total_prefix_monotone(es, j + 1);
        assert(es.take(j + 1).drop_last() =~= es.take(j));
    } else {
        assert(es.take(j) =~= es);
    }
}

/// The sum of all amounts, or `None` where it does not fit in a `u64`.
pub fn checked_total(es: &Vec<Entry>) -> (r: Option<u64>)
    ensures
        r is Some <==> total_of(es@) <= u64::MAX,
        r is Some ==> r->Some_0 == total_of(es@),
{
    let mut acc: u64 = 0;
    let mut i: usize = 0;
    assert(es@.take(0) =~= Seq::<Entry>::empty());
    while i < es.len()
        invariant
            0 <= i <= es@.len(),
            acc == total_of(es@.take(i as int)),
        decreases es@.len() - i,
    {
        let e = es[i];
        assert(es@.take(i as int + 1).drop_last() =~= es@.take(i as int));
        proof {
            lemma_total_prefix_monotone(es@, i as int + 1);
        }
        match acc.checked_add(e.amount_unlocked) {
            Some(a) => match a.checked_add(e.amount_locked) {
                Some(b) => {
                    acc = b;
                },
                None => {
                    return None;
                },
            },
            None => {
                return None;
            },
        }
        i = i + 1;
    }
    assert(es@.take(i as int) =~= es@);
    Some(acc)
}

/// Sorts the entries by claimant, failing where two name the same claimant.
pub fn sort_entries(es: &Vec<Entry>) -> (r: Result<Vec<Entry>, MerkleTreeError>)
    ensures
        r is Ok <==> !has_duplicate_claimant(es@),
        r is Ok ==> sorted_arrangement(r->Ok_0@, es@),
        r is Err ==> r->Err_0 == MerkleTreeError::DuplicateClaimant,
{
    let mut sorted: Vec<Entry> = Vec::new();
    let mut i: usize = 0;
    while i < es.len()
        invariant
            0 <= i <= es@.len(),
            sorted@.len() == i,
            strictly_sorted(sorted@),
            forall|k: int| 0 <= k < i ==> sorted@.contains(#[trigger] es@[k]),
            forall|p: int| 0 <= p < sorted@.len() ==> es@.take(i as int).contains(#[trigger] sorted@[p]),
            forall|k1: int, k2: int|
                0 <= k1 < k2 < i ==> #[trigger] es@[k1].claimant@ != #[trigger] es@[k2].claimant@,
        decreases es@.len() - i,
    {
        let e = es[i];
        let mut j: usize = 0;
        while j < sorted.len() && compare_bytes(&sorted[j].claimant, &e.claimant) == Ordering3::Less
            invariant
                0 <= j <= sorted@.len(),
                forall|p: int| 0 <= p < j ==> lex_lt(#[trigger] sorted@[p].claimant@, e.claimant@),
            decreases sorted@.len() - j,
        {
            j = j + 1;
        }
        if j < sorted.len() {
            let c = compare_bytes(&sorted[j].claimant, &e.claimant);
            if c == Ordering3::Equal {
                proof {
                    let x = sorted@[j as int];
                    assert(es@.take(i as int).contains(x));
                    let k = choose|k: int| 0 <= k < i && #[trigger] es@.take(i as int)[k] == x;
                    assert(es@[k] == x);
                    assert(es@[k].claimant@ == es@[i as int].claimant@);
                }
                return Err(MerkleTreeError::DuplicateClaimant);
            }
        }
        let ghost old_sorted = sorted@;
        proof {
            if j < old_sorted.len() {
                assert(lex_lt(e.claimant@, old_sorted[j as int].claimant@));
            }
            assert forall|p: int| 0 <= p < old_sorted.len() implies
                #[trigger] old_sorted[p].claimant@ != e.claimant@ && (p < j ==> lex_lt(
                    old_sorted[p].claimant@,
                    e.claimant@,
                )) && (p >= j ==> lex_lt(e.claimant@, old_sorted[p].claimant@)) by {
                if p >= j {
                    if p > j {
                        assert(lex_lt(old_sorted[j as int].claimant@, old_sorted[p].claimant@));
                        lemma_lex_transitive(
                            e.claimant@,
                            old_sorted[j as int].claimant@,
                            old_sorted[p].claimant@,
                        );
                    }
                    lemma_lex_asymmetric(e.claimant@, old_sorted[p].claimant@);
                } else {
                    lemma_lex_asymmetric(old_sorted[p].claimant@, e.claimant@);
                }
            }
        }
        sorted.insert(j, e);
        proof {
            let s = sorted@;
            assert(s == old_sorted.insert(j as int, e));
            assert forall|a: int, b: int| 0 <= a < b < s.len() implies lex_lt(
                #[trigger] s[a].claimant@,
                #[trigger] s[b].claimant@,
            ) by {
                if b < j {
                    assert(s[a] == old_sorted[a] && s[b] == old_sorted[b]);
                } else if b == j {
                    assert(s[a] == old_sorted[a]);
                } else if a == j {
                    assert(s[b] == old_sorted[b - 1]);
                } else if a < j {
                    assert(s[a] == old_sorted[a] && s[b] == old_sorted[b - 1]);
                } else {
                    assert(s[a] == old_sorted[a - 1] && s[b] == old_sorted[b - 1]);
                }
            }
            assert forall|k: int| 0 <= k < i + 1 implies s.contains(#[trigger] es@[k]) by {
                if k == i {
                    assert(s[j as int] == e);
                } else {
                    assert(old_sorted.contains(es@[k]));
                    let p = choose|p: int| 0 <= p < old_sorted.len() && old_sorted[p] == es@[k];
                    if p < j {
                        assert(s[p] == es@[k]);
                    } else {
                        assert(s[p + 1] == es@[k]);
                    }
                }
            }
            assert forall|p: int| 0 <= p < s.len() implies es@.take(i + 1).contains(
                #[trigger] s[p],
            ) by {
                if p == j {
                    assert(es@.take(i + 1)[i as int] == e);
                } else {
                    let q = if p < j {
                        p
                    } else {
                        p - 1
                    };
                    assert(s[p] == old_sorted[q]);
                    assert(es@.take(i as int).contains(old_sorted[q]));
                    let k = choose|k: int|
                        0 <= k < i && #[trigger] es@.take(i as int)[k] == old_sorted[q];
                    assert(es@.take(i + 1)[k] == s[p]);
                }
            }
            assert forall|k1: int, k2: int| 0 <= k1 < k2 < i + 1 implies #[trigger] es@[k1].claimant@
                != #[trigger] es@[k2].claimant@ by {
                if k2 == i {
                    assert(old_sorted.contains(es@[k1]));
                    let p = choose|p: int| 0 <= p < old_sorted.len() && old_sorted[p] == es@[k1];
                    assert(old_sorted[p].claimant@ != e.claimant@);
                }
            }
        }
        i = i + 1;
    }
    proof {
        assert(es@.take(i as int) =~= es@);
        if has_duplicate_claimant(es@) {
            let (a, b) = choose|a: int, b: int|
                0 <= a < b < es@.len() && #[trigger] es@[a].claimant@ == #[trigger] es@[b].claimant@;
            assert(es@[a].claimant@ != es@[b].claimant@);
        }
    }
    Ok(sorted)
}

/// Two strictly sorted sequences with the same elements are equal.
proof fn lemma_sorted_same_elements(s: Seq<Entry>, t: Seq<Entry>)
    requires
        strictly_sorted(s),
        strictly_sorted(t),
        s.len() == t.len(),
        forall|x: Entry| s.contains(x) <==> t.contains(x),
    ensures
        s == t,
    decreases s.len(),
{
    if s.len() > 0 {
        assert(t.contains(s[0]));
        let m = choose|m: int| 0 <= m < t.len() && t[m] == s[0];
        assert(s.contains(t[0]));
        let k = choose|k: int| 0 <= k < s.len() && s[k] == t[0];
        if m > 0 {
            assert(lex_lt(t[0].claimant@, t[m].claimant@));
            if k > 0 {
                assert(lex_lt(s[0].claimant@, s[k].claimant@));
                lemma_lex_asymmetric(s[0].claimant@, s[k].claimant@);
            }
        }
        assert(s[0] == t[0]);
        let s1 = s.drop_first();
        let t1 = t.drop_first();
        assert forall|x: Entry| s1.contains(x) implies t1.contains(x) by {
            let p = choose|p: int| 0 <= p < s1.len() && s1[p] == x;
            assert(s[p + 1] == x);
            assert(t.contains(x));
            let q = choose|q: int| 0 <= q < t.len() && t[q] == x;
            if q == 0 {
                assert(lex_lt(s[0].claimant@, s[p + 1].claimant@));
            }
            assert(t1[q - 1] == x);
        }
        assert forall|x: Entry| t1.contains(x) implies s1.contains(x) by {
            let q = choose|q: int| 0 <= q < t1.len() && t1[q] == x;
            assert(t[q + 1] == x);
            assert(s.contains(x));
            let p = choose|p: int| 0 <= p < s.len() && s[p] == x;
            if p == 0 {
                assert(lex_lt(t[0].claimant@, t[q + 1].claimant@));
            }
            assert(s1[p - 1] == x);
        }
        lemma_sorted_same_elements(s1, t1);
        assert(s =~= seq![s[0]] + s1);
        assert(t =~= seq![t[0]] + t1);
    } else {
        assert(s =~= t);
    }
}

/// A Merkle tree over a set of entitlements, with each claimant's proof.
pub struct AirdropMerkleTree {
    /// The root hash.
    pub merkle_root: Hash32,
    /// The number of leaves.
    pub max_num_nodes: u64,
    /// The sum of all unlocked and locked amounts.
    pub max_total_claim: u64,
    /// The leaves in ascending order of claimant, each with its proof.
    pub tree_nodes: Vec<TreeNode>,
    /// The levels of the tree.
    pub merkle_tree: MerkleTree,
}

impl AirdropMerkleTree {
    /// The entitlements committed to, in leaf order.
    pub open spec fn leaves(&self) -> Seq<Entry> {
        entries_of(self.tree_nodes@)
    }

    /// This is the tree built from the entries `es`.
    pub open spec fn is_tree_of(&self, es: Seq<Entry>) -> bool {
        let leaves = self.leaves();
        &&& es.len() > 0
        &&& sorted_arrangement(leaves, es)
        &&& self.max_num_nodes == es.len()
        &&& self.max_total_claim == total_of(es)
        &&& self.merkle_tree.wf()
        &&& self.merkle_tree.leaves() == leaf_hashes(leaves)
        &&& self.merkle_root == root_of(leaf_hashes(leaves))
        &&& forall|i: int|
            0 <= i < leaves.len() ==> (#[trigger] self.tree_nodes@[i]).proof is Some
                && self.tree_nodes@[i].proof->Some_0@ == path_of(leaf_hashes(leaves), i)
    }

    /// Builds the tree over the given nodes, whatever their order. Fails on an
    /// empty list, then on a repeated claimant, then where the sum of all
    /// amounts overflows a `u64`.
    pub fn new(tree_nodes: Vec<TreeNode>) -> (r: Result<AirdropMerkleTree, MerkleTreeError>)
        ensures
            ({
                let es = entries_of(tree_nodes@);
                &&& (r == Err::<AirdropMerkleTree, MerkleTreeError>(MerkleTreeError::EmptyEntries))
                    <==> es.len() == 0
                &&& (r == Err::<AirdropMerkleTree, MerkleTreeError>(
                    MerkleTreeError::DuplicateClaimant,
                )) <==> (es.len() > 0 && has_duplicate_claimant(es))
                &&& (r == Err::<AirdropMerkleTree, MerkleTreeError>(
                    MerkleTreeError::ArithmeticOverflow,
                )) <==> (es.len() > 0 && !has_duplicate_claimant(es) && total_of(es) > u64::MAX)
                &&& r is Ok <==> (es.len() > 0 && !has_duplicate_claimant(es) && total_of(es)
                    <= u64::MAX)
                &&& r is Ok ==> r->Ok_0.is_tree_of(es)
            }),
    {
        let es = to_entries(&tree_nodes);
        if es.len() == 0 {
            return Err(MerkleTreeError::EmptyEntries);
        }
        let sorted = match sort_entries(&es) {
            Ok(s) => s,
            Err(e) => {
                return Err(e);
            },
        };
        let total = match checked_total(&es) {
            Some(t) => t,
            None => {
                return Err(MerkleTreeError::ArithmeticOverflow);
            },
        };
        let leaves = hash_leaves(&sorted);
        let ghost leaf_seq = leaves@;
        let merkle_tree = MerkleTree::new(leaves);
        let merkle_root = merkle_tree.root();
        let mut nodes: Vec<TreeNode> = Vec::new();
        let mut i: usize = 0;
        while i < sorted.len()
            invariant
                0 <= i <= sorted@.len(),
                merkle_tree.wf(),
                merkle_tree.leaves() == leaf_seq,
                leaf_seq == leaf_hashes(sorted@),
                nodes@.len() == i,
                forall|p: int| 0 <= p < i ==> (#[trigger] nodes@[p]).entry() == sorted@[p],
                forall|p: int|
                    0 <= p < i ==> (#[trigger] nodes@[p]).proof is Some && nodes@[p].proof->Some_0@
                        == path_of(leaf_seq, p),
            decreases sorted@.len() - i,
        {
            let e = sorted[i];
            let proof = get_proof(&merkle_tree, i);
            nodes.push(
                TreeNode {
                    claimant: e.claimant,
                    proof: Some(proof),
                    total_unlocked: e.amount_unlocked,
                    total_locked: e.amount_locked,
                },
            );
            i = i + 1;
        }
        assert(entries_of(nodes@) =~= sorted@);
        let t = AirdropMerkleTree {
            merkle_root,
            max_num_nodes: es.len() as u64,
            max_total_claim: total,
            tree_nodes: nodes,
            merkle_tree,
        };
        Ok(t)
    }

    /// Builds the tree over rows whose claimants are written in base 58. Fails
    /// with `InvalidPubkey` on the first row whose key does not decode, and
    /// otherwise as `new` does.
    pub fn new_from_entries(entries: &Vec<CsvEntry>) -> (r: Result<AirdropMerkleTree, MerkleTreeError>)
        ensures
            r == Err::<AirdropMerkleTree, MerkleTreeError>(MerkleTreeError::InvalidPubkey) <==> exists|k: int|
                0 <= k < entries@.len() && decoded_pubkey_of(#[trigger] entries@[k]) is None,
            (forall|k: int| 0 <= k < entries@.len() ==> decoded_pubkey_of(#[trigger] entries@[k]) is Some) ==> {
                let es = Seq::new(entries@.len(), |k: int| csv_entry_of(entries@[k]));
                &&& (r is Ok <==> (es.len() > 0 && !has_duplicate_claimant(es) && total_of(es)
                    <= u64::MAX))
                &&& (r is Ok ==> r->Ok_0.is_tree_of(es))
            },
    {
        let mut nodes: Vec<TreeNode> = Vec::new();
        let mut i: usize = 0;
        while i < entries.len()
            invariant
                0 <= i <= entries@.len(),
                nodes@.len() == i,
                forall|k: int| 0 <= k < i ==> decoded_pubkey_of(#[trigger] entries@[k]) is Some,
                forall|k: int| 0 <= k < i ==> (#[trigger] nodes@[k]).entry() == csv_entry_of(entries@[k]),
            decreases entries@.len() - i,
        {
            match TreeNode::from_csv_entry(&entries[i]) {
                Some(n) => nodes.push(n),
                None => {
                    return Err(MerkleTreeError::InvalidPubkey);
                },
            }
            i = i + 1;
        }
        assert(entries_of(nodes@) =~= Seq::new(entries@.len(), |k: int| csv_entry_of(entries@[k])));
        AirdropMerkleTree::new(nodes)
    }

    /// The node of the given claimant, if the tree holds one.
    pub fn get_node(&self, claimant: &[u8; 32]) -> (r: Option<&TreeNode>)
        ensures
            r is Some ==> exists|i: int|
                0 <= i < self.tree_nodes@.len() && self.tree_nodes@[i] == *r->Some_0
                    && #[trigger] self.tree_nodes@[i].claimant@ == claimant@,
            r is None ==> forall|i: int|
                0 <= i < self.tree_nodes@.len() ==> #[trigger] self.tree_nodes@[i].claimant@
                    != claimant@,
    {
        let mut i: usize = 0;
        while i < self.tree_nodes.len()
            invariant
                0 <= i <= self.tree_nodes@.len(),
                forall|p: int| 0 <= p < i ==> #[trigger] self.tree_nodes@[p].claimant@ != claimant@,
            decreases self.tree_nodes@.len() - i,
        {
            if compare_bytes(&self.tree_nodes[i].claimant, claimant) == Ordering3::Equal {
                return Some(&self.tree_nodes[i]);
            }
            i = i + 1;
        }
        None
    }
}

/// The entitlement of a row whose key decodes.
pub open spec fn csv_entry_of(c: CsvEntry) -> Entry {
    Entry {
        claimant: decoded_pubkey_of(c)->Some_0,
        amount_unlocked: c.amount_unlocked,
        amount_locked: c.amount_locked,
    }
}

/// The key that a row's claimant text decodes to, if any.
pub open spec fn decoded_pubkey_of(c: CsvEntry) -> Option<[u8; 32]> {
    decoded_pubkey(c.pubkey@)
}

/// Every entry of a built tree has a node in it whose proof verifies against
/// the root.
pub proof fn lemma_every_entry_verifies(t: AirdropMerkleTree, es: Seq<Entry>, k: int)
    requires
        t.is_tree_of(es),
        0 <= k < es.len(),
    ensures
        exists|i: int|
            0 <= i < t.tree_nodes@.len() && (#[trigger] t.tree_nodes@[i]).entry() == es[k]
                && t.tree_nodes@[i].proof is Some && proof_valid(
                t.merkle_root,
                es[k],
                t.tree_nodes@[i].proof->Some_0@,
            ),
{
    let leaves = t.leaves();
    assert(leaves.contains(es[k]));
    let i = choose|i: int| 0 <= i < leaves.len() && leaves[i] == es[k];
    lemma_path_reaches_root(leaf_hashes(leaves), i);
    assert(t.tree_nodes@[i].entry() == es[k]);
}

/// Two sorted arrangements of entry lists with the same multiset are equal.
proof fn lemma_arrangement_unique(s: Seq<Entry>, t: Seq<Entry>, e1: Seq<Entry>, e2: Seq<Entry>)
    requires
        sorted_arrangement(s, e1),
        sorted_arrangement(t, e2),
        e1.to_multiset() == e2.to_multiset(),
    ensures
        s == t,
{
    broadcast use vstd::seq_lib::to_multiset_contains, vstd::seq_lib::to_multiset_len;

    assert(e1.len() == e1.to_multiset().len());
    assert(e2.len() == e2.to_multiset().len());
    assert forall|x: Entry| s.contains(x) <==> t.contains(x) by {
        if s.contains(x) {
            let p = choose|p: int| 0 <= p < s.len() && s[p] == x;
            assert(e1.contains(s[p]));
            assert(e1.to_multiset().count(x) > 0);
            assert(e2.contains(x));
            let q = choose|q: int| 0 <= q < e2.len() && e2[q] == x;
            assert(t.contains(e2[q]));
        }
        if t.contains(x) {
            let p = choose|p: int| 0 <= p < t.len() && t[p] == x;
            assert(e2.contains(t[p]));
            assert(e2.to_multiset().count(x) > 0);
            assert(e1.contains(x));
            let q = choose|q: int| 0 <= q < e1.len() && e1[q] == x;
            assert(s.contains(e1[q]));
        }
    }
    lemma_sorted_same_elements(s, t);
}

/// Reordering the entries does not change the tree: the leaves, and so the
/// root, are the same.
pub proof fn lemma_order_independent(
    t1: AirdropMerkleTree,
    t2: AirdropMerkleTree,
    e1: Seq<Entry>,
    e2: Seq<Entry>,
)
    requires
        t1.is_tree_of(e1),
        t2.is_tree_of(e2),
        e1.to_multiset() == e2.to_multiset(),
    ensures
        t1.leaves() == t2.leaves(),
        t1.merkle_root == t2.merkle_root,
{
    lemma_arrangement_unique(t1.leaves(), t2.leaves(), e1, e2);
}

proof fn lemma_total_remove(s: Seq<Entry>, q: int)
    requires
        0 <= q < s.len(),
    ensures
        total_of(s) == total_of(s.remove(q)) + s[q].amount_unlocked + s[q].amount_locked,
    decreases s.len(),
{
    if q == s.len() - 1 {
        assert(s.remove(q) =~= s.drop_last());
    } else {
        let r = s.remove(q);
        assert(r.drop_last() =~= s.drop_last().remove(q));
        assert(r.last() == s.last());
        lemma_total_remove(s.drop_last(), q);
    }
}

proof fn lemma_total_permutation(e1: Seq<Entry>, e2: Seq<Entry>)
    requires
        e1.to_multiset() == e2.to_multiset(),
    ensures
        total_of(e1) == total_of(e2),
    decreases e1.len(),
{
    broadcast use vstd::seq_lib::to_multiset_contains, vstd::seq_lib::to_multiset_len,
        vstd::seq_lib::to_multiset_remove, vstd::multiset::group_multiset_axioms;

    assert(e1.len() == e1.to_multiset().len());
    assert(e2.len() == e2.to_multiset().len());
    if e1.len() > 0 {
        let x = e1.last();
        let i = e1.len() - 1;
        assert(e1.contains(e1[i]));
        assert(e2.to_multiset().count(x) > 0);
        assert(e2.contains(x));
        let q = choose|q: int| 0 <= q < e2.len() && e2[q] == x;
        assert(e1.remove(i) =~= e1.drop_last());
        assert(e1.remove(i).to_multiset() == e2.remove(q).to_multiset());
        lemma_total_permutation(e1.drop_last(), e2.remove(q));
        lemma_total_remove(e2, q);
    } else {
        assert(e2.len() == 0);
    }
}

/// A value that stands at two positions of a sequence is counted at least twice.
proof fn lemma_two_positions_count(s: Seq<Entry>, i: int, j: int)
    requires
        0 <= i < j < s.len(),
        s[i] == s[j],
    ensures
        s.to_multiset().count(s[i]) >= 2,
{
    broadcast use vstd::seq_lib::to_multiset_contains, vstd::seq_lib::to_multiset_remove,
        vstd::multiset::group_multiset_axioms;

    let r = s.remove(j);
    assert(r[i] == s[i]);
    assert(r.contains(s[i]));
    assert(r.to_multiset().count(s[i]) > 0);
}

/// A value counted at least twice stands at two positions.
proof fn lemma_count_two_positions(s: Seq<Entry>, x: Entry)
    requires
        s.to_multiset().count(x) >= 2,
    ensures
        exists|i: int, j: int| 0 <= i < j < s.len() && s[i] == x && s[j] == x,
{
    broadcast use vstd::seq_lib::to_multiset_contains, vstd::seq_lib::to_multiset_remove,
        vstd::multiset::group_multiset_axioms;

    assert(s.contains(x));
    let q = choose|q: int| 0 <= q < s.len() && s[q] == x;
    let r = s.remove(q);
    assert(r.to_multiset().count(x) > 0);
    assert(r.contains(x));
    let p = choose|p: int| 0 <= p < r.len() && r[p] == x;
    if p < q {
        assert(s[p] == x);
    } else {
        assert(s[p + 1] == x);
    }
}

proof fn lemma_dup_transfers(e1: Seq<Entry>, e2: Seq<Entry>)
    requires
        e1.to_multiset() == e2.to_multiset(),
        has_duplicate_claimant(e1),
    ensures
        has_duplicate_claimant(e2),
{
    broadcast use vstd::seq_lib::to_multiset_contains;

    let (i, j) = choose|i: int, j: int|
        0 <= i < j < e1.len() && #[trigger] e1[i].claimant@ == #[trigger] e1[j].claimant@;
    if e1[i] == e1[j] {
        lemma_two_positions_count(e1, i, j);
        lemma_count_two_positions(e2, e1[i]);
        let (p, q) = choose|p: int, q: int| 0 <= p < q < e2.len() && e2[p] == e1[i] && e2[q] == e1[i];
        assert(e2[p].claimant@ == e2[q].claimant@);
    } else {
        assert(e1.contains(e1[i]) && e1.contains(e1[j]));
        assert(e2.to_multiset().count(e1[i]) > 0 && e2.to_multiset().count(e1[j]) > 0);
        assert(e2.contains(e1[i]) && e2.contains(e1[j]));
        let p = choose|p: int| 0 <= p < e2.len() && e2[p] == e1[i];
        let q = choose|q: int| 0 <= q < e2.len() && e2[q] == e1[j];
        assert(e2[p].claimant@ == e2[q].claimant@);
        if p < q {
            assert(has_duplicate_claimant(e2));
        } else {
            assert(has_duplicate_claimant(e2));
        }
    }
}

/// Reordering the entries does not change the outcome of building a tree:
/// the number of entries, whether a claimant repeats and the sum of all
/// amounts, which decide between success and each error, are the same.
pub proof fn lemma_outcome_order_independent(e1: Seq<Entry>, e2: Seq<Entry>)
    requires
        e1.to_multiset() == e2.to_multiset(),
    ensures
        e1.len() == e2.len(),
        has_duplicate_claimant(e1) == has_duplicate_claimant(e2),
        total_of(e1) == total_of(e2),
{
    broadcast use vstd::seq_lib::to_multiset_len;

    assert(e1.len() == e1.to_multiset().len());
    assert(e2.len() == e2.to_multiset().len());
    if has_duplicate_claimant(e1) {
        lemma_dup_transfers(e1, e2);
    }
    if has_duplicate_claimant(e2) {
        lemma_dup_transfers(e2, e1);
    }
    lemma_total_permutation(e1, e2);
}

} // verus!
