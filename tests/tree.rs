use merkle_distributor::airdrop_merkle_tree::AirdropMerkleTree;
use merkle_distributor::error::MerkleTreeError;
use merkle_distributor::merkle_tree::{get_proof, hash_node, verify, MerkleTree};
use merkle_distributor::tree_node::{CsvEntry, Entry, TreeNode};
use merkle_distributor::utils::get_max_total_claim;

fn key(b: u8) -> [u8; 32] {
    let mut k = [0u8; 32];
    k[0] = b;
    k[31] = b.wrapping_mul(7);
    k
}

fn nodes(n: u8) -> Vec<TreeNode> {
    (0..n)
        .map(|i| TreeNode::new(key(200 - i), 1000 + i as u64, 10 * i as u64))
        .collect()
}

fn all_proofs_verify(tree: &AirdropMerkleTree) -> bool {
    tree.tree_nodes.iter().all(|n| {
        verify(
            &tree.merkle_root,
            &n.claimant,
            n.total_unlocked,
            n.total_locked,
            n.proof.as_ref().unwrap(),
        )
    })
}

#[test]
fn test_get_max_total_claim_no_overflow() {
    let nodes = vec![
        TreeNode::new(key(1), 100, 200),
        TreeNode::new(key(2), 300, 400),
    ];
    let total = get_max_total_claim(&nodes);
    assert_eq!(total, 1000);
}

#[test]
fn every_proof_verifies_for_sizes_one_to_nine() {
    for n in 1..=9u8 {
        let tree = AirdropMerkleTree::new(nodes(n)).unwrap();
        assert_eq!(tree.max_num_nodes, n as u64);
        assert!(all_proofs_verify(&tree), "size {n}");
    }
}

#[test]
fn leaves_are_sorted_by_claimant() {
    let tree = AirdropMerkleTree::new(nodes(6)).unwrap();
    for w in tree.tree_nodes.windows(2) {
        assert!(w[0].claimant < w[1].claimant);
    }
}

#[test]
fn reordering_entries_keeps_root() {
    let a = nodes(7);
    let mut b = a.clone();
    b.reverse();
    b.swap(1, 4);
    let ta = AirdropMerkleTree::new(a).unwrap();
    let tb = AirdropMerkleTree::new(b).unwrap();
    assert_eq!(ta.merkle_root, tb.merkle_root);
    assert_eq!(ta.tree_nodes, tb.tree_nodes);
}

#[test]
fn flipped_bit_in_proof_fails() {
    let tree = AirdropMerkleTree::new(nodes(5)).unwrap();
    for n in &tree.tree_nodes {
        let proof = n.proof.clone().unwrap();
        for s in 0..proof.len() {
            for byte in [0usize, 17, 31] {
                let mut bad = proof.clone();
                bad[s].sibling[byte] ^= 1;
                assert!(!verify(&tree.merkle_root, &n.claimant, n.total_unlocked, n.total_locked, &bad));
            }
            let mut side = proof.clone();
            side[s].sibling_is_left = !side[s].sibling_is_left;
            assert!(!verify(&tree.merkle_root, &n.claimant, n.total_unlocked, n.total_locked, &side));
        }
    }
}

#[test]
fn other_claimants_proof_fails() {
    let tree = AirdropMerkleTree::new(nodes(4)).unwrap();
    let a = &tree.tree_nodes[0];
    let b = &tree.tree_nodes[1];
    assert!(!verify(&tree.merkle_root, &a.claimant, a.total_unlocked, a.total_locked, b.proof.as_ref().unwrap()));
    assert!(!verify(&tree.merkle_root, &a.claimant, a.total_unlocked + 1, a.total_locked, a.proof.as_ref().unwrap()));
}

#[test]
fn max_total_claim_is_sum_of_amounts() {
    let tree = AirdropMerkleTree::new(nodes(4)).unwrap();
    let expected: u64 = (0..4u64).map(|i| 1000 + i + 10 * i).sum();
    assert_eq!(tree.max_total_claim, expected);
}

#[test]
fn overflowing_total_fails_construction() {
    let large = u64::MAX / 2;
    let list = vec![TreeNode::new(key(1), large, large), TreeNode::new(key(2), large, large)];
    assert_eq!(AirdropMerkleTree::new(list).err(), Some(MerkleTreeError::ArithmeticOverflow));
}

#[test]
fn empty_entries_fail() {
    assert_eq!(AirdropMerkleTree::new(vec![]).err(), Some(MerkleTreeError::EmptyEntries));
}

#[test]
fn duplicate_claimant_fails() {
    let list = vec![
        TreeNode::new(key(1), 1, 2),
        TreeNode::new(key(2), 3, 4),
        TreeNode::new(key(1), 5, 6),
    ];
    assert_eq!(AirdropMerkleTree::new(list).err(), Some(MerkleTreeError::DuplicateClaimant));
}

#[test]
fn single_leaf_root_is_leaf_hash() {
    let n = TreeNode::new(key(3), 5, 9);
    let h = n.hash();
    let tree = AirdropMerkleTree::new(vec![n]).unwrap();
    assert_eq!(tree.merkle_root, h);
    assert!(tree.tree_nodes[0].proof.as_ref().unwrap().is_empty());
}

#[test]
fn odd_leaf_is_carried_up() {
    let leaves = vec![[1u8; 32], [2u8; 32], [3u8; 32]];
    let tree = MerkleTree::new(leaves.clone());
    let left = hash_node(&leaves[0], &leaves[1]);
    assert_eq!(tree.root(), hash_node(&left, &leaves[2]));
    let proof = get_proof(&tree, 2);
    assert_eq!(proof.len(), 1);
    assert_eq!(proof[0].sibling, left);
    assert!(proof[0].sibling_is_left);
}

#[test]
fn node_hash_is_tagged_sha256() {
    let h = hash_node(&[0u8; 32], &[0u8; 32]);
    assert_eq!(
        h,
        [
            174, 7, 152, 208, 236, 174, 210, 183, 120, 237, 222, 191, 24, 240, 113, 165, 97, 197,
            54, 88, 192, 94, 118, 206, 222, 204, 39, 202, 251, 219, 197, 119
        ]
    );
}

#[test]
fn leaf_hash_is_tagged_sha256() {
    let e = Entry { claimant: [7u8; 32], amount_unlocked: 5, amount_locked: 9 };
    assert_eq!(
        e.hash(),
        [
            238, 27, 156, 137, 87, 118, 208, 205, 42, 84, 146, 44, 39, 79, 203, 30, 16, 225, 242,
            226, 26, 200, 148, 214, 98, 196, 45, 226, 0, 110, 221, 12
        ]
    );
}

#[test]
fn csv_entry_with_valid_key_converts() {
    let text = "R1BxX5NpJzjFJNNW5Fttn4asjjMTvqrgc21i6YivCds";
    let entry = CsvEntry { pubkey: text.to_string(), amount_unlocked: 1000000000, amount_locked: 500000000 };
    let node = TreeNode::from_csv_entry(&entry).unwrap();
    let expected = <solana_program::pubkey::Pubkey as std::str::FromStr>::from_str(text).unwrap();
    assert_eq!(node.claimant, expected.to_bytes());
    assert_eq!(node.amount_unlocked(), 1000000000);
    assert_eq!(node.amount_locked(), 500000000);
    assert_eq!(node.total_amount(), 1500000000);
    assert!(node.proof.is_none());
}

#[test]
fn csv_entry_with_bad_key_is_rejected() {
    let entry = CsvEntry { pubkey: "not-a-key".to_string(), amount_unlocked: 1, amount_locked: 1 };
    assert!(TreeNode::from_csv_entry(&entry).is_none());
    assert_eq!(
        AirdropMerkleTree::new_from_entries(&vec![entry]).err(),
        Some(MerkleTreeError::InvalidPubkey)
    );
}

#[test]
fn tree_from_csv_entries_finds_nodes() {
    let keys = [
        "R1BxX5NpJzjFJNNW5Fttn4asjjMTvqrgc21i6YivCds",
        "11111111111111111111111111111111",
        "TokenkegQfeZyiNwAJbNbGKPFXCWuBvf9Ss623VQ5DA",
    ];
    let entries: Vec<CsvEntry> = keys
        .iter()
        .enumerate()
        .map(|(i, k)| CsvEntry { pubkey: k.to_string(), amount_unlocked: i as u64, amount_locked: 1 })
        .collect();
    let tree = AirdropMerkleTree::new_from_entries(&entries).unwrap();
    assert_eq!(tree.max_total_claim, 6);
    let k = <solana_program::pubkey::Pubkey as std::str::FromStr>::from_str(keys[2]).unwrap().to_bytes();
    let node = tree.get_node(&k).unwrap();
    assert_eq!(node.total_unlocked, 2);
    assert!(tree.get_node(&[9u8; 32]).is_none());
    assert!(all_proofs_verify(&tree));
}
