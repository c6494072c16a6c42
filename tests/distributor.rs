use merkle_distributor::airdrop_merkle_tree::AirdropMerkleTree;
use merkle_distributor::error::ErrorCode;
use merkle_distributor::instructions::{
    claim_locked, handle_clawback, handle_new_distributor, handle_withdraw_custody_sol, new_claim,
    set_admin, vested_amount,
};
use merkle_distributor::state::{
    check_distributor_onchain_matches, ClaimStatus, DistributorMismatch, MerkleDistributor,
};
use merkle_distributor::tree_node::TreeNode;
use solana_program::pubkey::Pubkey;
use merkle_distributor::utils::{
    distributor_signer_seeds, get_claim_status_pda, get_merkle_distributor_pda,
};

const A: [u8; 32] = [0xAA; 32];
const B: [u8; 32] = [0xBB; 32];
const C: [u8; 32] = [0xCC; 32];
const CREATOR: [u8; 32] = [0x11; 32];
const START: i64 = 1_000_000;
const END: i64 = 2_000_000;

fn scenario_tree() -> AirdropMerkleTree {
    AirdropMerkleTree::new(vec![
        TreeNode::new(A, 1000000000, 500000000),
        TreeNode::new(B, 2000000000, 0),
        TreeNode::new(C, 0, 1000000000),
    ])
    .unwrap()
}

fn distributor_for(tree: &AirdropMerkleTree) -> MerkleDistributor {
    handle_new_distributor(
        255,
        0,
        tree.merkle_root,
        [0x22; 32],
        [0x33; 32],
        CREATOR,
        tree.max_total_claim,
        tree.max_num_nodes,
        START,
        END,
        START - 10,
    )
    .unwrap()
}

fn first_claim(
    d: &mut MerkleDistributor,
    status: &mut Option<ClaimStatus>,
    tree: &AirdropMerkleTree,
    who: [u8; 32],
) -> Result<u64, ErrorCode> {
    let node = tree.get_node(&who).unwrap();
    new_claim(d, status, who, node.total_unlocked, node.total_locked, node.proof.as_ref().unwrap())
}

#[test]
fn three_entry_scenario() {
    let tree = scenario_tree();
    assert_eq!(tree.max_total_claim, 4500000000);
    assert_eq!(tree.max_num_nodes, 3);
    let mut d = distributor_for(&tree);
    let mut status = None;
    assert_eq!(first_claim(&mut d, &mut status, &tree, A), Ok(1000000000));
    let mut cs = status.unwrap();
    assert_eq!(cs.locked_amount, 500000000);
    let before = d;
    assert_eq!(claim_locked(&mut d, &mut cs, START), Err(ErrorCode::ClaimExpired));
    assert_eq!(d, before);
    assert_eq!(cs.locked_amount_withdrawn, 0);
    assert_eq!(claim_locked(&mut d, &mut cs, END), Ok(500000000));
    assert_eq!(d.total_amount_claimed, 1500000000);
}

#[test]
fn first_claim_is_exactly_once() {
    let tree = scenario_tree();
    let mut d = distributor_for(&tree);
    let mut status = None;
    assert_eq!(first_claim(&mut d, &mut status, &tree, B), Ok(2000000000));
    let after_first = d;
    let saved = status;
    assert_eq!(first_claim(&mut d, &mut status, &tree, B), Err(ErrorCode::AlreadyClaimed));
    assert_eq!(d, after_first);
    assert_eq!(status, saved);
    assert_eq!(d.num_nodes_claimed, 1);
    assert_eq!(d.total_amount_claimed, 2000000000);
}

#[test]
fn invalid_proof_is_rejected() {
    let tree = scenario_tree();
    let mut d = distributor_for(&tree);
    let mut status = None;
    let node = tree.get_node(&A).unwrap();
    let r = new_claim(&mut d, &mut status, A, node.total_unlocked + 1, node.total_locked, node.proof.as_ref().unwrap());
    assert_eq!(r, Err(ErrorCode::InvalidProof));
    assert!(status.is_none());
    let other = tree.get_node(&B).unwrap();
    let r = new_claim(&mut d, &mut status, A, node.total_unlocked, node.total_locked, other.proof.as_ref().unwrap());
    assert_eq!(r, Err(ErrorCode::InvalidProof));
    assert_eq!(d.total_amount_claimed, 0);
}

#[test]
fn vesting_before_start_transfers_nothing() {
    let tree = scenario_tree();
    let mut d = distributor_for(&tree);
    let mut status = None;
    first_claim(&mut d, &mut status, &tree, C).unwrap();
    let mut cs = status.unwrap();
    assert_eq!(claim_locked(&mut d, &mut cs, START - 500), Err(ErrorCode::ClaimExpired));
    assert_eq!(cs.locked_amount_withdrawn, 0);
    assert_eq!(vested_amount(1000, START, END, START - 1), 0);
}

#[test]
fn vesting_midpoint_and_end() {
    let tree = scenario_tree();
    let mut d = distributor_for(&tree);
    let mut status = None;
    first_claim(&mut d, &mut status, &tree, C).unwrap();
    let mut cs = status.unwrap();
    let mid = START + (END - START) / 2;
    assert_eq!(claim_locked(&mut d, &mut cs, mid), Ok(500000000));
    assert_eq!(claim_locked(&mut d, &mut cs, mid), Ok(0));
    assert_eq!(claim_locked(&mut d, &mut cs, END + 100), Ok(500000000));
    assert_eq!(cs.locked_amount_withdrawn, 1000000000);
    assert_eq!(claim_locked(&mut d, &mut cs, END + 200), Ok(0));
    assert_eq!(d.total_amount_claimed, 1000000000);
}

#[test]
fn vested_amount_formula() {
    assert_eq!(vested_amount(1000, 0, 3, 1), 333);
    assert_eq!(vested_amount(1000, 0, 3, 2), 666);
    assert_eq!(vested_amount(u64::MAX, i64::MIN, i64::MAX, 0), 1u64 << 63);
    assert_eq!(vested_amount(7, 10, 20, 25), 7);
}

#[test]
fn counters_never_exceed_maxima() {
    let tree = scenario_tree();
    let mut d = distributor_for(&tree);
    d.max_total_claim = 2500000000;
    let mut sa = None;
    assert_eq!(first_claim(&mut d, &mut sa, &tree, A), Ok(1000000000));
    let mut sb = None;
    assert_eq!(first_claim(&mut d, &mut sb, &tree, B), Err(ErrorCode::ExceededMaxClaim));
    assert!(sb.is_none());
    let mut sa_status = sa.unwrap();
    assert_eq!(claim_locked(&mut d, &mut sa_status, END), Ok(500000000));
    let mut sc = None;
    d.max_num_nodes = 1;
    assert_eq!(first_claim(&mut d, &mut sc, &tree, C), Err(ErrorCode::MaxNodesExceeded));
    assert!(d.total_amount_claimed <= d.max_total_claim);
    assert!(d.num_nodes_claimed <= d.max_num_nodes);
}

#[test]
fn clawback_after_partial_claims() {
    let tree = scenario_tree();
    let mut d = distributor_for(&tree);
    let mut status = None;
    first_claim(&mut d, &mut status, &tree, A).unwrap();
    let remaining = 4500000000 - 1000000000;
    assert_eq!(handle_clawback(&mut d, [0x99; 32], remaining), Err(ErrorCode::Unauthorized));
    assert!(!d.clawed_back);
    assert_eq!(handle_clawback(&mut d, CREATOR, remaining), Ok(remaining));
    assert!(d.clawed_back);
    assert_eq!(handle_clawback(&mut d, CREATOR, 0), Err(ErrorCode::ClawbackAlreadyClaimed));
    let mut cs = status.unwrap();
    assert_eq!(claim_locked(&mut d, &mut cs, END), Err(ErrorCode::ClaimExpired));
    let mut sb = None;
    assert_eq!(first_claim(&mut d, &mut sb, &tree, B), Err(ErrorCode::ClaimExpired));
}

#[test]
fn new_distributor_checks_window() {
    let r = handle_new_distributor(1, 0, [0; 32], A, B, C, 10, 1, 20, 20, 0);
    assert_eq!(r, Err(ErrorCode::StartTimestampAfterEnd));
    let r = handle_new_distributor(1, 0, [0; 32], A, B, C, 10, 1, 20, 30, 20);
    assert_eq!(r, Err(ErrorCode::TimestampsNotInFuture));
    let d = handle_new_distributor(1, 3, [5; 32], A, B, C, 10, 1, 20, 30, 19).unwrap();
    assert_eq!(d.admin, C);
    assert_eq!(d.creator, C);
    assert_eq!(d.version, 3);
    assert_eq!(d.total_amount_claimed, 0);
    assert!(!d.clawed_back);
}

#[test]
fn set_admin_rules() {
    let tree = scenario_tree();
    let mut d = distributor_for(&tree);
    assert_eq!(set_admin(&mut d, A, B), Err(ErrorCode::Unauthorized));
    assert_eq!(set_admin(&mut d, CREATOR, CREATOR), Err(ErrorCode::SameAdmin));
    assert_eq!(set_admin(&mut d, CREATOR, B), Ok(()));
    assert_eq!(d.admin, B);
    assert_eq!(handle_clawback(&mut d, CREATOR, 1), Err(ErrorCode::Unauthorized));
}

#[test]
fn withdraw_custody_needs_funds() {
    assert_eq!(handle_withdraw_custody_sol(5, 6), Err(ErrorCode::InsufficientFunds));
    assert_eq!(handle_withdraw_custody_sol(6, 6), Ok(6));
    assert_eq!(ErrorCode::InsufficientFunds.message(), "Insufficient funds");
}

#[test]
fn onchain_match_check() {
    let tree = scenario_tree();
    let d = distributor_for(&tree);
    assert_eq!(check_distributor_onchain_matches(&d, &tree, START, END, CREATOR), Ok(()));
    assert_eq!(
        check_distributor_onchain_matches(&d, &tree, START, END + 1, CREATOR),
        Err(DistributorMismatch::EndTs)
    );
    assert_eq!(
        check_distributor_onchain_matches(&d, &tree, START, END, A),
        Err(DistributorMismatch::Admin)
    );
    let mut other = d;
    other.root = [0; 32];
    assert_eq!(
        check_distributor_onchain_matches(&other, &tree, START, END, CREATOR).unwrap_err().message(),
        "root mismatch"
    );
}

#[test]
fn distributor_address_matches_ledger_derivation() {
    let program = Pubkey::new_from_array([7; 32]);
    let mint = [0x22u8; 32];
    let (addr, bump) = get_merkle_distributor_pda(&program.to_bytes(), &mint, &CREATOR, 4).unwrap();
    let (expected, expected_bump) = Pubkey::find_program_address(
        &[b"MerkleDistributor".as_ref(), &mint, &CREATOR, &4u64.to_le_bytes()],
        &program,
    );
    assert_eq!(addr, expected.to_bytes());
    assert_eq!(bump, expected_bump);
    assert_ne!(addr, program.to_bytes());
    let seeds = distributor_signer_seeds(&mint, &CREATOR, 4, bump);
    assert_eq!(seeds[0], b"MerkleDistributor".to_vec());
    assert_eq!(seeds[3], 4u64.to_le_bytes().to_vec());
    assert_eq!(seeds[4], vec![bump]);
    let with_bump: Vec<&[u8]> = seeds.iter().map(|s| s.as_slice()).collect();
    assert_eq!(Pubkey::create_program_address(&with_bump, &program).unwrap(), expected);
}

#[test]
fn claim_status_address_matches_ledger_derivation() {
    let program = Pubkey::new_from_array([9; 32]);
    let (addr, bump) = get_claim_status_pda(&program.to_bytes(), &A, &B).unwrap();
    let (expected, expected_bump) =
        Pubkey::find_program_address(&[b"ClaimStatus".as_ref(), &A, &B], &program);
    assert_eq!(addr, expected.to_bytes());
    assert_eq!(bump, expected_bump);
}
