use vstd::prelude::*;

use crate::airdrop_merkle_tree::AirdropMerkleTree;
use crate::bytes::keys_equal;

verus! {

/// The ledger record of one distribution campaign.
#[derive(Clone, Copy, PartialEq, Eq, Debug)]
pub struct MerkleDistributor {
    /// Bump seed of the distributor's address.
    pub bump: u8,
    /// Version of the airdrop.
    pub version: u64,
    /// The 256-bit Merkle root.
    pub root: [u8; 32],
    /// The mint to distribute.
    pub mint: [u8; 32],
    /// The token account that holds the tokens to distribute.
    pub token_vault: [u8; 32],
    /// Maximum number of tokens that can ever be claimed from this distributor.
    pub max_total_claim: u64,
    /// Maximum number of nodes that can ever be claimed from this distributor.
    pub max_num_nodes: u64,
    /// Total amount of tokens that have been claimed.
    pub total_amount_claimed: u64,
    /// Number of nodes that have been claimed.
    pub num_nodes_claimed: u64,
    /// Start of the vesting window, as a unix timestamp.
    pub start_ts: i64,
    /// End of the vesting window, as a unix timestamp.
    pub end_ts: i64,
    /// The account that created the distributor.
    pub creator: [u8; 32],
    /// The account that may claw back and hand over administration.
    pub admin: [u8; 32],
    /// Whether the vault was clawed back.
    pub clawed_back: bool,
}

impl MerkleDistributor {
    /// The counters stay within their maxima and the vesting window is not empty.
    pub open spec fn wf(&self) -> bool {
        &&& self.total_amount_claimed <= self.max_total_claim
        &&& self.num_nodes_claimed <= self.max_num_nodes
        &&& self.start_ts < self.end_ts
    }
}

/// The ledger record of one claimant's withdrawals from one distributor.
#[derive(Clone, Copy, PartialEq, Eq, Debug)]
pub struct ClaimStatus {
    /// The claimant.
    pub claimant: [u8; 32],
    /// The locked amount that the claimant's proof attests.
    pub locked_amount: u64,
    /// How much of the locked amount has been withdrawn.
    pub locked_amount_withdrawn: u64,
    /// Whether the unlocked amount was claimed.
    pub unlocked_amount_claimed: bool,
}

impl ClaimStatus {
    /// No more than the locked amount has been withdrawn.
    pub open spec fn wf(&self) -> bool {
        self.locked_amount_withdrawn <= self.locked_amount
    }
}

/// The first field in which a distributor found on the ledger differs from
/// the one about to be created.
#[derive(PartialEq, Eq, Structural, Clone, Copy, Debug)]
pub enum DistributorMismatch {
    Root,
    MaxTotalClaim,
    MaxNumNodes,
    StartTs,
    EndTs,
    Admin,
}

impl DistributorMismatch {
    /// A human-readable message for the mismatch.
    pub fn message(&self) -> (r: String) {
        let s: &str = match self {
            DistributorMismatch::Root => "root mismatch",
            DistributorMismatch::MaxTotalClaim => "max_total_claim mismatch",
            DistributorMismatch::MaxNumNodes => "max_num_nodes mismatch",
            DistributorMismatch::StartTs => "start_ts mismatch",
            DistributorMismatch::EndTs => "end_ts mismatch",
            DistributorMismatch::Admin => "admin mismatch",
        };
        s.to_string()
    }
}

/// Checks that a distributor already on the ledger is the one that the tree,
/// the vesting window and the admin describe, field by field in a fixed order.
pub fn check_distributor_onchain_matches(
    distributor: &MerkleDistributor,
    merkle_tree: &AirdropMerkleTree,
    start_vesting_ts: i64,
    end_vesting_ts: i64,
    admin: [u8; 32],
) -> (r: Result<(), DistributorMismatch>)
    ensures
        r == if distributor.root@ != merkle_tree.merkle_root@ {
            Err(DistributorMismatch::Root)
        } else if distributor.max_total_claim != merkle_tree.max_total_claim {
            Err(DistributorMismatch::MaxTotalClaim)
        } else if distributor.max_num_nodes != merkle_tree.max_num_nodes {
            Err(DistributorMismatch::MaxNumNodes)
        } else if distributor.start_ts != start_vesting_ts {
            Err(DistributorMismatch::StartTs)
        } else if distributor.end_ts != end_vesting_ts {
            Err(DistributorMismatch::EndTs)
        } else if distributor.admin@ != admin@ {
            Err(DistributorMismatch::Admin)
        } else {
            Ok(())
        },
{
    if !keys_equal(&distributor.root, &merkle_tree.merkle_root) {
        return Err(DistributorMismatch::Root);
    }
    if distributor.max_total_claim != merkle_tree.max_total_claim {
        return Err(DistributorMismatch::MaxTotalClaim);
    }
    if distributor.max_num_nodes != merkle_tree.max_num_nodes {
        return Err(DistributorMismatch::MaxNumNodes);
    }
    if distributor.start_ts != start_vesting_ts {
        return Err(DistributorMismatch::StartTs);
    }
    if distributor.end_ts != end_vesting_ts {
        return Err(DistributorMismatch::EndTs);
    }
    if !keys_equal(&distributor.admin, &admin) {
        return Err(DistributorMismatch::Admin);
    }
    Ok(())
}

} // verus!
