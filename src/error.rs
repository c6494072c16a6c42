use vstd::prelude::*;

verus! {

/// Why a Merkle tree could not be built from a list of entries.
#[derive(PartialEq, Eq, Structural, Clone, Copy, Debug)]
pub enum MerkleTreeError {
    /// The entry list was empty.
    EmptyEntries,
    /// Two entries name the same claimant.
    DuplicateClaimant,
    /// The sum of all amounts does not fit in a `u64`.
    ArithmeticOverflow,
    /// A claimant's key is not a valid base-58 public key.
    InvalidPubkey,
}

/// Why a distributor operation was rejected. A rejected operation changes no state.
#[derive(PartialEq, Eq, Structural, Clone, Copy, Debug)]
pub enum ErrorCode {
    /// Insufficient unlocked tokens.
    InsufficientUnlockedTokens,
    /// Insufficient funds in a custody account.
    InsufficientFunds,
    /// The Merkle proof does not lead to the distributor's root.
    InvalidProof,
    /// The claim would take the total claimed past the maximum claim amount.
    ExceededMaxClaim,
    /// The claim would take the claimed node count past the maximum node count.
    MaxNodesExceeded,
    /// The signer is not authorised to execute this instruction.
    Unauthorized,
    /// A token account's owner did not match the intended owner.
    OwnerMismatch,
    /// The vault was already clawed back.
    ClawbackAlreadyClaimed,
    /// The new admin is the current admin.
    SameAdmin,
    /// Nothing can be claimed: the vesting window has not started, or the
    /// distributor was clawed back.
    ClaimExpired,
    /// An arithmetic operation overflowed.
    ArithmeticError,
    /// The start timestamp is not before the end timestamp.
    StartTimestampAfterEnd,
    /// A timestamp is not in the future.
    TimestampsNotInFuture,
    /// The claimant already made a first claim.
    AlreadyClaimed,
}

impl ErrorCode {
    /// A human-readable message for the error.
    pub fn message(&self) -> (r: String) {
        let s: &str = match self {
            ErrorCode::InsufficientUnlockedTokens => "Insufficient unlocked tokens",
            ErrorCode::InsufficientFunds => "Insufficient funds",
            ErrorCode::InvalidProof => "Invalid Merkle proof.",
            ErrorCode::ExceededMaxClaim => "Exceeded maximum claim amount",
            ErrorCode::MaxNodesExceeded => "Exceeded maximum node count",
            ErrorCode::Unauthorized => "Account is not authorized to execute this instruction",
            ErrorCode::OwnerMismatch => "Token account owner did not match intended owner",
            ErrorCode::ClawbackAlreadyClaimed => "Clawback already claimed",
            ErrorCode::SameAdmin => "New and old admin are identical",
            ErrorCode::ClaimExpired => "Claim window expired",
            ErrorCode::ArithmeticError => "Arithmetic Error (overflow/underflow)",
            ErrorCode::StartTimestampAfterEnd => "Start Timestamp cannot be after end Timestamp",
            ErrorCode::TimestampsNotInFuture => "Timestamps cannot be in the past",
            ErrorCode::AlreadyClaimed => "Claim already made",
        };
        s.to_string()
    }
}

} // verus!
