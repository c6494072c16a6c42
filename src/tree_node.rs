use vstd::prelude::*;

use crate::bytes::{push_u64_le, u64_le};
use crate::hashing::{sha256, sha256_of, Hash32};

verus! {

/// Domain tag prepended to the bytes of a leaf before hashing.
pub const LEAF_TAG: u8 = 0;

/// One recipient's entitlement, as committed into a tree.
#[derive(Clone, Copy, PartialEq, Eq, Debug)]
pub struct Entry {
    pub claimant: [u8; 32],
    pub amount_unlocked: u64,
    pub amount_locked: u64,
}

/// One step of an inclusion proof: the sibling met on the way to the root,
/// and the side on which it stands.
#[derive(Clone, Copy, PartialEq, Eq, Debug)]
pub struct ProofStep {
    pub sibling: Hash32,
    pub sibling_is_left: bool,
}

/// The claim information for an account.
#[derive(Clone, PartialEq, Eq, Debug)]
pub struct TreeNode {
    /// Public key of the claimant, who signs the claim.
    pub claimant: [u8; 32],
    /// The claimant's proof of inclusion in the Merkle tree.
    pub proof: Option<Vec<ProofStep>>,
    /// Total amount unlocked.
    pub total_unlocked: u64,
    /// Total amount locked.
    pub total_locked: u64,
}

/// One row of the input list, with the claimant written in base 58.
#[derive(Clone, PartialEq, Eq, Debug)]
pub struct CsvEntry {
    /// Base-58 public key of the claimant.
    pub pubkey: String,
    /// Amount unlocked.
    pub amount_unlocked: u64,
    /// Amount locked.
    pub amount_locked: u64,
}

/// The bytes hashed for a leaf: tag, claimant, unlocked and locked amounts.
pub open spec fn leaf_bytes(e: Entry) -> Seq<u8> {
    seq![LEAF_TAG] + e.claimant@ + u64_le(e.amount_unlocked) + u64_le(e.amount_locked)
}

/// The hash of a leaf.
pub open spec fn leaf_hash(e: Entry) -> Hash32 {
    sha256_of(leaf_bytes(e))
}

/// The 32-byte public key that a base-58 string denotes, if any.
pub uninterp spec fn decoded_pubkey(s: Seq<char>) -> Option<[u8; 32]>;

/// Relies on `solana_program::pubkey::Pubkey::from_str`: base-58 decoding of a
/// public key, which fails unless the text decodes to exactly 32 bytes.
#[verifier::external_body]
fn parse_pubkey(s: &String) -> (r: Option<[u8; 32]>)
    ensures
        r == decoded_pubkey(s@),
{
    <solana_program::pubkey::Pubkey as std::str::FromStr>::from_str(s.as_str()).ok().map(
        |p| p.to_bytes(),
    )
}

/// Appends the bytes of a 32-byte array to `out`.
pub fn push_bytes32(out: &mut Vec<u8>, b: &[u8; 32])
    ensures
        final(out)@ == old(out)@ + b@,
{
    let ghost start = out@;
    let mut i: usize = 0;
    while i < 32
        invariant
            0 <= i <= 32,
            b@.len() == 32,
            out@ == start + b@.take(i as int),
        decreases 32 - i,
    {
        out.push(b[i]);
        assert(b@.take(i as int + 1) =~= b@.take(i as int).push(b@[i as int]));
        i = i + 1;
    }
    assert(b@.take(32) =~= b@);
}

impl Entry {
    /// The leaf hash of this entry.
    pub fn hash(&self) -> (r: Hash32)
        ensures
            r == leaf_hash(*self),
    {
        let mut data: Vec<u8> = Vec::new();
        data.push(LEAF_TAG);
        push_bytes32(&mut data, &self.claimant);
        push_u64_le(&mut data, self.amount_unlocked);
        push_u64_le(&mut data, self.amount_locked);
        assert(data@ =~= leaf_bytes(*self));
        sha256(&data)
    }
}

impl TreeNode {
    /// The entitlement that this node commits to.
    pub open spec fn entry(&self) -> Entry {
        Entry {
            claimant: self.claimant,
            amount_unlocked: self.total_unlocked,
            amount_locked: self.total_locked,
        }
    }

    /// A node without a proof for the given entitlement.
    pub fn new(claimant: [u8; 32], total_unlocked: u64, total_locked: u64) -> (r: TreeNode)
        ensures
            r.claimant == claimant,
            r.total_unlocked == total_unlocked,
            r.total_locked == total_locked,
            r.proof is None,
    {
        TreeNode { claimant, proof: None, total_unlocked, total_locked }
    }

    /// The entitlement that this node commits to.
    pub fn to_entry(&self) -> (r: Entry)
        ensures
            r == self.entry(),
    {
        Entry {
            claimant: self.claimant,
            amount_unlocked: self.total_unlocked,
            amount_locked: self.total_locked,
        }
    }

    /// The leaf hash of this node.
    pub fn hash(&self) -> (r: Hash32)
        ensures
            r == leaf_hash(self.entry()),
    {
        self.to_entry().hash()
    }

    /// Total of the locked and unlocked amounts for this claimant.
    pub fn total_amount(&self) -> (r: u64)
        requires
            self.total_unlocked + self.total_locked <= u64::MAX,
        ensures
            r == self.total_unlocked + self.total_locked,
    {
        self.total_unlocked + self.total_locked
    }

    /// Total amount of unlocked tokens for this claimant.
    pub fn amount_unlocked(&self) -> (r: u64)
        ensures
            r == self.total_unlocked,
    {
        self.total_unlocked
    }

    /// Total amount of locked tokens for this claimant.
    pub fn amount_locked(&self) -> (r: u64)
        ensures
            r == self.total_locked,
    {
        self.total_locked
    }

    /// The node for a row of the input list, without a proof; `None` where
    /// the row's key is not a valid public key.
    pub fn from_csv_entry(entry: &CsvEntry) -> (r: Option<TreeNode>)
        ensures
            decoded_pubkey(entry.pubkey@) is None ==> r is None,
            decoded_pubkey(entry.pubkey@) is Some ==> r == Some(
                TreeNode {
                    claimant: decoded_pubkey(entry.pubkey@)->Some_0,
                    proof: None,
                    total_unlocked: entry.amount_unlocked,
                    total_locked: entry.amount_locked,
                },
            ),
    {
        match parse_pubkey(&entry.pubkey) {
            Some(claimant) => Some(
                TreeNode {
                    claimant,
                    proof: None,
                    total_unlocked: entry.amount_unlocked,
                    total_locked: entry.amount_locked,
                },
            ),
            None => None,
        }
    }
}

} // verus!
