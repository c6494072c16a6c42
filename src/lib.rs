//! Token distribution through a Merkle root: an off-ledger tree builder that
//! commits to a set of entitlements, a proof verifier, and the distributor
//! state machine that authorises claims against the committed root.
pub mod bytes;
pub mod hashing;
pub mod error;
pub mod tree_node;
pub mod merkle_tree;
pub mod airdrop_merkle_tree;
pub mod utils;
pub mod state;
pub mod instructions;
