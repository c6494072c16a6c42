use vstd::prelude::*;

verus! {

/// A 32-byte digest, as produced by SHA-256.
pub type Hash32 = [u8; 32];

/// The SHA-256 digest of a byte string.
pub uninterp spec fn sha256_of(data: Seq<u8>) -> [u8; 32];

/// Relies on `solana_program::hash::hash`: the SHA-256 digest of `data`,
/// which depends on the bytes alone.
#[verifier::external_body]
pub(crate) fn sha256(data: &Vec<u8>) -> (r: Hash32)
    ensures
        r == sha256_of(data@),
{
    solana_program::hash::hash(data.as_slice()).to_bytes()
}

} // verus!
