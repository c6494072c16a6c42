use vstd::prelude::*;

use crate::airdrop_merkle_tree::{entries_of, total_of};
use crate::bytes::{bytes_to_vec, push_u64_le, u64_le};
use crate::tree_node::TreeNode;

verus! {

/// Seed tag of a distributor's address: the ASCII text `MerkleDistributor`.
pub const DISTRIBUTOR_SEED: [u8; 17] = [
    77, 101, 114, 107, 108, 101, 68, 105, 115, 116, 114, 105, 98, 117, 116, 111, 114,
];

/// Seed tag of a claim status record's address: the ASCII text `ClaimStatus`.
pub const CLAIM_STATUS_SEED: [u8; 11] = [67, 108, 97, 105, 109, 83, 116, 97, 116, 117, 115];

/// Seed tag of a custody account's address: the ASCII text `SolCustody`.
pub const SOL_CUSTODY_SEED: [u8; 10] = [83, 111, 108, 67, 117, 115, 116, 111, 100, 121];

/// The program-derived address of the given seeds and program, with its bump
/// seed, where one exists.
pub uninterp spec fn program_address_of(seeds: Seq<Seq<u8>>, program_id: [u8; 32]) -> Option<
    ([u8; 32], u8),
>;

/// Relies on `solana_program::pubkey::Pubkey::try_find_program_address`: the
/// first bump seed, counting down from 255, that makes the seeds' address fall
/// off the curve, and that address; `None` if there is none. It is a function
/// of the seeds and the program alone.
#[verifier::external_body]
fn find_program_address(seeds: &Vec<Vec<u8>>, program_id: &[u8; 32]) -> (r: Option<
    ([u8; 32], u8),
>)
    ensures
        r == program_address_of(seeds_view(seeds@), *program_id),
{
    let refs: Vec<&[u8]> = seeds.iter().map(|s| s.as_slice()).collect();
    let program = solana_program::pubkey::Pubkey::new_from_array(*program_id);
    solana_program::pubkey::Pubkey::try_find_program_address(&refs, &program).map(
        |(p, bump)| (p.to_bytes(), bump),
    )
}

/// The byte strings held by a list of seed vectors.
pub open spec fn seeds_view(seeds: Seq<Vec<u8>>) -> Seq<Seq<u8>> {
    Seq::new(seeds.len(), |i: int| seeds[i]@)
}

/// The seeds of a distributor's address.
pub open spec fn distributor_seeds_spec(mint: [u8; 32], creator: [u8; 32], version: u64) -> Seq<
    Seq<u8>,
> {
    seq![DISTRIBUTOR_SEED@, mint@, creator@, u64_le(version)]
}

/// The seeds of a claim status record's address.
pub open spec fn claim_status_seeds_spec(claimant: [u8; 32], distributor: [u8; 32]) -> Seq<
    Seq<u8>,
> {
    seq![CLAIM_STATUS_SEED@, claimant@, distributor@]
}

/// The seeds of a distributor's address: tag, mint, creator and version.
pub fn distributor_seeds(mint: &[u8; 32], creator: &[u8; 32], version: u64) -> (r: Vec<Vec<u8>>)
    ensures
        seeds_view(r@) == distributor_seeds_spec(*mint, *creator, version),
{
    let mut v: Vec<u8> = Vec::new();
    push_u64_le(&mut v, version);
    let mut r: Vec<Vec<u8>> = Vec::new();
    r.push(bytes_to_vec(&DISTRIBUTOR_SEED));
    r.push(bytes_to_vec(mint));
    r.push(bytes_to_vec(creator));
    r.push(v);
    assert(seeds_view(r@) =~= distributor_seeds_spec(*mint, *creator, version));
    r
}

/// The seeds with which the distributor signs for its vault: the seeds of its
/// address followed by its bump seed.
pub fn distributor_signer_seeds(mint: &[u8; 32], creator: &[u8; 32], version: u64, bump: u8) -> (r:
    Vec<Vec<u8>>)
    ensures
        seeds_view(r@) == distributor_seeds_spec(*mint, *creator, version).push(seq![bump]),
{
    let mut r = distributor_seeds(mint, creator, version);
    let mut b: Vec<u8> = Vec::new();
    b.push(bump);
    r.push(b);
    assert(seeds_view(r@) =~= distributor_seeds_spec(*mint, *creator, version).push(seq![bump]));
    r
}

/// The address of the distributor of `mint` made by `creator` under `version`,
/// with its bump seed.
pub fn get_merkle_distributor_pda(
    program_id: &[u8; 32],
    mint: &[u8; 32],
    creator: &[u8; 32],
    version: u64,
) -> (r: Option<([u8; 32], u8)>)
    ensures
        r == program_address_of(distributor_seeds_spec(*mint, *creator, version), *program_id),
{
    let seeds = distributor_seeds(mint, creator, version);
    find_program_address(&seeds, program_id)
}

/// The address of the claim status record of `claimant` under `distributor`,
/// with its bump seed.
pub fn get_claim_status_pda(program_id: &[u8; 32], claimant: &[u8; 32], distributor: &[u8; 32]) -> (r:
    Option<([u8; 32], u8)>)
    ensures
        r == program_address_of(claim_status_seeds_spec(*claimant, *distributor), *program_id),
{
    let mut seeds: Vec<Vec<u8>> = Vec::new();
    seeds.push(bytes_to_vec(&CLAIM_STATUS_SEED));
    seeds.push(bytes_to_vec(claimant));
    seeds.push(bytes_to_vec(distributor));
    assert(seeds_view(seeds@) =~= claim_status_seeds_spec(*claimant, *distributor));
    find_program_address(&seeds, program_id)
}

/// The address of the custody account of `owner`, with its bump seed.
pub fn get_sol_custody_pda(program_id: &[u8; 32], owner: &[u8; 32]) -> (r: Option<([u8; 32], u8)>)
    ensures
        r == program_address_of(seq![SOL_CUSTODY_SEED@, owner@], *program_id),
{
    let mut seeds: Vec<Vec<u8>> = Vec::new();
    seeds.push(bytes_to_vec(&SOL_CUSTODY_SEED));
    seeds.push(bytes_to_vec(owner));
    assert(seeds_view(seeds@) =~= seq![SOL_CUSTODY_SEED@, owner@]);
    find_program_address(&seeds, program_id)
}

/// The sum of the unlocked and locked amounts of all nodes, which must fit in
/// a `u64`.
pub fn get_max_total_claim(nodes: &[TreeNode]) -> (r: u64)
    requires
        total_of(entries_of(nodes@)) <= u64::MAX,
    ensures
        r == total_of(entries_of(nodes@)),
{
    let ghost es = entries_of(nodes@);
    let mut acc: u64 = 0;
    let mut i: usize = 0;
    assert(es.take(0) =~= Seq::<crate::tree_node::Entry>::empty());
    while i < nodes.len()
        invariant
            0 <= i <= nodes@.len(),
            es == entries_of(nodes@),
            total_of(es) <= u64::MAX,
            acc == total_of(es.take(i as int)),
        decreases nodes@.len() - i,
    {
        assert(es.take(i as int + 1).drop_last() =~= es.take(i as int));
        proof {
            crate::airdrop_merkle_tree::lemma_total_prefix_monotone(es, i as int + 1);
        }
        acc = acc + nodes[i].total_unlocked + nodes[i].total_locked;
        i = i + 1;
    }
    assert(es.take(i as int) =~= es);
    acc
}

} // verus!
