use vstd::prelude::*;

use crate::bytes::keys_equal;
use crate::error::ErrorCode;
use crate::merkle_tree::{proof_valid, verify};
use crate::state::{ClaimStatus, MerkleDistributor};
use crate::tree_node::{Entry, ProofStep};

verus! {

/// The part of `locked` vested at time `now`, under linear vesting over the
/// window from `start` to `end`.
pub open spec fn vested(locked: u64, start: i64, end: i64, now: i64) -> int {
    if now <= start {
        0
    } else if now >= end {
        locked as int
    } else {
        (locked * (now - start)) / (end - start)
    }
}

/// What a claimant may withdraw of the locked amount at time `now`: what has
/// vested, less what was already withdrawn.
pub open spec fn withdrawable(cs: ClaimStatus, start: i64, end: i64, now: i64) -> int {
    let v = vested(cs.locked_amount, start, end, now);
    if v > cs.locked_amount_withdrawn {
        v - cs.locked_amount_withdrawn
    } else {
        0
    }
}

/// The error with which a distributor creation is rejected, if any.
pub open spec fn new_distributor_error(start_ts: i64, end_ts: i64, now: i64) -> Option<ErrorCode> {
    if start_ts >= end_ts {
        Some(ErrorCode::StartTimestampAfterEnd)
    } else if start_ts <= now || end_ts <= now {
        Some(ErrorCode::TimestampsNotInFuture)
    } else {
        None
    }
}

/// The error with which a first claim is rejected, if any.
pub open spec fn new_claim_error(
    d: MerkleDistributor,
    status: Option<ClaimStatus>,
    claimant: [u8; 32],
    amount_unlocked: u64,
    amount_locked: u64,
    proof: Seq<ProofStep>,
) -> Option<ErrorCode> {
    if status is Some {
        Some(ErrorCode::AlreadyClaimed)
    } else if d.clawed_back {
        Some(ErrorCode::ClaimExpired)
    } else if !proof_valid(d.root, Entry { claimant, amount_unlocked, amount_locked }, proof) {
        Some(ErrorCode::InvalidProof)
    } else if d.total_amount_claimed + amount_unlocked > u64::MAX {
        Some(ErrorCode::ArithmeticError)
    } else if d.total_amount_claimed + amount_unlocked > d.max_total_claim {
        Some(ErrorCode::ExceededMaxClaim)
    } else if d.num_nodes_claimed >= d.max_num_nodes {
        Some(ErrorCode::MaxNodesExceeded)
    } else {
        None
    }
}

/// The error with which a claim of the locked amount is rejected, if any.
pub open spec fn claim_locked_error(d: MerkleDistributor, cs: ClaimStatus, now: i64) -> Option<
    ErrorCode,
> {
    let w = withdrawable(cs, d.start_ts, d.end_ts, now);
    if d.clawed_back {
        Some(ErrorCode::ClaimExpired)
    } else if now <= d.start_ts && cs.locked_amount_withdrawn == 0 {
        Some(ErrorCode::ClaimExpired)
    } else if d.total_amount_claimed + w > u64::MAX {
        Some(ErrorCode::ArithmeticError)
    } else if d.total_amount_claimed + w > d.max_total_claim {
        Some(ErrorCode::ExceededMaxClaim)
    } else {
        None
    }
}

/// The error with which a clawback is rejected, if any.
pub open spec fn clawback_error(d: MerkleDistributor, admin: [u8; 32]) -> Option<ErrorCode> {
    if admin@ != d.admin@ {
        Some(ErrorCode::Unauthorized)
    } else if d.clawed_back {
        Some(ErrorCode::ClawbackAlreadyClaimed)
    } else {
        None
    }
}

/// The error with which an admin change is rejected, if any.
pub open spec fn set_admin_error(d: MerkleDistributor, admin: [u8; 32], new_admin: [u8; 32]) -> Option<
    ErrorCode,
> {
    if admin@ != d.admin@ {
        Some(ErrorCode::Unauthorized)
    } else if new_admin@ == d.admin@ {
        Some(ErrorCode::SameAdmin)
    } else {
        None
    }
}

/// The vested part of `locked` at time `now`, computed without overflow.
pub fn vested_amount(locked: u64, start: i64, end: i64, now: i64) -> (r: u64)
    requires
        start < end,
    ensures
        r == vested(locked, start, end, now),
        r <= locked,
{
    if now <= start {
        0
    } else if now >= end {
        locked
    } else {
        let elapsed: u128 = (now as i128 - start as i128) as u128;
        let duration: u128 = (end as i128 - start as i128) as u128;
        assert(elapsed < duration && duration <= u64::MAX);
        proof {
            let l = locked as int;
            let e = elapsed as int;
            let d = duration as int;
            assert(l * e <= l * d) by {
                vstd::arithmetic::mul::lemma_mul_inequality(e, d, l);
                assert(e * l == l * e && d * l == l * d) by (nonlinear_arith);
            }
            assert(l * d <= (u64::MAX as int) * (u64::MAX as int)) by (nonlinear_arith)
                requires
                    0 <= l <= u64::MAX,
                    0 < d <= u64::MAX,
            ;
            vstd::arithmetic::div_mod::lemma_div_is_ordered(l * e, l * d, d);
            vstd::arithmetic::div_mod::lemma_div_by_multiple(l, d);
        }
        let product: u128 = locked as u128 * elapsed;
        let v: u128 = product / duration;
        v as u64
    }
}

/// Creates a distributor. Its vesting window must not be empty and must lie
/// in the future of `now`; its admin is its creator.
pub fn handle_new_distributor(
    bump: u8,
    version: u64,
    root: [u8; 32],
    mint: [u8; 32],
    token_vault: [u8; 32],
    creator: [u8; 32],
    max_total_claim: u64,
    max_num_nodes: u64,
    start_vesting_ts: i64,
    end_vesting_ts: i64,
    now: i64,
) -> (r: Result<MerkleDistributor, ErrorCode>)
    ensures
        new_distributor_error(start_vesting_ts, end_vesting_ts, now) is Some ==> r == Err::<
            MerkleDistributor,
            ErrorCode,
        >(new_distributor_error(start_vesting_ts, end_vesting_ts, now)->Some_0),
        new_distributor_error(start_vesting_ts, end_vesting_ts, now) is None ==> r == Ok::<
            MerkleDistributor,
            ErrorCode,
        >(
            (MerkleDistributor {
                bump,
                version,
                root,
                mint,
                token_vault,
                max_total_claim,
                max_num_nodes,
                total_amount_claimed: 0,
                num_nodes_claimed: 0,
                start_ts: start_vesting_ts,
                end_ts: end_vesting_ts,
                creator,
                admin: creator,
                clawed_back: false,
            }),
        ),
        r is Ok ==> r->Ok_0.wf(),
{
    if start_vesting_ts >= end_vesting_ts {
        return Err(ErrorCode::StartTimestampAfterEnd);
    }
    if !(start_vesting_ts > now && end_vesting_ts > now) {
        return Err(ErrorCode::TimestampsNotInFuture);
    }
    Ok(
        MerkleDistributor {
            bump,
            version,
            root,
            mint,
            token_vault,
            max_total_claim,
            max_num_nodes,
            total_amount_claimed: 0,
            num_nodes_claimed: 0,
            start_ts: start_vesting_ts,
            end_ts: end_vesting_ts,
            creator,
            admin: creator,
            clawed_back: false,
        },
    )
}

/// A claimant's first claim: checks the proof of the entitlement against the
/// root, records the locked amount, and hands out the unlocked amount, which
/// is returned. `claim_status` is the claimant's record, absent before.
pub fn new_claim(
    distributor: &mut MerkleDistributor,
    claim_status: &mut Option<ClaimStatus>,
    claimant: [u8; 32],
    amount_unlocked: u64,
    amount_locked: u64,
    proof: &Vec<ProofStep>,
) -> (r: Result<u64, ErrorCode>)
    requires
        old(distributor).wf(),
    ensures
        final(distributor).wf(),
        ({
            let err = new_claim_error(
                *old(distributor),
                *old(claim_status),
                claimant,
                amount_unlocked,
                amount_locked,
                proof@,
            );
            &&& err is Some ==> r == Err::<u64, ErrorCode>(err->Some_0) && *final(distributor)
                == *old(distributor) && *final(claim_status) == *old(claim_status)
            &&& err is None ==> r == Ok::<u64, ErrorCode>(amount_unlocked) && *final(claim_status)
                == Some(
                (ClaimStatus {
                    claimant,
                    locked_amount: amount_locked,
                    locked_amount_withdrawn: 0,
                    unlocked_amount_claimed: true,
                }),
            ) && *final(distributor) == (MerkleDistributor {
                total_amount_claimed: (old(distributor).total_amount_claimed
                    + amount_unlocked) as u64,
                num_nodes_claimed: (old(distributor).num_nodes_claimed + 1) as u64,
                ..*old(distributor)
            })
        }),
{
    if claim_status.is_some() {
        return Err(ErrorCode::AlreadyClaimed);
    }
    if distributor.clawed_back {
        return Err(ErrorCode::ClaimExpired);
    }
    if !verify(&distributor.root, &claimant, amount_unlocked, amount_locked, proof) {
        return Err(ErrorCode::InvalidProof);
    }
    let total = match distributor.total_amount_claimed.checked_add(amount_unlocked) {
        Some(t) => t,
        None => {
            return Err(ErrorCode::ArithmeticError);
        },
    };
    if total > distributor.max_total_claim {
        return Err(ErrorCode::ExceededMaxClaim);
    }
    if distributor.num_nodes_claimed >= distributor.max_num_nodes {
        return Err(ErrorCode::MaxNodesExceeded);
    }
    distributor.total_amount_claimed = total;
    distributor.num_nodes_claimed = distributor.num_nodes_claimed + 1;
    *claim_status = Some(
        ClaimStatus {
            claimant,
            locked_amount: amount_locked,
            locked_amount_withdrawn: 0,
            unlocked_amount_claimed: true,
        },
    );
    Ok(amount_unlocked)
}

/// Hands out what has vested of the locked amount at time `now` and was not
/// withdrawn before; that amount, which may be zero, is returned.
pub fn claim_locked(
    distributor: &mut MerkleDistributor,
    claim_status: &mut ClaimStatus,
    now: i64,
) -> (r: Result<u64, ErrorCode>)
    requires
        old(distributor).wf(),
        old(claim_status).wf(),
    ensures
        final(distributor).wf(),
        final(claim_status).wf(),
        ({
            let err = claim_locked_error(*old(distributor), *old(claim_status), now);
            let w = withdrawable(
                *old(claim_status),
                old(distributor).start_ts,
                old(distributor).end_ts,
                now,
            );
            &&& err is Some ==> r == Err::<u64, ErrorCode>(err->Some_0) && *final(distributor)
                == *old(distributor) && *final(claim_status) == *old(claim_status)
            &&& err is None ==> r == Ok::<u64, ErrorCode>(w as u64) && *final(claim_status) == (
            ClaimStatus {
                locked_amount_withdrawn: (old(claim_status).locked_amount_withdrawn + w) as u64,
                ..*old(claim_status)
            }) && *final(distributor) == (MerkleDistributor {
                total_amount_claimed: (old(distributor).total_amount_claimed + w) as u64,
                ..*old(distributor)
            })
        }),
{
    if distributor.clawed_back {
        return Err(ErrorCode::ClaimExpired);
    }
    if now <= distributor.start_ts && claim_status.locked_amount_withdrawn == 0 {
        return Err(ErrorCode::ClaimExpired);
    }
    let vested_now = vested_amount(
        claim_status.locked_amount,
        distributor.start_ts,
        distributor.end_ts,
        now,
    );
    let amount: u64 = if vested_now > claim_status.locked_amount_withdrawn {
        vested_now - claim_status.locked_amount_withdrawn
    } else {
        0
    };
    let total = match distributor.total_amount_claimed.checked_add(amount) {
        Some(t) => t,
        None => {
            return Err(ErrorCode::ArithmeticError);
        },
    };
    if total > distributor.max_total_claim {
        return Err(ErrorCode::ExceededMaxClaim);
    }
    distributor.total_amount_claimed = total;
    claim_status.locked_amount_withdrawn = claim_status.locked_amount_withdrawn + amount;
    Ok(amount)
}

/// The admin takes back the vault's whole balance, `vault_balance`, which is
/// returned; the distributor is then clawed back for good.
pub fn handle_clawback(distributor: &mut MerkleDistributor, admin: [u8; 32], vault_balance: u64) -> (r:
    Result<u64, ErrorCode>)
    requires
        old(distributor).wf(),
    ensures
        final(distributor).wf(),
        clawback_error(*old(distributor), admin) is Some ==> r == Err::<u64, ErrorCode>(
            clawback_error(*old(distributor), admin)->Some_0,
        ) && *final(distributor) == *old(distributor),
        clawback_error(*old(distributor), admin) is None ==> r == Ok::<u64, ErrorCode>(
            vault_balance,
        ) && *final(distributor) == (MerkleDistributor { clawed_back: true, ..*old(distributor) }),
{
    if !keys_equal(&admin, &distributor.admin) {
        return Err(ErrorCode::Unauthorized);
    }
    if distributor.clawed_back {
        return Err(ErrorCode::ClawbackAlreadyClaimed);
    }
    distributor.clawed_back = true;
    Ok(vault_balance)
}

/// The current admin hands administration to `new_admin`.
pub fn set_admin(distributor: &mut MerkleDistributor, admin: [u8; 32], new_admin: [u8; 32]) -> (r:
    Result<(), ErrorCode>)
    requires
        old(distributor).wf(),
    ensures
        final(distributor).wf(),
        set_admin_error(*old(distributor), admin, new_admin) is Some ==> r == Err::<(), ErrorCode>(
            set_admin_error(*old(distributor), admin, new_admin)->Some_0,
        ) && *final(distributor) == *old(distributor),
        set_admin_error(*old(distributor), admin, new_admin) is None ==> r == Ok::<(), ErrorCode>(())
            && *final(distributor) == (MerkleDistributor { admin: new_admin, ..*old(distributor) }),
{
    if !keys_equal(&admin, &distributor.admin) {
        return Err(ErrorCode::Unauthorized);
    }
    if keys_equal(&new_admin, &distributor.admin) {
        return Err(ErrorCode::SameAdmin);
    }
    distributor.admin = new_admin;
    Ok(())
}

/// The owner withdraws `amount_lamports` from a custody account holding
/// `custody_lamports`; the amount to move is returned.
pub fn handle_withdraw_custody_sol(custody_lamports: u64, amount_lamports: u64) -> (r: Result<
    u64,
    ErrorCode,
>)
    ensures
        custody_lamports < amount_lamports ==> r == Err::<u64, ErrorCode>(
            ErrorCode::InsufficientFunds,
        ),
        custody_lamports >= amount_lamports ==> r == Ok::<u64, ErrorCode>(amount_lamports),
{
    if custody_lamports < amount_lamports {
        return Err(ErrorCode::InsufficientFunds);
    }
    Ok(amount_lamports)
}

/// A first claim is made at most once: once the claimant's record exists,
/// every further first claim is rejected with `AlreadyClaimed`, so nothing is
/// handed out twice.
pub proof fn lemma_first_claim_exactly_once(
    d: MerkleDistributor,
    status: ClaimStatus,
    claimant: [u8; 32],
    amount_unlocked: u64,
    amount_locked: u64,
    proof: Seq<ProofStep>,
)
    ensures
        new_claim_error(d, Some(status), claimant, amount_unlocked, amount_locked, proof) == Some(
            ErrorCode::AlreadyClaimed,
        ),
{
}

/// The vesting schedule: nothing is withdrawable up to the start of the
/// window, the whole remainder from its end on, and at the midpoint of a
/// window of even length exactly half of the locked amount has vested.
pub proof fn lemma_vesting_schedule(cs: ClaimStatus, start: i64, end: i64, now: i64)
    requires
        start < end,
        cs.wf(),
    ensures
        0 <= vested(cs.locked_amount, start, end, now) <= cs.locked_amount,
        now <= start ==> withdrawable(cs, start, end, now) == 0,
        now >= end ==> withdrawable(cs, start, end, now) == cs.locked_amount
            - cs.locked_amount_withdrawn,
        (end - start) % 2 == 0 && now == start + (end - start) / 2 ==> vested(
            cs.locked_amount,
            start,
            end,
            now,
        ) == cs.locked_amount / 2,
{
    let l = cs.locked_amount as int;
    let d = end - start;
    if start < now < end {
        let e = now - start;
        assert(l * e <= l * d) by {
            vstd::arithmetic::mul::lemma_mul_inequality(e, d, l);
            assert(e * l == l * e && d * l == l * d) by (nonlinear_arith);
        }
        assert(0 <= l * e) by (nonlinear_arith)
            requires
                0 <= l,
                0 < e,
        ;
        vstd::arithmetic::div_mod::lemma_div_is_ordered(l * e, l * d, d);
        vstd::arithmetic::div_mod::lemma_div_by_multiple(l, d);
        vstd::arithmetic::div_mod::lemma_div_pos_is_pos(l * e, d);
        if d % 2 == 0 && e == d / 2 {
            let k = d / 2;
            assert(d == k * 2);
            vstd::arithmetic::div_mod::lemma_div_denominator(l * k, k, 2);
            vstd::arithmetic::div_mod::lemma_div_by_multiple(l, k);
        }
    }
}

/// Once clawed back, a distributor refuses a second clawback, and any claim.
pub proof fn lemma_clawback_final(
    d: MerkleDistributor,
    admin: [u8; 32],
    status: Option<ClaimStatus>,
    cs: ClaimStatus,
    claimant: [u8; 32],
    amount_unlocked: u64,
    amount_locked: u64,
    proof: Seq<ProofStep>,
    now: i64,
)
    requires
        d.clawed_back,
    ensures
        admin@ == d.admin@ ==> clawback_error(d, admin) == Some(
            ErrorCode::ClawbackAlreadyClaimed,
        ),
        clawback_error(d, admin) is Some,
        new_claim_error(d, status, claimant, amount_unlocked, amount_locked, proof) is Some,
        claim_locked_error(d, cs, now) == Some(ErrorCode::ClaimExpired),
{
}

} // verus!
