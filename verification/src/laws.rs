//! Proved laws of the registry, stated over the state-transition model of
//! `crate::model` — the same spec functions that the contracts of the
//! executable operations are written against.

use vstd::prelude::*;

use crate::model::{create_err, create_next, revoke_err, revoke_next, transfer_err, transfer_next};
use crate::model::{ClaimRecord, Error};

verus! {

/// Idempotent absence: revoking a claim that is not registered reports
/// `NoSuchClaim`, whatever the claim bytes and whoever the caller, and
/// leaves the state unchanged.
pub proof fn lemma_idempotent_absence(m: Map<Seq<u8>, ClaimRecord>, caller: u64, claim: Seq<u8>)
    requires
        !m.contains_key(claim),
    ensures
        revoke_err(m, caller, claim) == Some(Error::NoSuchClaim),
        revoke_next(m, caller, claim) == m,
{
}

/// Create uniqueness: once a creation of `claim` has succeeded, a further
/// creation attempt — by the same caller or any other, at any height —
/// reports `AlreadyClaimed` and changes nothing, until the claim is
/// revoked.
pub proof fn lemma_create_uniqueness(
    m: Map<Seq<u8>, ClaimRecord>,
    first: u64,
    claim: Seq<u8>,
    height: u64,
    second: u64,
    later: u64,
)
    requires
        create_err(m, claim) is None,
    ensures
        ({
            let m1 = create_next(m, first, claim, height);
            &&& create_err(m1, claim) == Some(Error::AlreadyClaimed)
            &&& create_next(m1, second, claim, later) == m1
        }),
{
}

/// Ownership gating: for a registered claim, a revocation or a transfer
/// invoked by anyone but the current owner reports `NotClaimOwner` and
/// leaves the registry — the record included — unchanged.
pub proof fn lemma_ownership_gating(
    m: Map<Seq<u8>, ClaimRecord>,
    claim: Seq<u8>,
    other: u64,
    target: u64,
)
    requires
        m.contains_key(claim),
        other != m[claim].owner,
    ensures
        revoke_err(m, other, claim) == Some(Error::NotClaimOwner),
        revoke_next(m, other, claim) == m,
        transfer_err(m, other, claim) == Some(Error::NotClaimOwner),
        transfer_next(m, other, claim, target) == m,
{
}

/// Whether every transfer in `steps` — each a `(caller, new owner)` pair,
/// applied in order to `claim` — succeeds.
pub open spec fn transfers_ok(
    m: Map<Seq<u8>, ClaimRecord>,
    claim: Seq<u8>,
    steps: Seq<(u64, u64)>,
) -> bool
    decreases steps.len(),
{
    steps.len() == 0 || (transfer_err(m, steps[0].0, claim) is None && transfers_ok(
        transfer_next(m, steps[0].0, claim, steps[0].1),
        claim,
        steps.skip(1),
    ))
}

/// The state after applying the transfers in `steps` to `claim`, in order.
pub open spec fn after_transfers(
    m: Map<Seq<u8>, ClaimRecord>,
    claim: Seq<u8>,
    steps: Seq<(u64, u64)>,
) -> Map<Seq<u8>, ClaimRecord>
    decreases steps.len(),
{
    if steps.len() == 0 {
        m
    } else {
        after_transfers(transfer_next(m, steps[0].0, claim, steps[0].1), claim, steps.skip(1))
    }
}

/// Registration-time immutability: after any sequence of successful
/// transfers, a registered claim is still registered and its registration
/// height is the one it was created with.  Since the sequence is
/// arbitrary, the height observed after each individual transfer of a
/// longer run is the original one as well.
pub proof fn lemma_registration_time_immutable(
    m: Map<Seq<u8>, ClaimRecord>,
    claim: Seq<u8>,
    steps: Seq<(u64, u64)>,
)
    requires
        m.contains_key(claim),
        transfers_ok(m, claim, steps),
    ensures
        after_transfers(m, claim, steps).contains_key(claim),
        after_transfers(m, claim, steps)[claim].registered_at == m[claim].registered_at,
    decreases steps.len(),
{
    if steps.len() == 0 {
    } else {
        let m1 = transfer_next(m, steps[0].0, claim, steps[0].1);
        lemma_registration_time_immutable(m1, claim, steps.skip(1));
    }
}

/// Revoke-then-recreate: a registered claim can be revoked by its owner
/// and then created anew by any caller; the fresh record carries the
/// second creation's owner and height, not the first's.
pub proof fn lemma_revoke_then_recreate(
    m: Map<Seq<u8>, ClaimRecord>,
    first: u64,
    second: u64,
    claim: Seq<u8>,
    first_height: u64,
    second_height: u64,
)
    requires
        create_err(m, claim) is None,
    ensures
        ({
            let m1 = create_next(m, first, claim, first_height);
            let m2 = revoke_next(m1, first, claim);
            let m3 = create_next(m2, second, claim, second_height);
            &&& revoke_err(m1, first, claim) is None
            &&& create_err(m2, claim) is None
            &&& m3.contains_key(claim)
            &&& m3[claim] == (ClaimRecord { owner: second, registered_at: second_height })
        }),
{
}

} // verus!
