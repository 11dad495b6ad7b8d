//! The mathematical model of the registry: the record and error/event
//! vocabulary, and the state-transition functions that the executable
//! operations are specified against.
//!
//! The registry state is modelled as a `Map<Seq<u8>, ClaimRecord>` from the
//! bytes of a claim to its record.  Each operation is described by a pair of
//! spec functions: one giving the error it reports (if any) and one giving
//! the state it leaves behind.

use vstd::prelude::*;

verus! {

/// The value stored for a registered claim: the actor currently authorized
/// to revoke or transfer it, and the block height at which the claim was
/// first registered.  `registered_at` is set once at creation and is never
/// changed afterwards, transfers included.
#[derive(Clone, Copy, Debug, PartialEq, Eq, Structural)]
pub struct ClaimRecord {
    pub owner: u64,
    pub registered_at: u64,
}

/// The exhaustive, flat error vocabulary of the registry.
#[derive(Clone, Copy, Debug, PartialEq, Eq, Structural)]
pub enum Error {
    /// A creation was attempted on a claim that is already registered.
    AlreadyClaimed,
    /// A revocation or transfer was attempted on an unregistered claim.
    NoSuchClaim,
    /// A revocation or transfer was attempted by an actor other than the
    /// current owner of the claim.
    NotClaimOwner,
}

/// The notification emitted by each successful operation, carrying the full
/// claim bytes and the identities involved.  Events are fire-and-forget:
/// delivering them to observers is the host's business.
#[derive(Clone, Debug, PartialEq, Eq)]
pub enum Event {
    ClaimCreated { who: u64, claim: Vec<u8> },
    ClaimRevoked { who: u64, claim: Vec<u8> },
    ClaimTransferred { who: u64, claim: Vec<u8>, to: u64 },
}

/// The error reported by creating `claim`, if any: creation fails exactly
/// when the claim is already registered.
pub open spec fn create_err(m: Map<Seq<u8>, ClaimRecord>, claim: Seq<u8>) -> Option<Error> {
    if m.contains_key(claim) {
        Some(Error::AlreadyClaimed)
    } else {
        None
    }
}

/// The state left behind by `caller` creating `claim` at height `now`.
pub open spec fn create_next(
    m: Map<Seq<u8>, ClaimRecord>,
    caller: u64,
    claim: Seq<u8>,
    now: u64,
) -> Map<Seq<u8>, ClaimRecord> {
    if create_err(m, claim) is Some {
        m
    } else {
        m.insert(claim, ClaimRecord { owner: caller, registered_at: now })
    }
}

/// The error reported by `caller` revoking `claim`, if any.  Absence of the
/// claim takes precedence over the ownership check.
pub open spec fn revoke_err(
    m: Map<Seq<u8>, ClaimRecord>,
    caller: u64,
    claim: Seq<u8>,
) -> Option<Error> {
    if !m.contains_key(claim) {
        Some(Error::NoSuchClaim)
    } else if m[claim].owner != caller {
        Some(Error::NotClaimOwner)
    } else {
        None
    }
}

/// The state left behind by `caller` revoking `claim`.
pub open spec fn revoke_next(
    m: Map<Seq<u8>, ClaimRecord>,
    caller: u64,
    claim: Seq<u8>,
) -> Map<Seq<u8>, ClaimRecord> {
    if revoke_err(m, caller, claim) is Some {
        m
    } else {
        m.remove(claim)
    }
}

/// The error reported by `caller` transferring `claim` to `target`, if any.
/// The checks and their precedence are those of revocation; the target is
/// unconstrained, so a transfer to the current owner is a legal no-op that
/// still succeeds.
pub open spec fn transfer_err(
    m: Map<Seq<u8>, ClaimRecord>,
    caller: u64,
    claim: Seq<u8>,
) -> Option<Error> {
    revoke_err(m, caller, claim)
}

/// The state left behind by `caller` transferring `claim` to `target`: the
/// owner is rewritten, the registration height is preserved.
pub open spec fn transfer_next(
    m: Map<Seq<u8>, ClaimRecord>,
    caller: u64,
    claim: Seq<u8>,
    target: u64,
) -> Map<Seq<u8>, ClaimRecord> {
    if transfer_err(m, caller, claim) is Some {
        m
    } else {
        m.insert(claim, ClaimRecord { owner: target, registered_at: m[claim].registered_at })
    }
}

} // verus!
