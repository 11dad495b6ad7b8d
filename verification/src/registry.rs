//! The executable claim registry and its proof that it refines the
//! state-transition model of `crate::model`.
//!
//! The registry stores its entries in a vector whose keys are pairwise
//! distinct; its abstract value, `Pallet::claims`, is the map from claim
//! bytes to records that the contracts and the model speak of.

use vstd::prelude::*;

use crate::model::{create_err, create_next, revoke_err, revoke_next, transfer_err, transfer_next};
use crate::model::{ClaimRecord, Error, Event};

verus! {

/// The registry's configuration: the largest claim length, in bytes, that
/// the host admits.  Claims reaching the registry are already bounded by
/// it; the registry records the bound as an invariant of its state.
#[derive(Clone, Copy, Debug, PartialEq, Eq, Structural)]
pub struct Config {
    pub max_claim_length: u32,
}

/// One registered claim: its key bytes and its record.
struct Entry {
    claim: Vec<u8>,
    record: ClaimRecord,
}

/// The claim registry.  The sole persistent state is the mapping from
/// claim bytes to records, abstracted by [`Pallet::claims`].
pub struct Pallet {
    config: Config,
    entries: Vec<Entry>,
}

/// The keys of the entries are pairwise distinct.
spec fn unique_keys(s: Seq<Entry>) -> bool {
    forall|i: int, j: int| #![trigger s[i], s[j]]
        0 <= i < j < s.len() ==> s[i].claim@ != s[j].claim@
}

/// Every key of the entries respects the configured length bound.
spec fn bounded_keys(s: Seq<Entry>, max: u32) -> bool {
    forall|i: int| #![trigger s[i]] 0 <= i < s.len() ==> s[i].claim@.len() <= max
}

/// The map abstraction of a sequence of entries; later entries shadow
/// earlier ones, which is immaterial once the keys are distinct.
spec fn map_of(s: Seq<Entry>) -> Map<Seq<u8>, ClaimRecord>
    decreases s.len(),
{
    if s.len() == 0 {
        Map::empty()
    } else {
        map_of(s.drop_last()).insert(s.last().claim@, s.last().record)
    }
}

/// The key of any entry is in the abstraction.
proof fn lemma_map_of_contains(s: Seq<Entry>, i: int)
    requires
        0 <= i < s.len(),
    ensures
        map_of(s).contains_key(s[i].claim@),
    decreases s.len(),
{
    if i == s.len() - 1 {
        assert(s.last() == s[i]);
    } else {
        lemma_map_of_contains(s.drop_last(), i);
        assert(s.drop_last()[i] == s[i]);
    }
}

/// A key held by no entry is absent from the abstraction.
proof fn lemma_map_of_absent(s: Seq<Entry>, k: Seq<u8>)
    requires
        forall|i: int| #![trigger s[i]] 0 <= i < s.len() ==> s[i].claim@ != k,
    ensures
        !map_of(s).contains_key(k),
    decreases s.len(),
{
    if s.len() == 0 {
    } else {
        assert(forall|i: int| #![trigger s.drop_last()[i]]
            0 <= i < s.drop_last().len() ==> s.drop_last()[i] == s[i]);
        lemma_map_of_absent(s.drop_last(), k);
        assert(s.last() == s[s.len() - 1]);
    }
}

/// With distinct keys, the abstraction maps each entry's key to its record.
proof fn lemma_map_of_index(s: Seq<Entry>, i: int)
    requires
        unique_keys(s),
        0 <= i < s.len(),
    ensures
        map_of(s).contains_key(s[i].claim@),
        map_of(s)[s[i].claim@] == s[i].record,
    decreases s.len(),
{
    if i == s.len() - 1 {
        assert(s.last() == s[i]);
    } else {
        let dl = s.drop_last();
        assert forall|a: int, b: int| 0 <= a < b < dl.len() implies dl[a].claim@ != dl[b].claim@ by {
            assert(dl[a] == s[a]);
            assert(dl[b] == s[b]);
        }
        lemma_map_of_index(dl, i);
        assert(dl[i] == s[i]);
        assert(s.last() == s[s.len() - 1]);
        assert(s[i].claim@ != s[s.len() - 1].claim@);
    }
}

/// Appending an entry inserts its key.
proof fn lemma_map_of_push(s: Seq<Entry>, e: Entry)
    ensures
        map_of(s.push(e)) == map_of(s).insert(e.claim@, e.record),
{
    assert(s.push(e).drop_last() =~= s);
    assert(s.push(e).last() == e);
}

/// Removing an entry keeps the keys distinct.
proof fn lemma_unique_remove(s: Seq<Entry>, i: int)
    requires
        unique_keys(s),
        0 <= i < s.len(),
    ensures
        unique_keys(s.remove(i)),
        forall|j: int| #![trigger s.remove(i)[j]]
            0 <= j < s.remove(i).len() ==> s.remove(i)[j].claim@ != s[i].claim@,
{
    let s2 = s.remove(i);
    s.remove_ensures(i);
    assert forall|a: int, b: int| 0 <= a < b < s2.len() implies s2[a].claim@ != s2[b].claim@ by {
        let a2 = if a < i { a } else { a + 1 };
        let b2 = if b < i { b } else { b + 1 };
        assert(s2[a] == s[a2]);
        assert(s2[b] == s[b2]);
        assert(0 <= a2 < b2 < s.len());
    }
    assert forall|j: int| 0 <= j < s2.len() implies s2[j].claim@ != s[i].claim@ by {
        let j2 = if j < i { j } else { j + 1 };
        assert(s2[j] == s[j2]);
        assert(j2 != i);
    }
}

/// Removing an entry removes exactly its key from the abstraction.
proof fn lemma_map_of_remove(s: Seq<Entry>, i: int)
    requires
        unique_keys(s),
        0 <= i < s.len(),
    ensures
        map_of(s.remove(i)) == map_of(s).remove(s[i].claim@),
    decreases s.len(),
{
    let s2 = s.remove(i);
    s.remove_ensures(i);
    lemma_unique_remove(s, i);
    if i == s.len() - 1 {
        assert(s2 =~= s.drop_last());
        assert(s.last() == s[i]);
        lemma_map_of_absent(s.drop_last(), s[i].claim@);
        assert(map_of(s).remove(s[i].claim@) =~= map_of(s.drop_last()));
    } else {
        let dl = s.drop_last();
        assert forall|a: int, b: int| 0 <= a < b < dl.len() implies dl[a].claim@ != dl[b].claim@ by {
            assert(dl[a] == s[a]);
            assert(dl[b] == s[b]);
        }
        lemma_map_of_remove(dl, i);
        assert(dl[i] == s[i]);
        assert(s2.drop_last() =~= dl.remove(i));
        assert(s2.last() == s[s.len() - 1]);
        assert(s.last() == s[s.len() - 1]);
        // map_of(s2) = map_of(dl.remove(i)).insert(last key, last record)
        //            = map_of(dl).remove(k_i).insert(last key, last record)
        // and the goal map is map_of(dl).insert(last key, last record).remove(k_i);
        // the two agree because the last key differs from k_i.
        assert(s[i].claim@ != s[s.len() - 1].claim@);
        assert(map_of(s2) =~= map_of(s).remove(s[i].claim@));
    }
}

/// Every claim registered in a well-formed registry respects the
/// configured length bound.
pub proof fn lemma_claims_bounded(p: Pallet)
    requires
        p.wf(),
    ensures
        forall|k: Seq<u8>| #[trigger] p.claims().contains_key(k) ==> k.len() <= p.max_claim_len(),
{
    let s = p.entries@;
    assert forall|k: Seq<u8>| #[trigger] p.claims().contains_key(k) implies k.len()
        <= p.max_claim_len() by {
        if forall|i: int| #![trigger s[i]] 0 <= i < s.len() ==> s[i].claim@ != k {
            lemma_map_of_absent(s, k);
        } else {
            let i = choose|i: int| 0 <= i < s.len() && s[i].claim@ == k;
            assert(s[i].claim@.len() <= p.max_claim_len());
        }
    }
}

/// Byte-for-byte equality of two byte vectors.
fn bytes_eq(a: &Vec<u8>, b: &Vec<u8>) -> (r: bool)
    ensures
        r == (a@ == b@),
{
    if a.len() != b.len() {
        return false;
    }
    let mut i: usize = 0;
    while i < a.len()
        invariant
            a@.len() == b@.len(),
            i <= a@.len(),
            forall|j: int| 0 <= j < i ==> a@[j] == b@[j],
        decreases a@.len() - i,
    {
        if a[i] != b[i] {
            return false;
        }
        i = i + 1;
    }
    proof {
        assert(a@ =~= b@);
    }
    true
}

/// A fresh vector holding the same bytes.
fn copy_bytes(v: &Vec<u8>) -> (r: Vec<u8>)
    ensures
        r@ == v@,
{
    let mut r: Vec<u8> = Vec::new();
    let mut i: usize = 0;
    while i < v.len()
        invariant
            i <= v@.len(),
            r@ =~= v@.subrange(0, i as int),
        decreases v@.len() - i,
    {
        r.push(v[i]);
        i = i + 1;
    }
    proof {
        assert(v@.subrange(0, v@.len() as int) =~= v@);
    }
    r
}

/// The index of the entry holding `claim`, if any.
fn find(entries: &Vec<Entry>, claim: &Vec<u8>) -> (r: Option<usize>)
    ensures
        (match r {
            Some(i) => i < entries@.len() && entries@[i as int].claim@ == claim@,
            None => forall|j: int| #![trigger entries@[j]]
                0 <= j < entries@.len() ==> entries@[j].claim@ != claim@,
        }),
{
    let mut i: usize = 0;
    while i < entries.len()
        invariant
            i <= entries@.len(),
            forall|j: int| #![trigger entries@[j]] 0 <= j < i ==> entries@[j].claim@ != claim@,
        decreases entries@.len() - i,
    {
        if bytes_eq(&entries[i].claim, claim) {
            return Some(i);
        }
        i = i + 1;
    }
    None
}

impl Pallet {
    /// The abstract registry state: the map from the bytes of each
    /// registered claim to its record.
    pub closed spec fn claims(self) -> Map<Seq<u8>, ClaimRecord> {
        map_of(self.entries@)
    }

    /// The configured bound on claim length.
    pub closed spec fn max_claim_len(self) -> u32 {
        self.config.max_claim_length
    }

    /// Well-formedness: entry keys are pairwise distinct and respect the
    /// length bound.  Established by [`Pallet::new`] and preserved by
    /// every operation.
    pub closed spec fn wf(self) -> bool {
        unique_keys(self.entries@) && bounded_keys(self.entries@, self.config.max_claim_length)
    }

    /// An empty registry under the given configuration.
    pub fn new(config: Config) -> (p: Pallet)
        ensures
            p.wf(),
            p.claims() == Map::<Seq<u8>, ClaimRecord>::empty(),
            p.max_claim_len() == config.max_claim_length,
    {
        Pallet { config, entries: Vec::new() }
    }

    /// The configured bound on claim length.
    pub fn max_claim_length(&self) -> (r: u32)
        ensures
            r == self.max_claim_len(),
    {
        self.config.max_claim_length
    }

    /// Registers `claim` for `caller` at height `current_block`.
    ///
    /// Succeeds exactly when the claim is not yet registered; the registry
    /// then gains the record `(caller, current_block)` and the operation
    /// reports the `ClaimCreated` event for the host to emit.  Otherwise
    /// `AlreadyClaimed` is reported and nothing changes.
    pub fn create_claim(&mut self, caller: u64, claim: Vec<u8>, current_block: u64) -> (r: Result<
        Event,
        Error,
    >)
        requires
            old(self).wf(),
            claim@.len() <= old(self).max_claim_len(),
        ensures
            final(self).wf(),
            final(self).max_claim_len() == old(self).max_claim_len(),
            final(self).claims() == create_next(old(self).claims(), caller, claim@, current_block),
            (match r {
                Ok(ev) => create_err(old(self).claims(), claim@) is None && ev == (Event::ClaimCreated {
                    who: caller,
                    claim,
                }),
                Err(e) => create_err(old(self).claims(), claim@) == Some(e),
            }),
    {
        match find(&self.entries, &claim) {
            Some(i) => {
                proof {
                    lemma_map_of_contains(self.entries@, i as int);
                }
                Err(Error::AlreadyClaimed)
            },
            None => {
                proof {
                    lemma_map_of_absent(self.entries@, claim@);
                }
                let stored = copy_bytes(&claim);
                let entry = Entry {
                    claim: stored,
                    record: ClaimRecord { owner: caller, registered_at: current_block },
                };
                let ghost s = self.entries@;
                let ghost ge = entry;
                self.entries.push(entry);
                proof {
                    lemma_map_of_push(s, ge);
                    assert forall|a: int, b: int| 0 <= a < b < s.push(ge).len()
                        implies s.push(ge)[a].claim@ != s.push(ge)[b].claim@ by {
                        assert(s.push(ge)[a] == s[a]);
                        if b == s.len() as int {
                            assert(s.push(ge)[b] == ge);
                        } else {
                            assert(s.push(ge)[b] == s[b]);
                        }
                    }
                    assert forall|a: int| 0 <= a < s.push(ge).len()
                        implies s.push(ge)[a].claim@.len() <= self.config.max_claim_length by {
                        if a == s.len() as int {
                            assert(s.push(ge)[a] == ge);
                        } else {
                            assert(s.push(ge)[a] == s[a]);
                        }
                    }
                }
                Ok(Event::ClaimCreated { who: caller, claim })
            },
        }
    }

    /// Removes the registration of `claim` on behalf of `caller`.
    ///
    /// Succeeds exactly when the claim is registered and `caller` is its
    /// current owner; the key then leaves the registry and the operation
    /// reports the `ClaimRevoked` event.  An absent claim is reported as
    /// `NoSuchClaim` before ownership is considered; a foreign claim as
    /// `NotClaimOwner`; in both cases nothing changes.
    pub fn revoke_claim(&mut self, caller: u64, claim: Vec<u8>) -> (r: Result<Event, Error>)
        requires
            old(self).wf(),
        ensures
            final(self).wf(),
            final(self).max_claim_len() == old(self).max_claim_len(),
            final(self).claims() == revoke_next(old(self).claims(), caller, claim@),
            (match r {
                Ok(ev) => revoke_err(old(self).claims(), caller, claim@) is None && ev == (Event::ClaimRevoked {
                    who: caller,
                    claim,
                }),
                Err(e) => revoke_err(old(self).claims(), caller, claim@) == Some(e),
            }),
    {
        match find(&self.entries, &claim) {
            None => {
                proof {
                    lemma_map_of_absent(self.entries@, claim@);
                }
                Err(Error::NoSuchClaim)
            },
            Some(i) => {
                proof {
                    lemma_map_of_index(self.entries@, i as int);
                }
                if self.entries[i].record.owner != caller {
                    Err(Error::NotClaimOwner)
                } else {
                    let ghost s = self.entries@;
                    proof {
                        lemma_map_of_remove(s, i as int);
                        lemma_unique_remove(s, i as int);
                        s.remove_ensures(i as int);
                        assert forall|a: int| 0 <= a < s.remove(i as int).len()
                            implies s.remove(i as int)[a].claim@.len()
                            <= self.config.max_claim_length by {
                            let a2 = if a < i as int {
                                a
                            } else {
                                a + 1
                            };
                            assert(s.remove(i as int)[a] == s[a2]);
                        }
                    }
                    self.entries.remove(i);
                    Ok(Event::ClaimRevoked { who: caller, claim })
                }
            },
        }
    }

    /// Rewrites the owner of `claim` to `target` on behalf of `caller`.
    ///
    /// The checks and their precedence are those of [`Self::revoke_claim`];
    /// on success the record keeps its registration height, only the owner
    /// changes, and the operation reports the `ClaimTransferred` event.
    /// The target is unconstrained: a transfer to the current owner
    /// succeeds and reports its event like any other.
    pub fn transfer_claim(&mut self, caller: u64, claim: Vec<u8>, target: u64) -> (r: Result<
        Event,
        Error,
    >)
        requires
            old(self).wf(),
        ensures
            final(self).wf(),
            final(self).max_claim_len() == old(self).max_claim_len(),
            final(self).claims() == transfer_next(old(self).claims(), caller, claim@, target),
            (match r {
                Ok(ev) => transfer_err(old(self).claims(), caller, claim@) is None && ev == (Event::ClaimTransferred {
                    who: caller,
                    claim,
                    to: target,
                }),
                Err(e) => transfer_err(old(self).claims(), caller, claim@) == Some(e),
            }),
    {
        match find(&self.entries, &claim) {
            None => {
                proof {
                    lemma_map_of_absent(self.entries@, claim@);
                }
                Err(Error::NoSuchClaim)
            },
            Some(i) => {
                proof {
                    lemma_map_of_index(self.entries@, i as int);
                }
                if self.entries[i].record.owner != caller {
                    Err(Error::NotClaimOwner)
                } else {
                    let ghost s = self.entries@;
                    proof {
                        lemma_map_of_remove(s, i as int);
                        lemma_unique_remove(s, i as int);
                        s.remove_ensures(i as int);
                    }
                    let removed = self.entries.remove(i);
                    let entry = Entry {
                        claim: removed.claim,
                        record: ClaimRecord {
                            owner: target,
                            registered_at: removed.record.registered_at,
                        },
                    };
                    let ghost s2 = self.entries@;
                    let ghost ge = entry;
                    self.entries.push(entry);
                    proof {
                        lemma_map_of_push(s2, ge);
                        assert(ge.claim@ == s[i as int].claim@);
                        assert forall|a: int, b: int| 0 <= a < b < s2.push(ge).len()
                            implies s2.push(ge)[a].claim@ != s2.push(ge)[b].claim@ by {
                            assert(s2.push(ge)[a] == s2[a]);
                            if b == s2.len() as int {
                                assert(s2.push(ge)[b] == ge);
                                assert(s2[a].claim@ != s[i as int].claim@);
                            } else {
                                assert(s2.push(ge)[b] == s2[b]);
                            }
                        }
                        assert forall|a: int| 0 <= a < s2.push(ge).len()
                            implies s2.push(ge)[a].claim@.len() <= self.config.max_claim_length by {
                            if a == s2.len() as int {
                                assert(s2.push(ge)[a] == ge);
                            } else {
                                let a2 = if a < i as int {
                                    a
                                } else {
                                    a + 1
                                };
                                assert(s2.push(ge)[a] == s2[a]);
                                assert(s2[a] == s[a2]);
                            }
                        }
                        assert(map_of(self.entries@) =~= map_of(s).insert(claim@, ge.record));
                    }
                    Ok(Event::ClaimTransferred { who: caller, claim, to: target })
                }
            },
        }
    }

    /// The record of `claim`, if it is registered: the exact-key lookup.
    pub fn get_claim(&self, claim: &Vec<u8>) -> (r: Option<ClaimRecord>)
        requires
            self.wf(),
        ensures
            r == (if self.claims().contains_key(claim@) {
                Some(self.claims()[claim@])
            } else {
                None::<ClaimRecord>
            }),
    {
        match find(&self.entries, claim) {
            Some(i) => {
                proof {
                    lemma_map_of_index(self.entries@, i as int);
                }
                Some(self.entries[i].record)
            },
            None => {
                proof {
                    lemma_map_of_absent(self.entries@, claim@);
                }
                None
            },
        }
    }
}

} // verus!
