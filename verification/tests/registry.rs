use claim_registry::{ClaimRecord, Config, Error, Event, Pallet};

const ALICE: u64 = 1;
const BOB: u64 = 2;
const CHARLIE: u64 = 3;

fn registry() -> Pallet {
    Pallet::new(Config { max_claim_length: 64 })
}

#[test]
fn fresh_registry_is_empty() {
    let p = registry();
    assert_eq!(p.max_claim_length(), 64);
    assert_eq!(p.get_claim(&b"alice-doc".to_vec()), None);
    assert_eq!(p.get_claim(&Vec::new()), None);
}

#[test]
fn create_registers_caller_and_height() {
    let mut p = registry();
    let r = p.create_claim(ALICE, b"alice-doc".to_vec(), 10);
    assert_eq!(r, Ok(Event::ClaimCreated { who: ALICE, claim: b"alice-doc".to_vec() }));
    assert_eq!(
        p.get_claim(&b"alice-doc".to_vec()),
        Some(ClaimRecord { owner: ALICE, registered_at: 10 })
    );
}

#[test]
fn scenario_create_transfer_revoke() {
    let mut p = registry();

    assert!(p.create_claim(ALICE, b"alice-doc".to_vec(), 10).is_ok());
    assert_eq!(
        p.get_claim(&b"alice-doc".to_vec()),
        Some(ClaimRecord { owner: ALICE, registered_at: 10 })
    );

    let transferred = p.transfer_claim(ALICE, b"alice-doc".to_vec(), BOB);
    assert_eq!(
        transferred,
        Ok(Event::ClaimTransferred { who: ALICE, claim: b"alice-doc".to_vec(), to: BOB })
    );
    assert_eq!(
        p.get_claim(&b"alice-doc".to_vec()),
        Some(ClaimRecord { owner: BOB, registered_at: 10 })
    );

    assert_eq!(p.revoke_claim(ALICE, b"alice-doc".to_vec()), Err(Error::NotClaimOwner));
    assert_eq!(
        p.get_claim(&b"alice-doc".to_vec()),
        Some(ClaimRecord { owner: BOB, registered_at: 10 })
    );

    let revoked = p.revoke_claim(BOB, b"alice-doc".to_vec());
    assert_eq!(revoked, Ok(Event::ClaimRevoked { who: BOB, claim: b"alice-doc".to_vec() }));
    assert_eq!(p.get_claim(&b"alice-doc".to_vec()), None);
}

#[test]
fn revoke_of_never_created_claim_reports_no_such_claim() {
    let mut p = registry();
    assert_eq!(p.revoke_claim(ALICE, b"ghost".to_vec()), Err(Error::NoSuchClaim));
    assert_eq!(p.revoke_claim(BOB, Vec::new()), Err(Error::NoSuchClaim));
    assert_eq!(p.revoke_claim(CHARLIE, vec![0u8, 255u8]), Err(Error::NoSuchClaim));
}

#[test]
fn transfer_of_never_created_claim_reports_no_such_claim() {
    let mut p = registry();
    assert_eq!(p.transfer_claim(ALICE, b"ghost".to_vec(), BOB), Err(Error::NoSuchClaim));
}

#[test]
fn second_create_reports_already_claimed() {
    let mut p = registry();
    assert!(p.create_claim(ALICE, b"doc".to_vec(), 5).is_ok());
    assert_eq!(p.create_claim(ALICE, b"doc".to_vec(), 6), Err(Error::AlreadyClaimed));
    assert_eq!(p.create_claim(BOB, b"doc".to_vec(), 7), Err(Error::AlreadyClaimed));
    assert_eq!(
        p.get_claim(&b"doc".to_vec()),
        Some(ClaimRecord { owner: ALICE, registered_at: 5 })
    );
}

#[test]
fn non_owner_cannot_revoke_or_transfer() {
    let mut p = registry();
    assert!(p.create_claim(ALICE, b"doc".to_vec(), 5).is_ok());
    assert_eq!(p.revoke_claim(BOB, b"doc".to_vec()), Err(Error::NotClaimOwner));
    assert_eq!(p.transfer_claim(BOB, b"doc".to_vec(), CHARLIE), Err(Error::NotClaimOwner));
    assert_eq!(
        p.get_claim(&b"doc".to_vec()),
        Some(ClaimRecord { owner: ALICE, registered_at: 5 })
    );
}

#[test]
fn absence_takes_precedence_over_ownership() {
    let mut p = registry();
    assert!(p.create_claim(ALICE, b"doc".to_vec(), 5).is_ok());
    // A caller who owns nothing, asking about an absent key, hears about
    // the absence, not about ownership.
    assert_eq!(p.revoke_claim(BOB, b"other".to_vec()), Err(Error::NoSuchClaim));
    assert_eq!(p.transfer_claim(BOB, b"other".to_vec(), BOB), Err(Error::NoSuchClaim));
}

#[test]
fn transfers_preserve_registration_height() {
    let mut p = registry();
    assert!(p.create_claim(ALICE, b"doc".to_vec(), 42).is_ok());
    assert!(p.transfer_claim(ALICE, b"doc".to_vec(), BOB).is_ok());
    assert_eq!(
        p.get_claim(&b"doc".to_vec()),
        Some(ClaimRecord { owner: BOB, registered_at: 42 })
    );
    assert!(p.transfer_claim(BOB, b"doc".to_vec(), CHARLIE).is_ok());
    assert_eq!(
        p.get_claim(&b"doc".to_vec()),
        Some(ClaimRecord { owner: CHARLIE, registered_at: 42 })
    );
    assert!(p.transfer_claim(CHARLIE, b"doc".to_vec(), ALICE).is_ok());
    assert_eq!(
        p.get_claim(&b"doc".to_vec()),
        Some(ClaimRecord { owner: ALICE, registered_at: 42 })
    );
}

#[test]
fn self_transfer_succeeds_and_reports_event() {
    let mut p = registry();
    assert!(p.create_claim(ALICE, b"doc".to_vec(), 5).is_ok());
    let r = p.transfer_claim(ALICE, b"doc".to_vec(), ALICE);
    assert_eq!(
        r,
        Ok(Event::ClaimTransferred { who: ALICE, claim: b"doc".to_vec(), to: ALICE })
    );
    assert_eq!(
        p.get_claim(&b"doc".to_vec()),
        Some(ClaimRecord { owner: ALICE, registered_at: 5 })
    );
}

#[test]
fn revoke_then_recreate_takes_new_owner_and_height() {
    let mut p = registry();
    assert!(p.create_claim(ALICE, b"doc".to_vec(), 10).is_ok());
    assert!(p.revoke_claim(ALICE, b"doc".to_vec()).is_ok());
    assert_eq!(p.get_claim(&b"doc".to_vec()), None);
    let r = p.create_claim(BOB, b"doc".to_vec(), 25);
    assert_eq!(r, Ok(Event::ClaimCreated { who: BOB, claim: b"doc".to_vec() }));
    assert_eq!(
        p.get_claim(&b"doc".to_vec()),
        Some(ClaimRecord { owner: BOB, registered_at: 25 })
    );
}

#[test]
fn empty_claim_is_a_key_like_any_other() {
    let mut p = registry();
    assert!(p.create_claim(ALICE, Vec::new(), 3).is_ok());
    assert_eq!(p.get_claim(&Vec::new()), Some(ClaimRecord { owner: ALICE, registered_at: 3 }));
    assert_eq!(p.create_claim(BOB, Vec::new(), 4), Err(Error::AlreadyClaimed));
    assert!(p.revoke_claim(ALICE, Vec::new()).is_ok());
    assert_eq!(p.get_claim(&Vec::new()), None);
}

#[test]
fn claim_at_exactly_the_length_bound() {
    let mut p = Pallet::new(Config { max_claim_length: 8 });
    let claim: Vec<u8> = vec![7u8; 8];
    assert!(p.create_claim(ALICE, claim.clone(), 1).is_ok());
    assert_eq!(p.get_claim(&claim), Some(ClaimRecord { owner: ALICE, registered_at: 1 }));
}

#[test]
fn distinct_keys_are_independent() {
    let mut p = registry();
    assert!(p.create_claim(ALICE, b"one".to_vec(), 1).is_ok());
    assert!(p.create_claim(BOB, b"two".to_vec(), 2).is_ok());
    assert!(p.create_claim(CHARLIE, b"three".to_vec(), 3).is_ok());
    assert!(p.revoke_claim(BOB, b"two".to_vec()).is_ok());
    assert_eq!(p.get_claim(&b"one".to_vec()), Some(ClaimRecord { owner: ALICE, registered_at: 1 }));
    assert_eq!(p.get_claim(&b"two".to_vec()), None);
    assert_eq!(
        p.get_claim(&b"three".to_vec()),
        Some(ClaimRecord { owner: CHARLIE, registered_at: 3 })
    );
    // Keys are compared by exact bytes: a prefix is a different claim.
    assert_eq!(p.get_claim(&b"on".to_vec()), None);
    assert_eq!(p.get_claim(&b"ones".to_vec()), None);
}
