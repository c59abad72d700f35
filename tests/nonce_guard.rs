use ctf_pow::accounts::AccountStore;
use ctf_pow::check_nonce::{CheckNonce, InvalidTransaction, Pre, Val, Weight};
use parity_scale_codec::Encode;

#[test]
fn stale_nonce_is_refused() {
    let mut store = AccountStore::new();
    store.set_account_nonce(1, 5);
    let r = CheckNonce::from(4).validate(Some(1), &store);
    assert!(matches!(r, Err(InvalidTransaction::Stale)));
    assert_eq!(store.account_nonce(1), 5);
}

#[test]
fn current_nonce_validates_and_prepares() {
    let mut store = AccountStore::new();
    store.set_account_nonce(1, 5);
    let guard = CheckNonce::from(5);
    let (validity, val) = guard.validate(Some(1), &store).unwrap();
    assert_eq!(store.account_nonce(1), 5);
    assert_eq!(val, Val::CheckNonce(1, 5));
    assert_eq!(validity.priority, 0);
    assert!(validity.propagate);
    assert_eq!(validity.longevity, u64::MAX);
    assert_eq!(validity.provides_tags, vec![(1u64, 5u64).encode()]);
    assert!(validity.requires_tags.is_empty());
    let pre = guard.prepare(val, &mut store).unwrap();
    assert_eq!(pre, Pre::NonceChecked);
    assert_eq!(store.account_nonce(1), 6);
    assert_eq!(CheckNonce::post_dispatch_details(pre), Ok(Weight::zero()));
}

#[test]
fn future_nonce_waits_then_is_refused_at_commit() {
    let mut store = AccountStore::new();
    store.set_account_nonce(2, 3);
    let guard = CheckNonce::from(5);
    let (validity, val) = guard.validate(Some(2), &store).unwrap();
    assert_eq!(validity.provides_tags, vec![(2u64, 5u64).encode()]);
    assert_eq!(validity.requires_tags, vec![(2u64, 4u64).encode()]);
    assert_eq!(val, Val::CheckNonce(2, 3));
    let r = guard.prepare(val, &mut store);
    assert!(matches!(r, Err(InvalidTransaction::Future)));
    assert_eq!(store.account_nonce(2), 3);
}

#[test]
fn fresh_account_starts_at_zero() {
    let mut store = AccountStore::new();
    assert_eq!(store.account_nonce(42), 0);
    let guard = CheckNonce::from(0);
    let (_, val) = guard.validate(Some(42), &store).unwrap();
    guard.prepare(val, &mut store).unwrap();
    assert_eq!(store.account_nonce(42), 1);
}

#[test]
fn unsigned_origin_passes_through() {
    let mut store = AccountStore::new();
    let guard = CheckNonce::from(7);
    assert_eq!(guard.weight(), Weight { ref_time: 0, proof_size: 0 });
    let (validity, val) = guard.validate(None, &store).unwrap();
    assert!(validity.provides_tags.is_empty());
    assert!(validity.requires_tags.is_empty());
    assert_eq!(validity.priority, 0);
    assert_eq!(val, Val::Refund(Weight::zero()));
    let pre = guard.prepare(val, &mut store).unwrap();
    assert_eq!(pre, Pre::Refund(Weight::zero()));
    assert_eq!(store.account_nonce(7), 0);
    let refund = Weight { ref_time: 9, proof_size: 1 };
    assert_eq!(CheckNonce::post_dispatch_details(Pre::Refund(refund)), Ok(refund));
}

#[test]
fn inc_account_nonce_advances_by_one() {
    let mut store = AccountStore::new();
    store.inc_account_nonce(3);
    store.inc_account_nonce(3);
    assert_eq!(store.account_nonce(3), 2);
    assert_eq!(store.account_nonce(4), 0);
}
