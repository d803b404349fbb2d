use wasmcloud_utils::idempotency::{check_or_create, get, IdempotencyError, IdempotencyState, KeyStatus};

#[test]
fn idempotency_live_record_ignores_ttl() {
    let mut s = IdempotencyState::new();
    let first = check_or_create(&mut s, "order-1", Some(1000), 10).unwrap();
    assert!(first.is_new);
    // A live record is answered without computing a new expiry, so any TTL is accepted.
    let again = check_or_create(&mut s, "order-1", Some(u64::MAX), 500).unwrap();
    assert!(!again.is_new);
    let rec = again.cached_record.unwrap();
    assert_eq!(rec.created_at_ms, 10);
    assert_eq!(rec.expires_at_ms, Some(1010));
    assert_eq!(rec.status, KeyStatus::Pending);
}

#[test]
fn idempotency_invalid_key_ignores_ttl() {
    let mut s = IdempotencyState::new();
    assert_eq!(check_or_create(&mut s, "   ", Some(u64::MAX), u64::MAX).unwrap_err(), IdempotencyError::InvalidKey);
}

#[test]
fn idempotency_expired_record_is_replaced() {
    let mut s = IdempotencyState::new();
    check_or_create(&mut s, "k", Some(100), 0).unwrap();
    let r = check_or_create(&mut s, "k", None, 100).unwrap();
    assert!(r.is_new);
    assert!(r.cached_record.is_none());
    let rec = get(&s, "k").unwrap();
    assert_eq!(rec.created_at_ms, 100);
    assert_eq!(rec.expires_at_ms, None);
}
