use wasmcloud_utils::ratelimit::{RateLimitConfig, TokenBucketRateLimiter};
use wasmcloud_utils::ratelimit_http::{
    create_error_response, create_rate_limit_response, create_success_response, extract_user_id, handle,
};

fn h(k: &str, v: &[u8]) -> (String, Vec<u8>) {
    (k.to_string(), v.to_vec())
}

#[test]
fn user_id_sources() {
    assert_eq!(extract_user_id(&[h("X-User-Id", b"alice")]), "alice");
    assert_eq!(extract_user_id(&[h("authorization", b"Bearer tok123")]), "tok123");
    assert_eq!(extract_user_id(&[h("Authorization", b"  ")]), "anonymous");
    assert_eq!(extract_user_id(&[]), "anonymous");
    // invalid UTF-8 in the first X-User-Id is skipped
    assert_eq!(extract_user_id(&[h("x-user-id", &[0xff]), h("X-USER-ID", b"bob")]), "bob");
    // X-User-Id wins over Authorization wherever it stands
    assert_eq!(extract_user_id(&[h("authorization", b"Bearer t"), h("x-user-id", b"carol")]), "carol");
}

#[test]
fn responses_have_exact_shapes() {
    let ok = create_success_response("alice", 9);
    assert_eq!(ok.status, 200);
    assert_eq!(String::from_utf8(ok.body).unwrap(), r#"{"status":"ok","user_id":"alice","tokens_remaining":9}"#);
    assert_eq!(ok.headers[1], ("x-ratelimit-remaining".to_string(), b"9".to_vec()));
    let limited = create_rate_limit_response(Some(2_500));
    assert_eq!(limited.status, 429);
    assert_eq!(
        String::from_utf8(limited.body).unwrap(),
        r#"{"error":"rate_limit_exceeded","retry_after_seconds":2}"#
    );
    assert_eq!(limited.headers[1], ("retry-after".to_string(), b"2".to_vec()));
    assert_eq!(limited.headers[2], ("x-ratelimit-remaining".to_string(), b"0".to_vec()));
    let default_retry = create_rate_limit_response(None);
    assert_eq!(default_retry.headers[1].1, b"1".to_vec());
    let err = create_error_response("boom");
    assert_eq!((err.status, String::from_utf8(err.body).unwrap()), (500, r#"{"error":"boom"}"#.to_string()));
}

#[test]
fn middleware_allows_then_limits() {
    let mut limiter = TokenBucketRateLimiter::new();
    let r = handle(&mut limiter, &[h("x-user-id", b"u")], 1000);
    assert_eq!(r.status, 500);
    limiter.init(RateLimitConfig { capacity: 2, refill_rate: 1, window_size_ms: 0 }).unwrap();
    assert_eq!(handle(&mut limiter, &[h("x-user-id", b"u")], 1000).status, 200);
    assert_eq!(handle(&mut limiter, &[h("x-user-id", b"u")], 1000).status, 200);
    let limited = handle(&mut limiter, &[h("x-user-id", b"u")], 1000);
    assert_eq!(limited.status, 429);
    assert_eq!(limited.headers[1].1, b"1".to_vec());
    // another user has a bucket of its own
    assert_eq!(handle(&mut limiter, &[h("x-user-id", b"v")], 1000).status, 200);
    // a second later one token is back
    assert_eq!(handle(&mut limiter, &[h("x-user-id", b"u")], 2000).status, 200);
}
