use wasmcloud_utils::ratelimit::{
    LeakyBucketRateLimiter, RateLimitConfig, RateLimitRequest, SlidingWindowRateLimiter, TokenBucketRateLimiter,
};

fn req(user: &str, tokens: u64, ts: u64) -> RateLimitRequest {
    RateLimitRequest { user_id: user.to_string(), tokens_requested: tokens, timestamp_ms: ts }
}

#[test]
fn test_leaky_bucket_basic() {
    let mut l = LeakyBucketRateLimiter::new();
    assert!(l.init(RateLimitConfig { capacity: 10, refill_rate: 1, window_size_ms: 0 }).is_ok());
    let response = l.check_rate_limit(req("user1", 5, 1000)).unwrap();
    assert!(response.allowed);
    assert_eq!(response.tokens_remaining, 5);
}

#[test]
fn test_leaky_bucket_overflow() {
    let mut l = LeakyBucketRateLimiter::new();
    l.init(RateLimitConfig { capacity: 10, refill_rate: 2, window_size_ms: 0 }).unwrap();
    assert!(l.check_rate_limit(req("user2", 10, 1000)).unwrap().allowed);
    let response = l.check_rate_limit(req("user2", 5, 1500)).unwrap();
    assert!(!response.allowed);
    assert!(response.retry_after_ms.is_some());
}

#[test]
fn test_leaky_bucket_leak() {
    let mut l = LeakyBucketRateLimiter::new();
    l.init(RateLimitConfig { capacity: 10, refill_rate: 2, window_size_ms: 0 }).unwrap();
    assert!(l.check_rate_limit(req("user3", 10, 1000)).unwrap().allowed);
    assert!(l.check_rate_limit(req("user3", 5, 4000)).unwrap().allowed);
}

#[test]
fn test_sliding_window_basic() {
    let mut l = SlidingWindowRateLimiter::new();
    assert!(l.init(RateLimitConfig { capacity: 10, refill_rate: 0, window_size_ms: 5000 }).is_ok());
    let response = l.check_rate_limit(req("user1", 5, 1000)).unwrap();
    assert!(response.allowed);
    assert_eq!(response.tokens_remaining, 5);
}

#[test]
fn test_sliding_window_limit() {
    let mut l = SlidingWindowRateLimiter::new();
    l.init(RateLimitConfig { capacity: 10, refill_rate: 0, window_size_ms: 5000 }).unwrap();
    assert!(l.check_rate_limit(req("user2", 10, 1000)).unwrap().allowed);
    let response = l.check_rate_limit(req("user2", 5, 2000)).unwrap();
    assert!(!response.allowed);
    assert!(response.retry_after_ms.is_some());
}

#[test]
fn test_sliding_window_expiry() {
    let mut l = SlidingWindowRateLimiter::new();
    l.init(RateLimitConfig { capacity: 10, refill_rate: 0, window_size_ms: 5000 }).unwrap();
    assert!(l.check_rate_limit(req("user3", 10, 1000)).unwrap().allowed);
    assert!(l.check_rate_limit(req("user3", 10, 7000)).unwrap().allowed);
}

#[test]
fn test_sliding_window_partial_expiry() {
    let mut l = SlidingWindowRateLimiter::new();
    l.init(RateLimitConfig { capacity: 10, refill_rate: 0, window_size_ms: 5000 }).unwrap();
    l.check_rate_limit(req("user4", 5, 1000)).unwrap();
    assert!(l.check_rate_limit(req("user4", 5, 3000)).unwrap().allowed);
    assert!(l.check_rate_limit(req("user4", 5, 7000)).unwrap().allowed);
}

#[test]
fn test_token_bucket_basic() {
    let mut l = TokenBucketRateLimiter::new();
    assert!(l.init(RateLimitConfig { capacity: 10, refill_rate: 1, window_size_ms: 0 }).is_ok());
    let response = l.check_rate_limit(req("user1", 5, 1000)).unwrap();
    assert!(response.allowed);
    assert_eq!(response.tokens_remaining, 5);
}

#[test]
fn test_token_bucket_refill() {
    let mut l = TokenBucketRateLimiter::new();
    l.init(RateLimitConfig { capacity: 10, refill_rate: 2, window_size_ms: 0 }).unwrap();
    assert!(l.check_rate_limit(req("user2", 10, 1000)).unwrap().allowed);
    assert!(!l.check_rate_limit(req("user2", 5, 1500)).unwrap().allowed);
    assert!(l.check_rate_limit(req("user2", 5, 4000)).unwrap().allowed);
}
