use wasmcloud_utils::cache::{self, build_cache_key, delete, get, key_exists, CacheState};
use wasmcloud_utils::config_loader::{self, ConfigState};
use wasmcloud_utils::distributed_lock::{self, LockError, LockState};
use wasmcloud_utils::feature_flags::{self, FlagError, FlagState, FlagValue};
use wasmcloud_utils::health_check::{self, HealthError, HealthState, OverallStatus};
use wasmcloud_utils::observability::{self, LogLevel, ObsState};
use wasmcloud_utils::ratelimit::TokenBucket;
use wasmcloud_utils::retry::{self, BackoffStrategy, RetryConfig, RetryState};
use wasmcloud_utils::tenant_context::{parse_tenant, scope};
use wasmcloud_utils::tracing::{self, TracingState};

#[test]
fn test_retry_backoff_schedules() {
    // Fixed backoff: every delay is the base delay.
    let mut s = RetryState::new();
    retry::init(&mut s, RetryConfig { max_attempts: 3, base_delay_ms: 200, max_delay_ms: 60_000, strategy: BackoffStrategy::Fixed }).unwrap();
    let delays: Vec<u64> = (1..=3).map(|a| retry::next_delay(&s, a, 0).unwrap().delay_ms).collect();
    assert!(delays.iter().all(|&d| d == 200));

    // Exponential backoff: delay doubles each attempt.
    let mut s = RetryState::new();
    retry::init(&mut s, RetryConfig { max_attempts: 5, base_delay_ms: 100, max_delay_ms: 60_000, strategy: BackoffStrategy::Exponential }).unwrap();
    let delays: Vec<u64> = (1..=5).map(|a| retry::next_delay(&s, a, 0).unwrap().delay_ms).collect();
    assert_eq!(delays, vec![100, 200, 400, 800, 1600]);

    // Max-delay cap.
    let mut s = RetryState::new();
    retry::init(&mut s, RetryConfig { max_attempts: 8, base_delay_ms: 1_000, max_delay_ms: 3_000, strategy: BackoffStrategy::Exponential }).unwrap();
    for a in 1..=8u32 {
        let d = retry::next_delay(&s, a, 0).unwrap().delay_ms;
        assert!(d <= 3_000, "attempt {}: {} exceeds cap {}", a, d, 3_000);
    }

    // Jitter: within ±25% of the exponential value.
    let mut s = RetryState::new();
    retry::init(&mut s, RetryConfig { max_attempts: 4, base_delay_ms: 1_000, max_delay_ms: 60_000, strategy: BackoffStrategy::ExponentialJitter }).unwrap();
    for a in 1u32..=4 {
        let exp = (1_000u64.saturating_mul(1u64 << (a - 1))).min(60_000);
        let d = retry::next_delay(&s, a, 42).unwrap().delay_ms;
        let lo = exp * 3 / 4;
        let hi = (exp * 5 / 4).min(60_000);
        assert!(d >= lo && d <= hi, "attempt {}: {} not in [{},{}]", a, d, lo, hi);
    }

    // should_retry: true within the window, false beyond it.
    let mut s = RetryState::new();
    retry::init(&mut s, RetryConfig { max_attempts: 3, base_delay_ms: 10, max_delay_ms: 60_000, strategy: BackoffStrategy::Fixed }).unwrap();
    for a in 1..=3 {
        assert!(retry::should_retry(&s, a).unwrap());
    }
    assert!(!retry::should_retry(&s, 4).unwrap());
}

#[test]
fn test_cache_set_and_get() {
    let mut c = CacheState::new();
    cache::set(&mut c, "greeting", b"hello".to_vec(), None, 1000).unwrap();
    assert_eq!(get(&mut c, "greeting", 2000).unwrap().unwrap().value, b"hello");
    assert!(get(&mut c, "missing", 0).unwrap().is_none());
}

#[test]
fn test_cache_ttl_expiry() {
    let mut c = CacheState::new();
    cache::set(&mut c, "short", b"data".to_vec(), Some(1), 0).unwrap();
    assert!(get(&mut c, "short", 0).unwrap().is_some(), "should be present before expiry");
    assert!(get(&mut c, "short", 1).unwrap().is_none(), "should be expired at expiry time");
    assert!(get(&mut c, "short", 100).unwrap().is_none(), "should be expired after expiry");
}

#[test]
fn test_cache_delete() {
    let mut c = CacheState::new();
    cache::set(&mut c, "key1", b"value".to_vec(), None, 0).unwrap();
    assert!(key_exists(&mut c, "key1", 0).unwrap());
    delete(&mut c, "key1").unwrap();
    assert!(!key_exists(&mut c, "key1", 0).unwrap());
    delete(&mut c, "nonexistent").unwrap();
}

#[test]
fn test_cache_http_key_building() {
    assert_eq!(build_cache_key("GET", "/api/v1", None), Some("get:/api/v1".to_string()));
    assert!(build_cache_key("POST", "/api/v1", None).is_none());

    let key = build_cache_key("GET", "/search", Some("z=3&a=1&m=2")).unwrap();
    assert!(key.starts_with("get:/search?"));
    let qs = key.split('?').nth(1).unwrap();
    let pairs: Vec<&str> = qs.split('&').collect();
    let mut sorted = pairs.clone();
    sorted.sort_unstable();
    assert_eq!(pairs, sorted, "query params must be sorted");
}

#[test]
fn lib_test_rate_limiter_logic_token_bucket() {
    let mut bucket = TokenBucket::new(10, 1);
    bucket.refill(1);
    for _ in 0..10 {
        assert!(bucket.consume(1), "Should allow within capacity");
    }
    assert!(!bucket.consume(1), "Should deny after capacity exhausted");
    bucket.refill(5001);
    for i in 0..5 {
        assert!(bucket.consume(1), "Should allow after refill (iteration {})", i);
    }
    assert!(!bucket.consume(1), "Should deny after refill exhausted");
}

#[test]
fn test_rate_limiter_logic_token_bucket() {
    // 10 capacity, 1 token per second; time 1 initialises the refill clock
    let mut bucket = TokenBucket::new(10, 1);
    bucket.refill(1);
    for _ in 0..10 {
        assert!(bucket.consume(1), "Should allow within capacity");
    }
    assert!(!bucket.consume(1), "Should deny after capacity exhausted");
    // five seconds later (time 5001) five more are allowed
    bucket.refill(5001);
    for i in 0..5 {
        assert!(bucket.consume(1), "Should allow after refill (iteration {})", i);
    }
    assert!(!bucket.consume(1), "Should deny after refill exhausted");
}

#[test]
fn test_tracing_span_lifecycle() {
    let mut t = TracingState::new();
    assert!(tracing::current_span_id(&t).unwrap().is_none());

    let outer = tracing::start_span(&mut t, "request", None, 100).unwrap();
    assert_eq!(tracing::current_span_id(&t).unwrap().as_deref(), Some(outer.as_str()));

    let inner = tracing::start_span(&mut t, "db-query", Some(outer.clone()), 110).unwrap();
    assert_eq!(tracing::current_span_id(&t).unwrap().as_deref(), Some(inner.as_str()));
    assert_eq!(tracing::get_span(&t, &inner).unwrap().parent_id.as_deref(), Some(outer.as_str()));

    tracing::add_tag(&mut t, &inner, "table", "users").unwrap();
    assert_eq!(tracing::get_span(&t, &inner).unwrap().tags[0], ("table".to_string(), "users".to_string()));

    tracing::end_span(&mut t, &inner, 120).unwrap();
    assert_eq!(tracing::current_span_id(&t).unwrap().as_deref(), Some(outer.as_str()));
    assert_eq!(tracing::get_span(&t, &inner).unwrap().ended_ms, Some(120));

    let active = tracing::active_spans(&t).unwrap();
    assert!(active.iter().any(|s| s.id == outer));
    assert!(!active.iter().any(|s| s.id == inner));

    tracing::end_span(&mut t, &outer, 200).unwrap();
    assert!(tracing::current_span_id(&t).unwrap().is_none());
    assert!(tracing::active_spans(&t).unwrap().is_empty());
}

#[test]
fn test_health_check_probe_logic() {
    let mut r = HealthState::new();
    assert_eq!(health_check::status(&r).unwrap(), OverallStatus::Healthy);

    health_check::register(&mut r, "db").unwrap();
    assert_eq!(health_check::register(&mut r, "db").unwrap_err(), HealthError::DuplicateProbe);
    health_check::register(&mut r, "cache").unwrap();

    health_check::record_result(&mut r, "db", true, None, 0).unwrap();
    health_check::record_result(&mut r, "cache", true, Some("fast".to_string()), 0).unwrap();
    assert_eq!(health_check::status(&r).unwrap(), OverallStatus::Healthy);

    health_check::record_result(&mut r, "cache", false, Some("timeout".to_string()), 0).unwrap();
    assert_eq!(health_check::status(&r).unwrap(), OverallStatus::Degraded);

    health_check::record_result(&mut r, "db", false, None, 0).unwrap();
    assert_eq!(health_check::status(&r).unwrap(), OverallStatus::Unhealthy);

    health_check::record_result(&mut r, "db", true, None, 0).unwrap();
    health_check::record_result(&mut r, "cache", true, None, 0).unwrap();
    assert_eq!(health_check::status(&r).unwrap(), OverallStatus::Healthy);
}

#[test]
fn test_config_loader_set_get_delete() {
    let mut cfg = ConfigState::new();

    config_loader::set(&mut cfg, "db.host", "localhost", false, 0).unwrap();
    assert_eq!(config_loader::get(&cfg, "db.host").unwrap().as_deref(), Some("localhost"));
    assert!(config_loader::contains(&cfg, "db.host").unwrap());

    config_loader::set(&mut cfg, "api.secret-key", "s3cr3t", true, 0).unwrap();
    let keys = config_loader::list_keys(&cfg).unwrap();
    assert!(keys.contains(&"db.host".to_string()));
    assert!(keys.contains(&"api.secret-key".to_string()));

    assert_eq!(config_loader::get_or_default(&cfg, "missing", "default").unwrap(), "default");
    assert_eq!(config_loader::get_or_default(&cfg, "db.host", "default").unwrap(), "localhost");

    config_loader::delete(&mut cfg, "db.host").unwrap();
    assert!(!config_loader::contains(&cfg, "db.host").unwrap());
    config_loader::delete(&mut cfg, "db.host").unwrap();

    assert!(config_loader::set(&mut cfg, "", "v", false, 0).is_err());
    assert!(config_loader::set(&mut cfg, "bad key!", "v", false, 0).is_err());
    assert!(config_loader::set(&mut cfg, "valid-key_1.2:3", "ok", false, 0).is_ok());
}

#[test]
fn test_distributed_lock_acquire_release() {
    let mut store = LockState::new();

    let token = distributed_lock::acquire(&mut store, "res", "worker-1", 1000, 0).unwrap();
    assert_eq!(token, "res:worker-1:0");
    assert!(distributed_lock::is_locked(&store, "res", 500).unwrap());

    assert_eq!(distributed_lock::acquire(&mut store, "res", "worker-2", 1000, 500).unwrap_err(), LockError::AlreadyLocked);

    assert_eq!(distributed_lock::release(&mut store, "res", "bad-token").unwrap_err(), LockError::InvalidToken);

    distributed_lock::extend(&mut store, "res", &token, 2000, 500).unwrap();
    assert!(distributed_lock::is_locked(&store, "res", 1500).unwrap());

    distributed_lock::release(&mut store, "res", &token).unwrap();
    assert!(!distributed_lock::is_locked(&store, "res", 100).unwrap());

    distributed_lock::acquire(&mut store, "res", "w", 100, 0).unwrap();
    assert!(!distributed_lock::is_locked(&store, "res", 100).unwrap());
    let token2 = distributed_lock::acquire(&mut store, "res", "w2", 500, 200).unwrap();
    assert!(distributed_lock::is_locked(&store, "res", 300).unwrap());
    distributed_lock::release(&mut store, "res", &token2).unwrap();
}

#[test]
fn test_feature_flags_logic() {
    let mut f = FlagState::new();

    feature_flags::set(&mut f, "new-ui", FlagValue::Boolean(true), None, 0).unwrap();
    assert!(feature_flags::is_enabled(&f, "new-ui").unwrap());
    assert!(feature_flags::is_enabled(&f, "NEW-UI").unwrap());
    feature_flags::set(&mut f, "old-ui", FlagValue::Boolean(false), None, 0).unwrap();
    assert!(!feature_flags::is_enabled(&f, "old-ui").unwrap());

    assert!(!feature_flags::is_enabled(&f, "missing").unwrap());

    feature_flags::set(&mut f, "api-version", FlagValue::Text("v2".to_string()), None, 0).unwrap();
    assert_eq!(feature_flags::get(&f, "api-version").unwrap().value, FlagValue::Text("v2".to_string()));

    feature_flags::set(&mut f, "rollout-pct", FlagValue::Integer(25), None, 0).unwrap();
    assert_eq!(feature_flags::get(&f, "rollout-pct").unwrap().value, FlagValue::Integer(25));

    assert_eq!(feature_flags::is_enabled(&f, "rollout-pct").unwrap_err(), FlagError::TypeMismatch);

    feature_flags::set(&mut f, "new-ui", FlagValue::Boolean(false), None, 0).unwrap();
    assert!(!feature_flags::is_enabled(&f, "new-ui").unwrap());

    feature_flags::delete(&mut f, "new-ui").unwrap();
    assert!(!feature_flags::is_enabled(&f, "new-ui").unwrap());
    assert!(feature_flags::get(&f, "new-ui").is_err());
    feature_flags::delete(&mut f, "new-ui").unwrap();

    let all = feature_flags::list(&f).unwrap();
    assert!(all.len() >= 2);
}

#[test]
fn test_observability_logger_and_metrics() {
    let mut o = ObsState::new();
    observability::set_level(&mut o, LogLevel::Info).unwrap();
    observability::log_msg(&mut o, LogLevel::Debug, "app", "dropped").unwrap();
    observability::log_msg(&mut o, LogLevel::Info, "app", "kept").unwrap();
    observability::log_msg(&mut o, LogLevel::Error, "app", "also kept").unwrap();
    let entries = observability::drain(&mut o).unwrap();
    assert_eq!(entries.len(), 2);
    assert!(entries.iter().all(|e| e.level >= LogLevel::Info));
    assert!(observability::drain(&mut o).unwrap().is_empty(), "drain clears buffer");

    observability::increment(&mut o, "requests", 1, vec![]).unwrap();
    observability::increment(&mut o, "requests", 1, vec![]).unwrap();
    observability::increment(&mut o, "requests", 3, vec![]).unwrap();
    let c = observability::counters(&o).unwrap();
    assert_eq!(c.iter().find(|s| s.name == "requests").unwrap().value, 5);

    observability::gauge_set(&mut o, "active_conns", 10, vec![]).unwrap();
    observability::gauge_set(&mut o, "active_conns", 7, vec![]).unwrap();
    let g = observability::gauges(&o).unwrap();
    assert_eq!(g.iter().find(|s| s.name == "active_conns").unwrap().value, 7);

    observability::gauge_set(&mut o, "queue_lag", -3, vec![]).unwrap();
    let g = observability::gauges(&o).unwrap();
    assert_eq!(g.iter().find(|s| s.name == "queue_lag").unwrap().value, -3);

    observability::reset(&mut o).unwrap();
    assert!(observability::counters(&o).unwrap().is_empty());
    assert!(observability::gauges(&o).unwrap().is_empty());

    let pair = |k: &str, v: &str| (k.to_string(), v.to_string());
    observability::increment(&mut o, "evt", 1, vec![pair("b", "2"), pair("a", "1")]).unwrap();
    observability::increment(&mut o, "evt", 1, vec![pair("a", "1"), pair("b", "2")]).unwrap();
    let c = observability::counters(&o).unwrap();
    assert_eq!(c.len(), 1, "label order must not affect key");
    assert_eq!(c[0].labels, vec![pair("a", "1"), pair("b", "2")]);
}

#[test]
fn test_tenant_context_scoping() {
    assert_eq!(scope("acme", "cache:item-1").unwrap(), "acme:cache:item-1");
    assert_eq!(scope("globex", "cache:item-1").unwrap(), "globex:cache:item-1");

    let k1 = scope("acme", "rate-limit:user-42").unwrap();
    let k2 = scope("globex", "rate-limit:user-42").unwrap();
    assert_ne!(k1, k2);

    assert_eq!(parse_tenant(&k1).unwrap(), "acme");
    assert_eq!(parse_tenant(&k2).unwrap(), "globex");

    assert!(scope("", "key").is_err());
    assert!(scope("bad id!", "key").is_err());
    assert!(scope("t1", "").is_err());
    assert!(scope("t1", "bad key!").is_err());
    assert!(scope("ten:ant", "key").is_err());

    assert!(scope("any-unregistered-org", "lock:res").is_ok());

    let cache_key = scope("acme", "cache:session-abc").unwrap();
    let rate_limit_key = scope("acme", "rate-limit:alice").unwrap();
    let lock_key = scope("acme", "lock:resource-1").unwrap();
    assert!(cache_key.starts_with("acme:"));
    assert!(rate_limit_key.starts_with("acme:"));
    assert!(lock_key.starts_with("acme:"));
    assert_ne!(cache_key, rate_limit_key);
}

#[test]
fn lock_refusals_ignore_ttl() {
    let mut store = LockState::new();
    distributed_lock::acquire(&mut store, "res-2", "a", 1000, 0).unwrap();
    // A held lock is refused before any expiry is computed.
    assert_eq!(distributed_lock::acquire(&mut store, "res-2", "b", u64::MAX, 500).unwrap_err(), LockError::AlreadyLocked);
    assert_eq!(distributed_lock::acquire(&mut store, "  ", "b", u64::MAX, 500).unwrap_err(), LockError::InvalidKey);
    assert_eq!(distributed_lock::extend(&mut store, "res-2", "wrong", u64::MAX, 500).unwrap_err(), LockError::InvalidToken);
    assert_eq!(distributed_lock::extend(&mut store, "other", "t", u64::MAX, 500).unwrap_err(), LockError::NotFound);
}

#[test]
fn cache_invalid_key_ignores_ttl() {
    let mut c = CacheState::new();
    assert_eq!(cache::set(&mut c, "   ", b"x".to_vec(), Some(u64::MAX), u64::MAX).unwrap_err(), cache::CacheError::InvalidKey);
}
