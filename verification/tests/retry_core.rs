use wasmcloud_utils::retry::{
    full_schedule, init, next_delay, should_retry, BackoffStrategy, RetryConfig, RetryError,
    RetryState,
};

fn fixed_cfg(max: u32, base: u64) -> RetryConfig {
    RetryConfig { max_attempts: max, base_delay_ms: base, max_delay_ms: 60_000, strategy: BackoffStrategy::Fixed }
}

fn exp_cfg(max: u32, base: u64) -> RetryConfig {
    RetryConfig { max_attempts: max, base_delay_ms: base, max_delay_ms: 60_000, strategy: BackoffStrategy::Exponential }
}

fn retrier(c: RetryConfig) -> RetryState {
    let mut s = RetryState::new();
    init(&mut s, c).unwrap();
    s
}

#[test]
fn test_fixed_delay_constant() {
    let s0 = retrier(fixed_cfg(3, 200));
    for a in 1..=3 {
        let s = next_delay(&s0, a, 0).unwrap();
        assert_eq!(s.delay_ms, 200, "attempt {}", a);
        assert_eq!(s.is_last, a == 3);
    }
}

#[test]
fn test_exponential_doubles() {
    let s0 = retrier(exp_cfg(4, 100));
    let expected = [100, 200, 400, 800];
    for (i, &exp) in expected.iter().enumerate() {
        let s = next_delay(&s0, i as u32 + 1, 0).unwrap();
        assert_eq!(s.delay_ms, exp, "attempt {}", i + 1);
    }
}

#[test]
fn test_max_delay_cap() {
    let s0 = retrier(RetryConfig {
        max_attempts: 5,
        base_delay_ms: 1000,
        max_delay_ms: 3000,
        strategy: BackoffStrategy::Exponential,
    });
    let s = next_delay(&s0, 4, 0).unwrap();
    assert_eq!(s.delay_ms, 3000);
}

#[test]
fn test_exhausted_beyond_max() {
    let s0 = retrier(fixed_cfg(2, 100));
    assert_eq!(next_delay(&s0, 3, 0).unwrap_err(), RetryError::Exhausted);
    assert_eq!(next_delay(&s0, 0, 0).unwrap_err(), RetryError::Exhausted);
}

#[test]
fn test_should_retry() {
    let s0 = retrier(fixed_cfg(3, 50));
    assert!(should_retry(&s0, 1).unwrap());
    assert!(should_retry(&s0, 3).unwrap());
    assert!(!should_retry(&s0, 4).unwrap());
    assert!(!should_retry(&s0, 0).unwrap());
}

#[test]
fn test_full_schedule_length() {
    let s0 = retrier(exp_cfg(5, 100));
    let schedule = full_schedule(&s0, 42).unwrap();
    assert_eq!(schedule.len(), 5);
    assert!(schedule.last().unwrap().is_last);
    assert!(!schedule.first().unwrap().is_last);
}

#[test]
fn test_exponential_jitter_within_range() {
    let s0 = retrier(RetryConfig {
        max_attempts: 4,
        base_delay_ms: 1000,
        max_delay_ms: 60_000,
        strategy: BackoffStrategy::ExponentialJitter,
    });
    for a in 1..=4u32 {
        let base_exp = 1000u64 << (a - 1);
        let s = next_delay(&s0, a, 0).unwrap();
        let lo = base_exp * 3 / 4;
        let hi = (base_exp * 5 / 4).min(60_000);
        assert!(s.delay_ms >= lo && s.delay_ms <= hi, "attempt {}: delay {} not in [{}, {}]", a, s.delay_ms, lo, hi);
    }
}

#[test]
fn test_invalid_config_zero_attempts() {
    let mut s = RetryState::new();
    assert_eq!(
        init(&mut s, RetryConfig { max_attempts: 0, base_delay_ms: 100, max_delay_ms: 1000, strategy: BackoffStrategy::Fixed })
            .unwrap_err(),
        RetryError::InvalidConfig
    );
}

#[test]
fn test_invalid_config_base_exceeds_max() {
    let mut s = RetryState::new();
    assert_eq!(
        init(&mut s, RetryConfig { max_attempts: 3, base_delay_ms: 2000, max_delay_ms: 1000, strategy: BackoffStrategy::Fixed })
            .unwrap_err(),
        RetryError::InvalidConfig
    );
}

#[test]
fn test_not_initialized() {
    let s = RetryState::new();
    assert_eq!(next_delay(&s, 1, 0).unwrap_err(), RetryError::NotInitialized);
}

#[test]
fn retry_lcg_value() {
    assert_eq!(wasmcloud_utils::retry::lcg(0), 1442695040888963407);
    assert_eq!(
        wasmcloud_utils::retry::lcg(1),
        6364136223846793005u64.wrapping_add(1442695040888963407)
    );
}

#[test]
fn retry_exponential_reaches_high_attempts() {
    let cfg = RetryConfig { max_attempts: 70, base_delay_ms: 1, max_delay_ms: u64::MAX, strategy: BackoffStrategy::Exponential };
    let s = retrier(cfg);
    assert_eq!(next_delay(&s, 64, 0).unwrap().delay_ms, 1u64 << 63);
    // 2^64 no longer fits: the delay saturates.
    assert_eq!(next_delay(&s, 65, 0).unwrap().delay_ms, u64::MAX);
    assert_eq!(next_delay(&s, 70, 0).unwrap().delay_ms, u64::MAX);
    let zero = retrier(RetryConfig { max_attempts: 70, base_delay_ms: 0, max_delay_ms: 10, strategy: BackoffStrategy::Exponential });
    assert_eq!(next_delay(&zero, 70, 0).unwrap().delay_ms, 0);
}

#[test]
fn retry_jitter_at_attempt_sixty_four() {
    let cfg = RetryConfig { max_attempts: 64, base_delay_ms: 1, max_delay_ms: u64::MAX, strategy: BackoffStrategy::ExponentialJitter };
    let s = retrier(cfg);
    let d = next_delay(&s, 64, 0).unwrap();
    let exp: u64 = 1u64 << 63;
    let lo = exp - exp / 4;
    let jitter = wasmcloud_utils::retry::lcg(64) % (exp / 2 + 1);
    assert_eq!(d.delay_ms, lo + jitter);
    assert!(d.delay_ms >= lo && d.delay_ms <= lo + exp / 2);
    assert!(d.is_last);
}
