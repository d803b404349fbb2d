use wasmcloud_utils::circuit_breaker::{
    get_state, init, record_call, reset, BreakerConfig, BreakerError, BreakerState, CallResult,
    CircuitState,
};

fn cfg(ft: u64, st: u64, tm: u64) -> BreakerConfig {
    BreakerConfig { failure_threshold: ft, success_threshold: st, timeout_ms: tm }
}

fn breaker(c: BreakerConfig) -> BreakerState {
    let mut b = BreakerState::new();
    init(&mut b, c).unwrap();
    b
}

#[test]
fn test_closed_trips_to_open_after_threshold() {
    let mut b = breaker(cfg(3, 2, 1000));
    for _ in 0..2 {
        record_call(&mut b, "trip1", CallResult::Failure, 0).unwrap();
    }
    assert_eq!(get_state(&b, "trip1").unwrap(), CircuitState::Closed);
    record_call(&mut b, "trip1", CallResult::Failure, 0).unwrap();
    assert_eq!(get_state(&b, "trip1").unwrap(), CircuitState::Open);
}

#[test]
fn test_open_rejects_calls_immediately() {
    let mut b = breaker(cfg(1, 1, 5000));
    record_call(&mut b, "reject1", CallResult::Failure, 0).unwrap();
    let err = record_call(&mut b, "reject1", CallResult::Success, 100).unwrap_err();
    assert_eq!(err, BreakerError::OpenCircuit);
}

#[test]
fn test_open_transitions_to_half_open_after_timeout() {
    let mut b = breaker(cfg(1, 1, 500));
    record_call(&mut b, "probe1", CallResult::Failure, 0).unwrap();
    assert_eq!(get_state(&b, "probe1").unwrap(), CircuitState::Open);
    assert_eq!(
        record_call(&mut b, "probe1", CallResult::Success, 499).unwrap_err(),
        BreakerError::OpenCircuit
    );
    record_call(&mut b, "probe1", CallResult::Success, 500).unwrap();
    assert_eq!(get_state(&b, "probe1").unwrap(), CircuitState::Closed);
}

#[test]
fn test_half_open_closes_on_success_threshold() {
    let mut b = breaker(cfg(1, 2, 100));
    record_call(&mut b, "close1", CallResult::Failure, 0).unwrap();
    record_call(&mut b, "close1", CallResult::Success, 100).unwrap();
    assert_eq!(get_state(&b, "close1").unwrap(), CircuitState::HalfOpen);
    record_call(&mut b, "close1", CallResult::Success, 100).unwrap();
    assert_eq!(get_state(&b, "close1").unwrap(), CircuitState::Closed);
}

#[test]
fn test_half_open_reopens_on_failure() {
    let mut b = breaker(cfg(1, 2, 100));
    record_call(&mut b, "reopen1", CallResult::Failure, 0).unwrap();
    record_call(&mut b, "reopen1", CallResult::Success, 100).unwrap();
    assert_eq!(get_state(&b, "reopen1").unwrap(), CircuitState::HalfOpen);
    record_call(&mut b, "reopen1", CallResult::Failure, 100).unwrap();
    assert_eq!(get_state(&b, "reopen1").unwrap(), CircuitState::Open);
}

#[test]
fn test_reset_clears_entry() {
    let mut b = breaker(cfg(1, 1, 1000));
    record_call(&mut b, "rst1", CallResult::Failure, 0).unwrap();
    assert_eq!(get_state(&b, "rst1").unwrap(), CircuitState::Open);
    reset(&mut b, "rst1").unwrap();
    assert_eq!(get_state(&b, "rst1").unwrap(), CircuitState::Closed);
}

#[test]
fn test_not_initialized_error() {
    let b = BreakerState::new();
    assert_eq!(get_state(&b, "x").unwrap_err(), BreakerError::NotInitialized);
}

#[test]
fn test_invalid_config_zero_threshold() {
    let mut b = BreakerState::new();
    assert_eq!(init(&mut b, cfg(0, 1, 1000)).unwrap_err(), BreakerError::InvalidConfig);
    assert_eq!(init(&mut b, cfg(1, 0, 1000)).unwrap_err(), BreakerError::InvalidConfig);
}

#[test]
fn test_success_in_closed_resets_failure_count() {
    let mut b = breaker(cfg(3, 1, 1000));
    record_call(&mut b, "succ_rst", CallResult::Failure, 0).unwrap();
    record_call(&mut b, "succ_rst", CallResult::Failure, 0).unwrap();
    record_call(&mut b, "succ_rst", CallResult::Success, 0).unwrap();
    record_call(&mut b, "succ_rst", CallResult::Failure, 0).unwrap();
    record_call(&mut b, "succ_rst", CallResult::Failure, 0).unwrap();
    assert_eq!(get_state(&b, "succ_rst").unwrap(), CircuitState::Closed);
    record_call(&mut b, "succ_rst", CallResult::Failure, 0).unwrap();
    assert_eq!(get_state(&b, "succ_rst").unwrap(), CircuitState::Open);
}

#[test]
fn test_independent_keys() {
    let mut b = breaker(cfg(2, 1, 1000));
    record_call(&mut b, "ind_a", CallResult::Failure, 0).unwrap();
    record_call(&mut b, "ind_a", CallResult::Failure, 0).unwrap();
    assert_eq!(get_state(&b, "ind_a").unwrap(), CircuitState::Open);
    assert_eq!(get_state(&b, "ind_b").unwrap(), CircuitState::Closed);
}

#[test]
fn breaker_record_before_init_is_refused() {
    let mut b = BreakerState::new();
    assert_eq!(
        record_call(&mut b, "k", CallResult::Failure, 0).unwrap_err(),
        BreakerError::NotInitialized
    );
    assert_eq!(reset(&mut b, "k").unwrap_err(), BreakerError::NotInitialized);
}
