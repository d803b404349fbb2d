//! Circuit breaker: per-key Closed / Open / Half-Open state machine.
use vstd::prelude::*;
use crate::store::KeyedStore;

verus! {

/// The state of one circuit.
#[derive(Debug, Clone, Copy, PartialEq, Eq, Structural)]
pub enum CircuitState {
    Closed,
    Open,
    HalfOpen,
}

/// Thresholds and timeout shared by every circuit.
#[derive(Debug, Clone, Copy, PartialEq, Eq, Structural)]
pub struct BreakerConfig {
    pub failure_threshold: u64,
    pub success_threshold: u64,
    pub timeout_ms: u64,
}

/// Errors of the circuit breaker.
#[derive(Debug, Clone, Copy, PartialEq, Eq, Structural)]
pub enum BreakerError {
    NotInitialized,
    OpenCircuit,
    InvalidConfig,
}

/// The outcome of a protected call.
#[derive(Debug, Clone, Copy, PartialEq, Eq, Structural)]
pub enum CallResult {
    Success,
    Failure,
}

/// The counters and state of one circuit.
#[derive(Debug, Clone, Copy, PartialEq, Eq, Structural)]
pub struct BreakerEntry {
    pub state: CircuitState,
    pub failure_count: u64,
    pub success_count: u64,
    pub opened_at_ms: u64,
}

impl BreakerEntry {
    /// A closed circuit with cleared counters.
    pub fn new() -> (r: Self)
        ensures
            r == Self::fresh(),
    {
        BreakerEntry { state: CircuitState::Closed, failure_count: 0, success_count: 0, opened_at_ms: 0 }
    }

    /// A closed circuit with cleared counters.
    pub open spec fn fresh() -> Self {
        BreakerEntry { state: CircuitState::Closed, failure_count: 0, success_count: 0, opened_at_ms: 0 }
    }

    /// Counters stay below `u64::MAX`.
    pub open spec fn wf(&self) -> bool {
        self.failure_count < u64::MAX && self.success_count < u64::MAX
    }
}

/// The configuration and every circuit seen so far.
pub struct BreakerState {
    pub config: Option<BreakerConfig>,
    pub entries: KeyedStore<BreakerEntry>,
}

/// Whether `config` is accepted by `init`.
pub open spec fn config_valid(config: BreakerConfig) -> bool {
    config.failure_threshold != 0 && config.success_threshold != 0
}

/// A circuit opened at `now` with cleared counters.
pub open spec fn opened(e: BreakerEntry, now: u64) -> BreakerEntry {
    BreakerEntry { state: CircuitState::Open, opened_at_ms: now, failure_count: 0, success_count: 0 }
}

/// What recording `result` at `now` does to a circuit that is not open.
pub open spec fn apply_result(e: BreakerEntry, c: BreakerConfig, result: CallResult, now: u64) -> BreakerEntry {
    match (e.state, result) {
        (CircuitState::Closed, CallResult::Failure) => if e.failure_count + 1 >= c.failure_threshold {
            opened(e, now)
        } else {
            BreakerEntry { failure_count: (e.failure_count + 1) as u64, ..e }
        },
        (CircuitState::Closed, CallResult::Success) => BreakerEntry { failure_count: 0, ..e },
        (CircuitState::HalfOpen, CallResult::Success) => if e.success_count + 1 >= c.success_threshold {
            BreakerEntry { state: CircuitState::Closed, failure_count: 0, success_count: 0, ..e }
        } else {
            BreakerEntry { success_count: (e.success_count + 1) as u64, ..e }
        },
        (CircuitState::HalfOpen, CallResult::Failure) => opened(e, now),
        _ => e,
    }
}

/// What recording `result` at `now` does to circuit `e`: an open circuit whose
/// timeout has not elapsed rejects the call; one whose timeout elapsed becomes
/// half-open with cleared counters and then takes the result.
pub open spec fn step(e: BreakerEntry, c: BreakerConfig, result: CallResult, now: u64) -> Result<BreakerEntry, BreakerError> {
    if e.state == CircuitState::Open {
        if now >= e.opened_at_ms + c.timeout_ms {
            Ok(apply_result(BreakerEntry { state: CircuitState::HalfOpen, failure_count: 0, success_count: 0, ..e }, c, result, now))
        } else {
            Err(BreakerError::OpenCircuit)
        }
    } else {
        Ok(apply_result(e, c, result, now))
    }
}

impl BreakerState {
    /// Stored circuits keep their counters in range and the configuration is valid.
    pub open spec fn wf(&self) -> bool {
        &&& self.entries.wf()
        &&& self.config matches Some(c) ==> config_valid(c)
        &&& forall|k: Seq<char>| #[trigger] self.entries@.contains_key(k) ==> self.entries@[k].wf()
    }

    /// The circuit stored under `key`, or a fresh one.
    pub open spec fn entry_for(&self, key: Seq<char>) -> BreakerEntry {
        if self.entries@.contains_key(key) {
            self.entries@[key]
        } else {
            BreakerEntry::fresh()
        }
    }

    /// No configuration and no circuits.
    pub fn new() -> (r: Self)
        ensures
            r.wf(),
            r.config is None,
            r.entries@ == Map::<Seq<char>, BreakerEntry>::empty(),
    {
        BreakerState { config: None, entries: KeyedStore::new() }
    }
}

/// Install the configuration; rejected when either threshold is zero.
pub fn init(state: &mut BreakerState, config: BreakerConfig) -> (r: Result<(), BreakerError>)
    requires
        old(state).wf(),
    ensures
        final(state).wf(),
        r is Err <==> !config_valid(config),
        r matches Err(e) ==> e == BreakerError::InvalidConfig && final(state).config == old(state).config,
        r is Ok ==> final(state).config == Some(config),
        final(state).entries@ == old(state).entries@,
{
    if config.failure_threshold == 0 || config.success_threshold == 0 {
        return Err(BreakerError::InvalidConfig);
    }
    state.config = Some(config);
    Ok(())
}

/// Record the outcome of a protected call for the circuit `key` at `now_ms`.
pub fn record_call(state: &mut BreakerState, key: &str, result: CallResult, now_ms: u64) -> (r: Result<(), BreakerError>)
    requires
        old(state).wf(),
        old(state).config matches Some(c) ==> (old(state).entry_for(key@).state == CircuitState::Open
            ==> old(state).entry_for(key@).opened_at_ms + c.timeout_ms <= u64::MAX),
    ensures
        final(state).wf(),
        final(state).config == old(state).config,
        old(state).config is None ==> r == Err::<(), BreakerError>(BreakerError::NotInitialized)
            && final(state).entries@ == old(state).entries@,
        old(state).config matches Some(c) ==> match step(old(state).entry_for(key@), c, result, now_ms) {
            Ok(e) => r is Ok && final(state).entries@ == old(state).entries@.insert(key@, e),
            Err(err) => r == Err::<(), BreakerError>(err) && final(state).entries@ == old(state).entries@,
        },
{
    let config = match state.config {
        Some(c) => c,
        None => return Err(BreakerError::NotInitialized),
    };
    let k = crate::text::owned(key);
    let mut entry = match state.entries.get(&k) {
        Some(e) => *e,
        None => BreakerEntry::new(),
    };
    if entry.state == CircuitState::Open {
        if now_ms >= entry.opened_at_ms + config.timeout_ms {
            entry.state = CircuitState::HalfOpen;
            entry.failure_count = 0;
            entry.success_count = 0;
        } else {
            return Err(BreakerError::OpenCircuit);
        }
    }
    match (entry.state, result) {
        (CircuitState::Closed, CallResult::Failure) => {
            entry.failure_count = entry.failure_count + 1;
            if entry.failure_count >= config.failure_threshold {
                entry.state = CircuitState::Open;
                entry.opened_at_ms = now_ms;
                entry.failure_count = 0;
                entry.success_count = 0;
            }
        },
        (CircuitState::Closed, CallResult::Success) => {
            entry.failure_count = 0;
        },
        (CircuitState::HalfOpen, CallResult::Success) => {
            entry.success_count = entry.success_count + 1;
            if entry.success_count >= config.success_threshold {
                entry.state = CircuitState::Closed;
                entry.failure_count = 0;
                entry.success_count = 0;
            }
        },
        (CircuitState::HalfOpen, CallResult::Failure) => {
            entry.state = CircuitState::Open;
            entry.opened_at_ms = now_ms;
            entry.failure_count = 0;
            entry.success_count = 0;
        },
        _ => {},
    }
    state.entries.insert(k, entry);
    Ok(())
}

/// The state of circuit `key`; a circuit never seen is closed.
pub fn get_state(state: &BreakerState, key: &str) -> (r: Result<CircuitState, BreakerError>)
    requires
        state.wf(),
    ensures
        state.config is None ==> r == Err::<CircuitState, BreakerError>(BreakerError::NotInitialized),
        state.config is Some ==> r == Ok::<CircuitState, BreakerError>(state.entry_for(key@).state),
{
    if state.config.is_none() {
        return Err(BreakerError::NotInitialized);
    }
    let k = crate::text::owned(key);
    match state.entries.get(&k) {
        Some(e) => Ok(e.state),
        None => Ok(CircuitState::Closed),
    }
}

/// Force circuit `key` back to a fresh closed circuit.
pub fn reset(state: &mut BreakerState, key: &str) -> (r: Result<(), BreakerError>)
    requires
        old(state).wf(),
    ensures
        final(state).wf(),
        final(state).config == old(state).config,
        old(state).config is None ==> r == Err::<(), BreakerError>(BreakerError::NotInitialized)
            && final(state).entries@ == old(state).entries@,
        old(state).config is Some ==> r is Ok && final(state).entries@ == old(state).entries@.remove(key@),
{
    if state.config.is_none() {
        return Err(BreakerError::NotInitialized);
    }
    let k = crate::text::owned(key);
    let _ = state.entries.remove(&k);
    Ok(())
}

// ── Laws ────────────────────────────────────────────────────────────────────

/// Circuit `e` after `n` calls with outcome `result` at `now`; a rejected call
/// leaves the circuit as it was.
pub open spec fn repeat_calls(e: BreakerEntry, c: BreakerConfig, result: CallResult, now: u64, n: nat) -> BreakerEntry
    decreases n,
{
    if n == 0 {
        e
    } else {
        let p = repeat_calls(e, c, result, now, (n - 1) as nat);
        match step(p, c, result, now) {
            Ok(q) => q,
            Err(_) => p,
        }
    }
}

/// A closed circuit with no recorded failures stays closed, counting the
/// failures, for fewer than `failure_threshold` consecutive failures, and is
/// open (opened at `now`) from the `failure_threshold`-th failure on.
pub proof fn law_failures_trip_open(e: BreakerEntry, c: BreakerConfig, now: u64, n: nat)
    requires
        config_valid(c),
        e.state == CircuitState::Closed,
        e.failure_count == 0,
        e.opened_at_ms + c.timeout_ms <= u64::MAX,
        now + c.timeout_ms <= u64::MAX,
    ensures
        n < c.failure_threshold ==> repeat_calls(e, c, CallResult::Failure, now, n)
            == (BreakerEntry { failure_count: n as u64, ..e }),
        n >= c.failure_threshold ==> repeat_calls(e, c, CallResult::Failure, now, n).state
            == CircuitState::Open && repeat_calls(e, c, CallResult::Failure, now, n).opened_at_ms == now,
    decreases n,
{
    if n > 0 {
        law_failures_trip_open(e, c, now, (n - 1) as nat);
    }
}

/// A half-open circuit with no recorded successes stays half-open, counting
/// the successes, for fewer than `success_threshold` consecutive successes, and
/// is closed from the `success_threshold`-th success on.
pub proof fn law_successes_close(e: BreakerEntry, c: BreakerConfig, now: u64, n: nat)
    requires
        config_valid(c),
        e.state == CircuitState::HalfOpen,
        e.success_count == 0,
    ensures
        n < c.success_threshold ==> repeat_calls(e, c, CallResult::Success, now, n)
            == (BreakerEntry { success_count: n as u64, ..e }),
        n >= c.success_threshold ==> repeat_calls(e, c, CallResult::Success, now, n).state
            == CircuitState::Closed,
    decreases n,
{
    if n > 0 {
        law_successes_close(e, c, now, (n - 1) as nat);
    }
}

/// An open circuit rejects every call until its timeout has elapsed.
pub proof fn law_open_rejects_before_timeout(e: BreakerEntry, c: BreakerConfig, result: CallResult, now: u64)
    requires
        e.state == CircuitState::Open,
        now < e.opened_at_ms + c.timeout_ms,
    ensures
        step(e, c, result, now) == Err::<BreakerEntry, BreakerError>(BreakerError::OpenCircuit),
{
}

/// Once its timeout has elapsed, an open circuit lets the call through as a
/// probe: a success then counts toward closing, a failure reopens it at `now`.
pub proof fn law_open_probes_after_timeout(e: BreakerEntry, c: BreakerConfig, result: CallResult, now: u64)
    requires
        config_valid(c),
        e.state == CircuitState::Open,
        now >= e.opened_at_ms + c.timeout_ms,
    ensures
        step(e, c, result, now) is Ok,
        result == CallResult::Failure ==> step(e, c, result, now) == Ok::<BreakerEntry, BreakerError>(opened(e, now)),
        result == CallResult::Success ==> (step(e, c, result, now)->Ok_0).state == if c.success_threshold == 1 {
            CircuitState::Closed
        } else {
            CircuitState::HalfOpen
        },
{
}

/// A failure in the half-open state reopens the circuit at `now`.
pub proof fn law_half_open_failure_reopens(e: BreakerEntry, c: BreakerConfig, now: u64)
    requires
        e.state == CircuitState::HalfOpen,
    ensures
        step(e, c, CallResult::Failure, now) == Ok::<BreakerEntry, BreakerError>(opened(e, now)),
{
}

/// A success in the closed state clears the failure counter and keeps the circuit closed.
pub proof fn law_closed_success_clears_failures(e: BreakerEntry, c: BreakerConfig, now: u64)
    requires
        e.state == CircuitState::Closed,
    ensures
        step(e, c, CallResult::Success, now) == Ok::<BreakerEntry, BreakerError>(BreakerEntry { failure_count: 0, ..e }),
{
}

/// After `reset(key)`, the circuit `key` reads as closed; other circuits are untouched.
pub proof fn law_reset_closes(before: BreakerState, after: BreakerState, key: Seq<char>, other: Seq<char>)
    requires
        before.config is Some,
        after.config == before.config,
        after.entries@ == before.entries@.remove(key),
        other != key,
    ensures
        after.entry_for(key) == BreakerEntry::fresh(),
        after.entry_for(key).state == CircuitState::Closed,
        after.entry_for(other) == before.entry_for(other),
{
}

/// Recording a call for one circuit leaves every other circuit as it was.
pub proof fn law_keys_independent(before: BreakerState, after: BreakerState, key: Seq<char>, e: BreakerEntry, other: Seq<char>)
    requires
        after.entries@ == before.entries@.insert(key, e),
        other != key,
    ensures
        after.entry_for(other) == before.entry_for(other),
{
}

} // verus!
