//! Retry policy: backoff delays per attempt (fixed, exponential, or
//! exponential with deterministic jitter), all capped at `max_delay_ms`.
use vstd::prelude::*;
use vstd::arithmetic::power2::pow2;

verus! {

/// How the delay grows with the attempt number.
#[derive(Debug, Clone, Copy, PartialEq, Eq, Structural)]
pub enum BackoffStrategy {
    Fixed,
    Exponential,
    ExponentialJitter,
}

/// The retry policy.
#[derive(Debug, Clone, Copy, PartialEq, Eq, Structural)]
pub struct RetryConfig {
    pub max_attempts: u32,
    pub base_delay_ms: u64,
    pub max_delay_ms: u64,
    pub strategy: BackoffStrategy,
}

/// The delay before one attempt.
#[derive(Debug, Clone, Copy, PartialEq, Eq, Structural)]
pub struct RetrySchedule {
    pub attempt: u32,
    pub delay_ms: u64,
    pub is_last: bool,
}

/// Errors of the retry policy.
#[derive(Debug, Clone, Copy, PartialEq, Eq, Structural)]
pub enum RetryError {
    NotInitialized,
    Exhausted,
    InvalidConfig,
}

/// The installed policy, if any.
pub struct RetryState {
    pub config: Option<RetryConfig>,
}

/// Whether `init` accepts `config`.
pub open spec fn config_valid(config: RetryConfig) -> bool {
    config.max_attempts != 0 && config.base_delay_ms <= config.max_delay_ms
}

/// `a * b`, saturated at `u64::MAX`.
pub open spec fn sat_mul(a: u64, b: int) -> u64 {
    if a * b > u64::MAX {
        u64::MAX
    } else {
        (a * b) as u64
    }
}

/// `a + b`, saturated at `u64::MAX`.
pub open spec fn sat_add(a: int, b: int) -> u64 {
    if a + b > u64::MAX {
        u64::MAX
    } else {
        (a + b) as u64
    }
}

/// The linear congruential step used for jitter.
pub open spec fn lcg_spec(seed: u64) -> u64 {
    seed.wrapping_mul(6364136223846793005).wrapping_add(1442695040888963407)
}

/// `base * 2^(attempt-1)`, saturated at `u64::MAX`.
pub open spec fn exp_delay(base: u64, attempt: u32) -> u64 {
    sat_mul(base, pow2((attempt - 1) as nat) as int)
}

/// The delay for `attempt` before the cap.
pub open spec fn raw_delay(cfg: RetryConfig, attempt: u32, seed: u64) -> u64 {
    let exp = exp_delay(cfg.base_delay_ms, attempt);
    match cfg.strategy {
        BackoffStrategy::Fixed => cfg.base_delay_ms,
        BackoffStrategy::Exponential => exp,
        BackoffStrategy::ExponentialJitter => {
            let noise = lcg_spec(seed.wrapping_add(attempt as u64));
            let jitter = noise % ((exp / 2 + 1) as u64);
            sat_add(exp - exp / 4, jitter as int)
        },
    }
}

/// The delay for `attempt`: the raw delay capped at `max_delay_ms`.
pub open spec fn delay_for(cfg: RetryConfig, attempt: u32, seed: u64) -> u64 {
    let raw = raw_delay(cfg, attempt, seed);
    if raw < cfg.max_delay_ms {
        raw
    } else {
        cfg.max_delay_ms
    }
}

/// What `next_delay(attempt, seed)` returns under `cfg`.
pub open spec fn schedule_for(cfg: RetryConfig, attempt: u32, seed: u64) -> Result<RetrySchedule, RetryError> {
    if attempt == 0 || attempt > cfg.max_attempts {
        Err(RetryError::Exhausted)
    } else {
        Ok(RetrySchedule { attempt, delay_ms: delay_for(cfg, attempt, seed), is_last: attempt == cfg.max_attempts })
    }
}

impl RetryState {
    /// Only accepted configurations are installed.
    pub open spec fn wf(&self) -> bool {
        self.config matches Some(c) ==> config_valid(c)
    }

    /// No policy installed.
    pub fn new() -> (r: Self)
        ensures
            r.wf(),
            r.config is None,
    {
        RetryState { config: None }
    }
}

/// `a * b`, saturated at `u64::MAX`.
fn saturating_mul(a: u64, b: u64) -> (r: u64)
    ensures
        r == sat_mul(a, b as int),
{
    match a.checked_mul(b) {
        Some(x) => x,
        None => u64::MAX,
    }
}

/// `base * 2^shift`, saturated at `u64::MAX`.
fn exponential(base: u64, shift: u32) -> (r: u64)
    ensures
        r == sat_mul(base, pow2(shift as nat) as int),
{
    if base == 0 {
        return 0;
    }
    if shift >= 64 {
        proof {
            vstd::arithmetic::power2::lemma2_to64();
            if shift > 64 {
                vstd::arithmetic::power2::lemma_pow2_strictly_increases(64, shift as nat);
            }
            vstd::arithmetic::mul::lemma_mul_inequality(1, base as int, pow2(shift as nat) as int);
        }
        return u64::MAX;
    }
    proof {
        vstd::bits::lemma_u64_pow2_no_overflow(shift as nat);
        vstd::bits::lemma_u64_shl_is_mul(1u64, shift as u64);
    }
    let factor: u64 = 1u64 << (shift as u64);
    saturating_mul(base, factor)
}

/// The installed policy, or `NotInitialized`.
fn with_config(state: &RetryState) -> (r: Result<RetryConfig, RetryError>)
    ensures
        r == match state.config {
            Some(c) => Ok::<RetryConfig, RetryError>(c),
            None => Err(RetryError::NotInitialized),
        },
{
    match state.config {
        Some(c) => Ok(c),
        None => Err(RetryError::NotInitialized),
    }
}

/// Install the policy; rejected when `max_attempts` is 0 or `base_delay_ms`
/// exceeds `max_delay_ms`.
pub fn init(state: &mut RetryState, config: RetryConfig) -> (r: Result<(), RetryError>)
    ensures
        r is Err <==> !config_valid(config),
        r matches Err(e) ==> e == RetryError::InvalidConfig && final(state).config == old(state).config,
        r is Ok ==> final(state).config == Some(config),
        old(state).wf() ==> final(state).wf(),
{
    if config.max_attempts == 0 {
        return Err(RetryError::InvalidConfig);
    }
    if config.base_delay_ms > config.max_delay_ms {
        return Err(RetryError::InvalidConfig);
    }
    state.config = Some(config);
    Ok(())
}

/// The linear congruential step used for jitter.
pub fn lcg(seed: u64) -> (r: u64)
    ensures
        r == lcg_spec(seed),
{
    seed.wrapping_mul(6364136223846793005).wrapping_add(1442695040888963407)
}

/// The delay before `attempt` (1-based), given the jitter `seed`.
pub fn next_delay(state: &RetryState, attempt: u32, seed: u64) -> (r: Result<RetrySchedule, RetryError>)
    ensures
        r == match state.config {
            Some(c) => schedule_for(c, attempt, seed),
            None => Err(RetryError::NotInitialized),
        },
{
    let cfg = with_config(state)?;
    if attempt == 0 || attempt > cfg.max_attempts {
        return Err(RetryError::Exhausted);
    }
    let base = cfg.base_delay_ms;
    let exp = exponential(base, attempt - 1);
    let raw = match cfg.strategy {
        BackoffStrategy::Fixed => base,
        BackoffStrategy::Exponential => exp,
        BackoffStrategy::ExponentialJitter => {
            let noise = lcg(seed.wrapping_add(attempt as u64));
            let jitter = noise % (exp / 2 + 1);
            (exp - exp / 4).saturating_add(jitter)
        },
    };
    let delay_ms = if raw < cfg.max_delay_ms {
        raw
    } else {
        cfg.max_delay_ms
    };
    Ok(RetrySchedule { attempt, delay_ms, is_last: attempt == cfg.max_attempts })
}

/// The schedule of every attempt from 1 to `max_attempts`.
pub fn full_schedule(state: &RetryState, seed: u64) -> (r: Result<Vec<RetrySchedule>, RetryError>)
    ensures
        state.config is None ==> r == Err::<Vec<RetrySchedule>, RetryError>(RetryError::NotInitialized),
        state.config matches Some(c) ==> r matches Ok(v) && v@.len() == c.max_attempts && forall|i: int|
            0 <= i < v@.len() ==> schedule_for(c, (i + 1) as u32, seed) == Ok::<RetrySchedule, RetryError>(#[trigger] v@[i]),
{
    let max = with_config(state)?.max_attempts;
    let mut v: Vec<RetrySchedule> = Vec::new();
    let mut a: u32 = 0;
    while a < max
        invariant
            state.config matches Some(c) && c.max_attempts == max,
            a <= max,
            v@.len() == a,
            forall|i: int|
                0 <= i < v@.len() ==> schedule_for(state.config->0, (i + 1) as u32, seed) == Ok::<RetrySchedule, RetryError>(#[trigger] v@[i]),
        decreases max - a,
    {
        let s = next_delay(state, a + 1, seed)?;
        v.push(s);
        a = a + 1;
    }
    Ok(v)
}

/// Whether `attempt` lies within `1..=max_attempts`.
pub fn should_retry(state: &RetryState, attempt: u32) -> (r: Result<bool, RetryError>)
    ensures
        r == match state.config {
            Some(c) => Ok::<bool, RetryError>(1 <= attempt && attempt <= c.max_attempts),
            None => Err(RetryError::NotInitialized),
        },
{
    let cfg = with_config(state)?;
    Ok(attempt >= 1 && attempt <= cfg.max_attempts)
}

// ── Laws ────────────────────────────────────────────────────────────────────

/// Every delay is capped at `max_delay_ms`, and only the final attempt is marked last.
pub proof fn law_delay_capped(cfg: RetryConfig, attempt: u32, seed: u64)
    requires
        config_valid(cfg),
        1 <= attempt <= cfg.max_attempts,
    ensures
        schedule_for(cfg, attempt, seed) matches Ok(s) && s.delay_ms <= cfg.max_delay_ms
            && s.attempt == attempt && (s.is_last <==> attempt == cfg.max_attempts),
{
}

/// A fixed strategy waits `base_delay_ms` before every attempt.
pub proof fn law_fixed_constant(cfg: RetryConfig, attempt: u32, seed: u64)
    requires
        config_valid(cfg),
        cfg.strategy == BackoffStrategy::Fixed,
        1 <= attempt <= cfg.max_attempts,
    ensures
        delay_for(cfg, attempt, seed) == cfg.base_delay_ms,
{
}

/// An exponential strategy waits `base_delay_ms * 2^(attempt-1)` (capped) before attempt `attempt`.
pub proof fn law_exponential_doubles(cfg: RetryConfig, attempt: u32, seed: u64)
    requires
        cfg.strategy == BackoffStrategy::Exponential,
        1 <= attempt,
    ensures
        delay_for(cfg, attempt, seed) == if cfg.base_delay_ms * pow2((attempt - 1) as nat)
            < cfg.max_delay_ms {
            cfg.base_delay_ms * pow2((attempt - 1) as nat)
        } else {
            cfg.max_delay_ms as int
        },
{
}

/// Exponential delays never shrink from one attempt to a later one.
pub proof fn law_exponential_monotone(cfg: RetryConfig, a1: u32, a2: u32, seed1: u64, seed2: u64)
    requires
        cfg.strategy == BackoffStrategy::Exponential,
        1 <= a1 <= a2,
    ensures
        delay_for(cfg, a1, seed1) <= delay_for(cfg, a2, seed2),
{
    let s1: nat = (a1 - 1) as nat;
    let s2: nat = (a2 - 1) as nat;
    if s1 < s2 {
        vstd::arithmetic::power2::lemma_pow2_strictly_increases(s1, s2);
    }
    vstd::arithmetic::mul::lemma_mul_inequality(pow2(s1) as int, pow2(s2) as int, cfg.base_delay_ms as int);
    vstd::arithmetic::mul::lemma_mul_is_commutative(pow2(s1) as int, cfg.base_delay_ms as int);
    vstd::arithmetic::mul::lemma_mul_is_commutative(pow2(s2) as int, cfg.base_delay_ms as int);
}

/// With jitter, the delay lies between three quarters and five quarters of the
/// exponential delay (each end capped at `max_delay_ms`).
pub proof fn law_jitter_within_range(cfg: RetryConfig, attempt: u32, seed: u64)
    requires
        cfg.strategy == BackoffStrategy::ExponentialJitter,
        1 <= attempt,
    ensures
        ({
            let exp = exp_delay(cfg.base_delay_ms, attempt);
            let lo = exp - exp / 4;
            let hi = sat_add(exp - exp / 4, (exp / 2) as int);
            &&& delay_for(cfg, attempt, seed) >= if lo < cfg.max_delay_ms { lo } else { cfg.max_delay_ms as int }
            &&& delay_for(cfg, attempt, seed) <= if hi < cfg.max_delay_ms { hi } else { cfg.max_delay_ms }
        }),
{
    let exp = exp_delay(cfg.base_delay_ms, attempt);
    let noise = lcg_spec(seed.wrapping_add(attempt as u64));
    assert(noise % ((exp / 2 + 1) as u64) <= exp / 2);
}

/// `should_retry(attempt)` holds exactly when `next_delay(attempt)` yields a schedule.
pub proof fn law_should_retry_matches_next_delay(cfg: RetryConfig, attempt: u32, seed: u64)
    ensures
        (1 <= attempt && attempt <= cfg.max_attempts) <==> schedule_for(cfg, attempt, seed) is Ok,
{
}

} // verus!
