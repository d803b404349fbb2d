//! Rate limiting: token bucket, leaky bucket and sliding window, each with a
//! per-user component that owns a configuration and one limiter per user.
use vstd::prelude::*;
use std::collections::VecDeque;
use crate::store::KeyedStore;

verus! {

broadcast use vstd::std_specs::vecdeque::group_vec_dequeue_axioms;

/// Configuration shared by the rate limiters.
#[derive(Debug, Clone, Copy, PartialEq, Eq, Structural)]
pub struct RateLimitConfig {
    pub capacity: u64,
    pub refill_rate: u64,
    pub window_size_ms: u64,
}

/// One rate-limit check for a user.
#[derive(Debug, Clone)]
pub struct RateLimitRequest {
    pub user_id: String,
    pub tokens_requested: u64,
    pub timestamp_ms: u64,
}

/// The answer to a rate-limit check.
#[derive(Debug, Clone, Copy, PartialEq, Eq, Structural)]
pub struct RateLimitResponse {
    pub allowed: bool,
    pub tokens_remaining: u64,
    pub retry_after_ms: Option<u64>,
}

/// Errors of the rate limiters.
#[derive(Debug, Clone, Copy, PartialEq, Eq, Structural)]
pub enum RateLimitError {
    InvalidConfig,
    InvalidRequest,
}

/// Elapsed time from `from` to `to`, zero when `to` is earlier.
pub open spec fn elapsed(from: u64, to: u64) -> int {
    if to >= from {
        to - from
    } else {
        0
    }
}

// ── Token bucket ────────────────────────────────────────────────────────────

/// A bucket holding up to `capacity` tokens, refilled at `refill_rate` tokens
/// per second.  `last_refill_ms == 0` marks a bucket that was never refilled.
#[derive(Debug, Clone, Copy, PartialEq, Eq, Structural)]
pub struct TokenBucket {
    pub capacity: u64,
    pub tokens: u64,
    pub refill_rate: u64,
    pub last_refill_ms: u64,
}

impl TokenBucket {
    /// A bucket never holds more than its capacity.
    pub open spec fn wf(&self) -> bool {
        self.tokens <= self.capacity
    }

    /// Tokens that `elapsed_ms` milliseconds add at `refill_rate` per second.
    pub open spec fn tokens_added(&self, now: u64) -> int {
        (elapsed(self.last_refill_ms, now) * self.refill_rate) / 1000
    }

    /// Whether refilling at `now` stays within 64-bit arithmetic.
    pub open spec fn refill_fits(&self, now: u64) -> bool {
        self.last_refill_ms == 0 || (elapsed(self.last_refill_ms, now) * self.refill_rate
            <= u64::MAX && self.tokens + self.tokens_added(now) <= u64::MAX)
    }

    /// The bucket after a refill at `now`.
    pub open spec fn refilled(&self, now: u64) -> TokenBucket {
        if self.last_refill_ms == 0 {
            TokenBucket { last_refill_ms: now, ..*self }
        } else {
            let t = self.tokens + self.tokens_added(now);
            TokenBucket {
                tokens: if t < self.capacity {
                    t as u64
                } else {
                    self.capacity
                },
                last_refill_ms: now,
                ..*self
            }
        }
    }

    /// What `retry_after_ms(needed)` returns.
    pub open spec fn retry_after(&self, needed: u64) -> Option<u64> {
        if needed > self.capacity || needed <= self.tokens {
            None
        } else {
            Some((((needed - self.tokens) * 1000) / (self.refill_rate as int)) as u64)
        }
    }

    /// Whether `retry_after_ms(needed)` stays within 64-bit arithmetic.
    pub open spec fn retry_fits(&self, needed: u64) -> bool {
        needed > self.capacity || needed <= self.tokens || (self.refill_rate > 0 && (needed
            - self.tokens) * 1000 <= u64::MAX)
    }

    /// A full bucket that was never refilled.
    pub fn new(capacity: u64, refill_rate: u64) -> (r: Self)
        ensures
            r == (TokenBucket { capacity, tokens: capacity, refill_rate, last_refill_ms: 0 }),
            r.wf(),
    {
        TokenBucket { capacity, tokens: capacity, refill_rate, last_refill_ms: 0 }
    }

    /// Add the tokens earned since the last refill, up to the capacity.
    pub fn refill(&mut self, current_time_ms: u64)
        requires
            old(self).refill_fits(current_time_ms),
        ensures
            *final(self) == old(self).refilled(current_time_ms),
            old(self).wf() ==> final(self).wf(),
            final(self).last_refill_ms == current_time_ms,
            final(self).capacity == old(self).capacity,
            final(self).refill_rate == old(self).refill_rate,
            old(self).last_refill_ms == 0 ==> final(self).tokens == old(self).tokens,
            old(self).last_refill_ms != 0 ==> old(self).tokens <= final(self).tokens || final(self).tokens == old(self).capacity,
            old(self).last_refill_ms != 0 ==> final(self).tokens <= old(self).tokens
                + (elapsed(old(self).last_refill_ms, current_time_ms) * old(self).refill_rate) / 1000,
    {
        if self.last_refill_ms == 0 {
            self.last_refill_ms = current_time_ms;
            return;
        }
        let elapsed_ms = if current_time_ms >= self.last_refill_ms {
            current_time_ms - self.last_refill_ms
        } else {
            0
        };
        let tokens_to_add = (elapsed_ms * self.refill_rate) / 1000;
        let t = self.tokens + tokens_to_add;
        self.tokens = if t < self.capacity {
            t
        } else {
            self.capacity
        };
        self.last_refill_ms = current_time_ms;
    }

    /// Take `tokens` tokens if the bucket holds that many.
    pub fn consume(&mut self, tokens: u64) -> (r: bool)
        ensures
            r == (old(self).tokens >= tokens),
            *final(self) == (TokenBucket {
                tokens: if r {
                    (old(self).tokens - tokens) as u64
                } else {
                    old(self).tokens
                },
                ..*old(self)
            }),
            old(self).wf() ==> final(self).wf(),
    {
        if self.tokens >= tokens {
            self.tokens = self.tokens - tokens;
            true
        } else {
            false
        }
    }

    /// The tokens currently held.
    pub fn tokens_remaining(&self) -> (r: u64)
        ensures
            r == self.tokens,
    {
        self.tokens
    }

    /// Milliseconds until `tokens_needed` tokens will be available; `None`
    /// when they are available now or can never be.
    pub fn retry_after_ms(&self, tokens_needed: u64) -> (r: Option<u64>)
        requires
            self.retry_fits(tokens_needed),
        ensures
            r == self.retry_after(tokens_needed),
    {
        if tokens_needed > self.capacity {
            return None;
        }
        let tokens_deficit = if tokens_needed >= self.tokens {
            tokens_needed - self.tokens
        } else {
            0
        };
        if tokens_deficit == 0 {
            return None;
        }
        let ms_needed = (tokens_deficit * 1000) / self.refill_rate;
        Some(ms_needed)
    }
}

/// A token-bucket limiter keeping one bucket per user.
pub struct TokenBucketRateLimiter {
    pub config: Option<RateLimitConfig>,
    pub buckets: KeyedStore<TokenBucket>,
}

/// Whether `config` is accepted by the token-bucket and leaky-bucket limiters.
pub open spec fn rate_config_valid(config: RateLimitConfig) -> bool {
    config.capacity != 0 && config.refill_rate != 0
}

impl TokenBucketRateLimiter {
    /// Every bucket is well formed and follows the current configuration.
    pub open spec fn wf(&self) -> bool {
        &&& self.buckets.wf()
        &&& self.config matches Some(c) ==> rate_config_valid(c)
        &&& forall|k: Seq<char>| #[trigger]
            self.buckets@.contains_key(k) ==> self.buckets@[k].wf() && (self.config matches Some(
                c,
            ) && self.buckets@[k].capacity == c.capacity && self.buckets@[k].refill_rate
                == c.refill_rate)
    }

    /// The bucket a request for `user` works on: the stored one, else a full new one.
    pub open spec fn bucket_for(&self, user: Seq<char>) -> TokenBucket {
        if self.buckets@.contains_key(user) {
            self.buckets@[user]
        } else {
            let c = self.config->0;
            TokenBucket {
                capacity: c.capacity,
                tokens: c.capacity,
                refill_rate: c.refill_rate,
                last_refill_ms: 0,
            }
        }
    }

    /// The bucket after refilling at `ts` and trying to take `n` tokens.
    pub open spec fn stepped(b: TokenBucket, n: u64, ts: u64) -> TokenBucket {
        let r = b.refilled(ts);
        if r.tokens >= n {
            TokenBucket { tokens: (r.tokens - n) as u64, ..r }
        } else {
            r
        }
    }

    /// Whether checking `request` stays within 64-bit arithmetic.
    pub open spec fn check_fits(&self, request: RateLimitRequest) -> bool {
        request.tokens_requested != 0 && self.config is Some ==> {
            let b = self.bucket_for(request.user_id@);
            &&& b.refill_fits(request.timestamp_ms)
            &&& b.refilled(request.timestamp_ms).retry_fits(request.tokens_requested)
        }
    }

    /// A limiter with no configuration and no buckets.
    pub fn new() -> (r: Self)
        ensures
            r.wf(),
            r.config is None,
            r.buckets@ == Map::<Seq<char>, TokenBucket>::empty(),
    {
        TokenBucketRateLimiter { config: None, buckets: KeyedStore::new() }
    }

    /// Install `config` and forget every bucket.
    pub fn init(&mut self, config: RateLimitConfig) -> (r: Result<(), RateLimitError>)
        requires
            old(self).wf(),
        ensures
            final(self).wf(),
            r is Err <==> !rate_config_valid(config),
            r matches Err(e) ==> e == RateLimitError::InvalidConfig && *final(self) == *old(self),
            r is Ok ==> final(self).config == Some(config) && final(self).buckets@ == Map::<
                Seq<char>,
                TokenBucket,
            >::empty(),
    {
        if config.capacity == 0 || config.refill_rate == 0 {
            return Err(RateLimitError::InvalidConfig);
        }
        self.config = Some(config);
        self.buckets.clear();
        Ok(())
    }

    /// Refill the user's bucket, then try to take the requested tokens.
    pub fn check_rate_limit(&mut self, request: RateLimitRequest) -> (r: Result<
        RateLimitResponse,
        RateLimitError,
    >)
        requires
            old(self).wf(),
            old(self).check_fits(request),
        ensures
            final(self).wf(),
            request.tokens_requested == 0 ==> r == Err::<RateLimitResponse, RateLimitError>(
                RateLimitError::InvalidRequest,
            ) && *final(self) == *old(self),
            request.tokens_requested != 0 && old(self).config is None ==> r == Err::<
                RateLimitResponse,
                RateLimitError,
            >(RateLimitError::InvalidConfig) && *final(self) == *old(self),
            request.tokens_requested != 0 && old(self).config is Some ==> {
                let b = old(self).bucket_for(request.user_id@);
                let after = Self::stepped(b, request.tokens_requested, request.timestamp_ms);
                let allowed = b.refilled(request.timestamp_ms).tokens >= request.tokens_requested;
                &&& final(self).config == old(self).config
                &&& final(self).buckets@ == old(self).buckets@.insert(request.user_id@, after)
                &&& r == Ok::<RateLimitResponse, RateLimitError>(
                    RateLimitResponse {
                        allowed,
                        tokens_remaining: after.tokens,
                        retry_after_ms: if allowed {
                            None
                        } else {
                            b.refilled(request.timestamp_ms).retry_after(request.tokens_requested)
                        },
                    },
                )
            },
    {
        if request.tokens_requested == 0 {
            return Err(RateLimitError::InvalidRequest);
        }
        let config = match self.config {
            Some(c) => c,
            None => return Err(RateLimitError::InvalidConfig),
        };
        let mut bucket = match self.buckets.get(&request.user_id) {
            Some(b) => *b,
            None => TokenBucket::new(config.capacity, config.refill_rate),
        };
        bucket.refill(request.timestamp_ms);
        let allowed = bucket.consume(request.tokens_requested);
        let tokens_remaining = bucket.tokens_remaining();
        let retry_after_ms = if !allowed {
            bucket.retry_after_ms(request.tokens_requested)
        } else {
            None
        };
        let user = request.user_id;
        self.buckets.insert(user, bucket);
        Ok(RateLimitResponse { allowed, tokens_remaining, retry_after_ms })
    }

    /// Forget the user's bucket.
    pub fn reset(&mut self, user_id: String) -> (r: Result<(), RateLimitError>)
        requires
            old(self).wf(),
        ensures
            final(self).wf(),
            r is Ok,
            final(self).config == old(self).config,
            final(self).buckets@ == old(self).buckets@.remove(user_id@),
    {
        let _ = self.buckets.remove(&user_id);
        Ok(())
    }
}

// ── Leaky bucket ────────────────────────────────────────────────────────────

/// A queue of up to `capacity` request timestamps that drains at `leak_rate`
/// requests per second.  `last_leak_ms == 0` marks a bucket that never leaked.
#[derive(Debug, Clone)]
pub struct LeakyBucket {
    pub capacity: u64,
    pub leak_rate: u64,
    pub queue: VecDeque<u64>,
    pub last_leak_ms: u64,
}

/// `n` copies of `x`.
pub open spec fn repeat(x: u64, n: nat) -> Seq<u64> {
    Seq::new(n, |i: int| x)
}

impl LeakyBucket {
    /// The queue never holds more than the capacity.
    pub open spec fn wf(&self) -> bool {
        self.queue@.len() <= self.capacity
    }

    /// Requests that drain between the last leak and `now`.
    pub open spec fn to_leak(&self, now: u64) -> int {
        (elapsed(self.last_leak_ms, now) * self.leak_rate) / 1000
    }

    /// Whether leaking at `now` stays within 64-bit arithmetic.
    pub open spec fn leak_fits(&self, now: u64) -> bool {
        self.last_leak_ms == 0 || elapsed(self.last_leak_ms, now) * self.leak_rate <= u64::MAX
    }

    /// The queue after leaking at `now`.
    pub open spec fn leaked_queue(&self, now: u64) -> Seq<u64> {
        if self.last_leak_ms == 0 {
            self.queue@
        } else {
            let k = if self.to_leak(now) < self.queue@.len() {
                self.to_leak(now)
            } else {
                self.queue@.len() as int
            };
            self.queue@.skip(k)
        }
    }

    /// What `retry_after_ms(needed)` returns.
    pub open spec fn retry_after(&self, needed: u64) -> Option<u64> {
        if self.queue@.len() + needed <= self.capacity {
            None
        } else {
            Some((((self.queue@.len() + needed - self.capacity) * 1000) / (
            self.leak_rate as int)) as u64)
        }
    }

    /// Whether `retry_after_ms(needed)` stays within 64-bit arithmetic.
    pub open spec fn retry_fits(&self, needed: u64) -> bool {
        &&& self.queue@.len() + needed <= u64::MAX
        &&& self.queue@.len() + needed > self.capacity ==> self.leak_rate > 0 && (
        self.queue@.len() + needed - self.capacity) * 1000 <= u64::MAX
    }

    /// An empty bucket that never leaked.
    pub fn new(capacity: u64, leak_rate: u64) -> (r: Self)
        ensures
            r.capacity == capacity,
            r.leak_rate == leak_rate,
            r.queue@ == Seq::<u64>::empty(),
            r.last_leak_ms == 0,
            r.wf(),
    {
        LeakyBucket { capacity, leak_rate, queue: VecDeque::new(), last_leak_ms: 0 }
    }

    /// Drop the requests that drained since the last leak.
    pub fn leak(&mut self, current_time_ms: u64)
        requires
            old(self).leak_fits(current_time_ms),
        ensures
            final(self).queue@ == old(self).leaked_queue(current_time_ms),
            final(self).last_leak_ms == current_time_ms,
            final(self).capacity == old(self).capacity,
            final(self).leak_rate == old(self).leak_rate,
            old(self).wf() ==> final(self).wf(),
    {
        if self.last_leak_ms == 0 {
            self.last_leak_ms = current_time_ms;
            return;
        }
        let elapsed_ms = if current_time_ms >= self.last_leak_ms {
            current_time_ms - self.last_leak_ms
        } else {
            0
        };
        let requests_to_leak = (elapsed_ms * self.leak_rate) / 1000;
        let len = self.queue.len() as u64;
        let k = if requests_to_leak < len {
            requests_to_leak
        } else {
            len
        };
        let ghost q0 = self.queue@;
        let ghost b0 = *self;
        let mut i: u64 = 0;
        while i < k
            invariant
                i <= k <= q0.len(),
                self.capacity == b0.capacity,
                self.leak_rate == b0.leak_rate,
                self.queue@ == q0.skip(i as int),
            decreases k - i,
        {
            self.queue.pop_front();
            assert(q0.skip(i as int).subrange(1, q0.skip(i as int).len() as int) =~= q0.skip(
                i + 1,
            ));
            i = i + 1;
        }
        self.last_leak_ms = current_time_ms;
    }

    /// Whether `tokens` more requests fit.
    pub fn can_add(&self, tokens: u64) -> (r: bool)
        requires
            self.queue@.len() + tokens <= u64::MAX,
        ensures
            r == (self.queue@.len() + tokens <= self.capacity),
    {
        (self.queue.len() as u64 + tokens) <= self.capacity
    }

    /// Queue `tokens` requests stamped `timestamp_ms` if they fit.
    pub fn add_request(&mut self, tokens: u64, timestamp_ms: u64) -> (r: bool)
        requires
            old(self).queue@.len() + tokens <= u64::MAX,
        ensures
            r == (old(self).queue@.len() + tokens <= old(self).capacity),
            final(self).queue@ == if r {
                old(self).queue@ + repeat(timestamp_ms, tokens as nat)
            } else {
                old(self).queue@
            },
            final(self).capacity == old(self).capacity,
            final(self).leak_rate == old(self).leak_rate,
            final(self).last_leak_ms == old(self).last_leak_ms,
            old(self).wf() ==> final(self).wf(),
    {
        if !self.can_add(tokens) {
            return false;
        }
        let ghost q0 = self.queue@;
        let ghost b0 = *self;
        let mut i: u64 = 0;
        while i < tokens
            invariant
                i <= tokens,
                self.capacity == b0.capacity,
                self.leak_rate == b0.leak_rate,
                self.last_leak_ms == b0.last_leak_ms,
                self.queue@ == q0 + repeat(timestamp_ms, i as nat),
            decreases tokens - i,
        {
            self.queue.push_back(timestamp_ms);
            assert((q0 + repeat(timestamp_ms, i as nat)).push(timestamp_ms) =~= q0 + repeat(
                timestamp_ms,
                (i + 1) as nat,
            ));
            i = i + 1;
        }
        true
    }

    /// The number of queued requests.
    pub fn queue_size(&self) -> (r: u64)
        ensures
            r == self.queue@.len(),
    {
        self.queue.len() as u64
    }

    /// Milliseconds until `tokens_needed` more requests fit; `None` when they fit now.
    pub fn retry_after_ms(&self, tokens_needed: u64) -> (r: Option<u64>)
        requires
            self.retry_fits(tokens_needed),
        ensures
            r == self.retry_after(tokens_needed),
    {
        let current_size = self.queue.len() as u64;
        let total = current_size + tokens_needed;
        let space_needed = if total >= self.capacity {
            total - self.capacity
        } else {
            0
        };
        if space_needed == 0 {
            return None;
        }
        let ms_needed = (space_needed * 1000) / self.leak_rate;
        Some(ms_needed)
    }
}

/// A leaky-bucket limiter keeping one bucket per user.
pub struct LeakyBucketRateLimiter {
    pub config: Option<RateLimitConfig>,
    pub buckets: KeyedStore<LeakyBucket>,
}

/// The state of a leaky bucket as far as the limiter's answers go.
pub struct LeakyView {
    pub capacity: u64,
    pub leak_rate: u64,
    pub queue: Seq<u64>,
    pub last_leak_ms: u64,
}

/// The abstract state of a leaky bucket.
pub open spec fn leaky_view(b: LeakyBucket) -> LeakyView {
    LeakyView {
        capacity: b.capacity,
        leak_rate: b.leak_rate,
        queue: b.queue@,
        last_leak_ms: b.last_leak_ms,
    }
}

impl LeakyBucketRateLimiter {
    /// Every bucket is well formed and follows the current configuration.
    pub open spec fn wf(&self) -> bool {
        &&& self.buckets.wf()
        &&& self.config matches Some(c) ==> rate_config_valid(c)
        &&& forall|k: Seq<char>| #[trigger]
            self.buckets@.contains_key(k) ==> self.buckets@[k].wf() && (self.config matches Some(
                c,
            ) && self.buckets@[k].capacity == c.capacity && self.buckets@[k].leak_rate
                == c.refill_rate)
    }

    /// The bucket that a request for `user` works on.
    pub open spec fn bucket_for(&self, user: Seq<char>) -> LeakyView {
        if self.buckets@.contains_key(user) {
            leaky_view(self.buckets@[user])
        } else {
            let c = self.config->0;
            LeakyView {
                capacity: c.capacity,
                leak_rate: c.refill_rate,
                queue: Seq::empty(),
                last_leak_ms: 0,
            }
        }
    }

    /// Whether checking `request` stays within 64-bit arithmetic.
    pub open spec fn check_fits(&self, request: RateLimitRequest) -> bool {
        request.tokens_requested != 0 && self.config is Some ==> {
            let b = self.bucket_for(request.user_id@);
            let q = LeakyBucket::leaked_queue_of(b, request.timestamp_ms);
            &&& (b.last_leak_ms == 0 || elapsed(b.last_leak_ms, request.timestamp_ms)
                * b.leak_rate <= u64::MAX)
            &&& q.len() + request.tokens_requested <= u64::MAX
            &&& q.len() + request.tokens_requested > b.capacity ==> (q.len()
                + request.tokens_requested - b.capacity) * 1000 <= u64::MAX
        }
    }

    /// A limiter with no configuration and no buckets.
    pub fn new() -> (r: Self)
        ensures
            r.wf(),
            r.config is None,
            r.buckets@ == Map::<Seq<char>, LeakyBucket>::empty(),
    {
        LeakyBucketRateLimiter { config: None, buckets: KeyedStore::new() }
    }

    /// Install `config` and forget every bucket.
    pub fn init(&mut self, config: RateLimitConfig) -> (r: Result<(), RateLimitError>)
        requires
            old(self).wf(),
        ensures
            final(self).wf(),
            r is Err <==> !rate_config_valid(config),
            r matches Err(e) ==> e == RateLimitError::InvalidConfig && final(self).config == old(self).config && final(self).buckets@ == old(self).buckets@,
            r is Ok ==> final(self).config == Some(config) && final(self).buckets@ == Map::<
                Seq<char>,
                LeakyBucket,
            >::empty(),
    {
        if config.capacity == 0 || config.refill_rate == 0 {
            return Err(RateLimitError::InvalidConfig);
        }
        self.config = Some(config);
        self.buckets.clear();
        Ok(())
    }

    /// Leak the user's bucket, then try to queue the requested tokens.
    pub fn check_rate_limit(&mut self, request: RateLimitRequest) -> (r: Result<
        RateLimitResponse,
        RateLimitError,
    >)
        requires
            old(self).wf(),
            old(self).check_fits(request),
        ensures
            final(self).wf(),
            request.tokens_requested == 0 ==> r == Err::<RateLimitResponse, RateLimitError>(
                RateLimitError::InvalidRequest,
            ),
            request.tokens_requested != 0 && old(self).config is None ==> r == Err::<
                RateLimitResponse,
                RateLimitError,
            >(RateLimitError::InvalidConfig),
            r is Err ==> final(self).config == old(self).config && final(self).buckets@ == old(self).buckets@,
            request.tokens_requested != 0 && old(self).config is Some ==> {
                let b = old(self).bucket_for(request.user_id@);
                let c = old(self).config->0;
                let q = LeakyBucket::leaked_queue_of(b, request.timestamp_ms);
                let allowed = q.len() + request.tokens_requested <= c.capacity;
                let q2 = if allowed {
                    q + repeat(request.timestamp_ms, request.tokens_requested as nat)
                } else {
                    q
                };
                &&& final(self).config == old(self).config
                &&& final(self).buckets@.dom() == old(self).buckets@.dom().insert(request.user_id@)
                &&& forall|k: Seq<char>| #[trigger]
                    final(self).buckets@.contains_key(k) && k != request.user_id@ ==> final(self).buckets@[k] == old(self).buckets@[k]
                &&& leaky_view(final(self).buckets@[request.user_id@]) == (LeakyView {
                    queue: q2,
                    last_leak_ms: request.timestamp_ms,
                    ..b
                })
                &&& r == Ok::<RateLimitResponse, RateLimitError>(
                    RateLimitResponse {
                        allowed,
                        tokens_remaining: (c.capacity - q2.len()) as u64,
                        retry_after_ms: if allowed {
                            None
                        } else {
                            Some((((q.len() + request.tokens_requested - c.capacity) * 1000) / (
                            c.refill_rate as int)) as u64)
                        },
                    },
                )
            },
    {
        if request.tokens_requested == 0 {
            return Err(RateLimitError::InvalidRequest);
        }
        let config = match self.config {
            Some(c) => c,
            None => return Err(RateLimitError::InvalidConfig),
        };
        let capacity = config.capacity;
        let mut bucket = match self.buckets.find(&request.user_id) {
            Some(i) => {
                let ghost old_map = self.buckets@;
                let b = self.buckets.remove_at(i);
                proof {
                    assert(old_map.contains_key(request.user_id@));
                }
                b
            },
            None => LeakyBucket::new(config.capacity, config.refill_rate),
        };
        proof {
            assert(leaky_view(bucket) == old(self).bucket_for(request.user_id@));
        }
        bucket.leak(request.timestamp_ms);
        let allowed = bucket.add_request(request.tokens_requested, request.timestamp_ms);
        let size = bucket.queue_size();
        let tokens_remaining = if capacity >= size {
            capacity - size
        } else {
            0
        };
        let retry_after_ms = if !allowed {
            bucket.retry_after_ms(request.tokens_requested)
        } else {
            None
        };
        let user = request.user_id;
        self.buckets.insert(user, bucket);
        Ok(RateLimitResponse { allowed, tokens_remaining, retry_after_ms })
    }

    /// Forget the user's bucket.
    pub fn reset(&mut self, user_id: String) -> (r: Result<(), RateLimitError>)
        requires
            old(self).wf(),
        ensures
            final(self).wf(),
            r is Ok,
            final(self).config == old(self).config,
            final(self).buckets@ == old(self).buckets@.remove(user_id@),
    {
        let _ = self.buckets.remove(&user_id);
        Ok(())
    }
}

impl LeakyBucket {
    /// The queue of the abstract bucket `b` after leaking at `now`.
    pub open spec fn leaked_queue_of(b: LeakyView, now: u64) -> Seq<u64> {
        if b.last_leak_ms == 0 {
            b.queue
        } else {
            let n = (elapsed(b.last_leak_ms, now) * b.leak_rate) / 1000;
            let k = if n < b.queue.len() {
                n
            } else {
                b.queue.len() as int
            };
            b.queue.skip(k)
        }
    }
}

// ── Sliding window ──────────────────────────────────────────────────────────

/// Tokens granted at one instant.
#[derive(Debug, Clone, Copy, PartialEq, Eq, Structural)]
pub struct RequestRecord {
    pub timestamp_ms: u64,
    pub tokens: u64,
}

/// The total of the tokens in `s`.
pub open spec fn token_sum(s: Seq<RequestRecord>) -> int
    decreases s.len(),
{
    if s.len() == 0 {
        0
    } else {
        token_sum(s.drop_last()) + s.last().tokens
    }
}

/// How many leading records of `s` are stamped before `start`.
pub open spec fn stale_prefix(s: Seq<RequestRecord>, start: u64) -> nat
    decreases s.len(),
{
    if s.len() > 0 && s[0].timestamp_ms < start {
        1 + stale_prefix(s.drop_first(), start)
    } else {
        0
    }
}

pub proof fn lemma_token_sum_prefix(s: Seq<RequestRecord>, i: int)
    requires
        0 <= i < s.len(),
    ensures
        token_sum(s.take(i + 1)) == token_sum(s.take(i)) + s[i].tokens,
{
    assert(s.take(i + 1).drop_last() =~= s.take(i));
}

pub proof fn lemma_token_sum_nonneg_mono(s: Seq<RequestRecord>, i: int)
    requires
        0 <= i <= s.len(),
    ensures
        0 <= token_sum(s.take(i)) <= token_sum(s),
    decreases s.len() - i,
{
    if i == s.len() {
        assert(s.take(i) =~= s);
        lemma_token_sum_nonneg(s);
    } else {
        lemma_token_sum_nonneg_mono(s, i + 1);
        lemma_token_sum_prefix(s, i);
        lemma_token_sum_nonneg(s.take(i));
    }
}

pub proof fn lemma_token_sum_nonneg(s: Seq<RequestRecord>)
    ensures
        token_sum(s) >= 0,
    decreases s.len(),
{
    if s.len() > 0 {
        lemma_token_sum_nonneg(s.drop_last());
    }
}

pub proof fn lemma_token_sum_skip(s: Seq<RequestRecord>, k: int)
    requires
        0 <= k <= s.len(),
    ensures
        token_sum(s.skip(k)) <= token_sum(s),
    decreases s.len(),
{
    if s.len() > 0 && k < s.len() {
        lemma_token_sum_skip(s.drop_last(), k);
        assert(s.skip(k).drop_last() =~= s.drop_last().skip(k));
    } else if k == s.len() {
        assert(s.skip(k) =~= Seq::<RequestRecord>::empty());
        lemma_token_sum_nonneg(s);
    }
}

/// The stale prefix is the longest run of leading records stamped before
/// `start`.
pub proof fn lemma_stale_prefix(s: Seq<RequestRecord>, start: u64)
    ensures
        stale_prefix(s, start) <= s.len(),
        forall|i: int| 0 <= i < stale_prefix(s, start) ==> #[trigger] s[i].timestamp_ms < start,
        stale_prefix(s, start) < s.len() ==> s[stale_prefix(s, start) as int].timestamp_ms >= start,
    decreases s.len(),
{
    if s.len() > 0 && s[0].timestamp_ms < start {
        lemma_stale_prefix(s.drop_first(), start);
        assert forall|i: int| 0 <= i < stale_prefix(s, start) implies #[trigger] s[i].timestamp_ms < start by {
            if i > 0 {
                assert(s[i] == s.drop_first()[i - 1]);
            }
        }
        if stale_prefix(s, start) < s.len() {
            assert(s[stale_prefix(s, start) as int] == s.drop_first()[stale_prefix(s.drop_first(), start) as int]);
        }
    }
}

/// Whether the records of `s` are in time order.
pub open spec fn time_ordered(s: Seq<RequestRecord>) -> bool {
    forall|i: int, j: int| 0 <= i <= j < s.len() ==> #[trigger] s[i].timestamp_ms <= #[trigger] s[j].timestamp_ms
}

/// Tokens granted to one user within the last `window_size_ms` milliseconds,/// Tokens granted to one user within the last `window_size_ms` milliseconds,
/// at most `capacity` of them.
#[derive(Debug, Clone)]
pub struct SlidingWindow {
    pub capacity: u64,
    pub window_size_ms: u64,
    pub requests: VecDeque<RequestRecord>,
}

impl SlidingWindow {
    /// The tokens in the window never exceed the capacity.
    pub open spec fn wf(&self) -> bool {
        token_sum(self.requests@) <= self.capacity
    }

    /// The first moment that still lies inside the window at `now`.
    pub open spec fn window_start(&self, now: u64) -> u64 {
        if now >= self.window_size_ms {
            (now - self.window_size_ms) as u64
        } else {
            0
        }
    }

    /// What `retry_after_ms(needed)` returns.
    pub open spec fn retry_after(&self, needed: u64) -> Option<u64> {
        if token_sum(self.requests@) + needed <= self.capacity {
            None
        } else {
            Some(self.window_size_ms)
        }
    }

    /// Whether `retry_after_ms(needed)` stays within 64-bit arithmetic: the
    /// record whose expiry frees enough tokens can have the window added to its time.
    pub open spec fn retry_fits(&self, needed: u64) -> bool {
        let s = self.requests@;
        let to_free = token_sum(s) + needed - self.capacity;
        &&& token_sum(s) + needed <= u64::MAX
        &&& forall|i: int|
            0 <= i < s.len() && token_sum(s.take(i)) < to_free <= token_sum(#[trigger] s.take(i + 1))
                ==> s[i].timestamp_ms + self.window_size_ms <= u64::MAX
    }

    /// An empty window.
    pub fn new(capacity: u64, window_size_ms: u64) -> (r: Self)
        ensures
            r.capacity == capacity,
            r.window_size_ms == window_size_ms,
            r.requests@ == Seq::<RequestRecord>::empty(),
            r.wf(),
    {
        SlidingWindow { capacity, window_size_ms, requests: VecDeque::new() }
    }

    /// Drop the leading records stamped before the window that ends at `current_time_ms`.
    pub fn cleanup_old_requests(&mut self, current_time_ms: u64)
        ensures
            final(self).requests@ == old(self).requests@.skip(
                stale_prefix(old(self).requests@, old(self).window_start(current_time_ms)) as int,
            ),
            final(self).requests@.len() <= old(self).requests@.len(),
            final(self).requests@ == old(self).requests@.skip(old(self).requests@.len() - final(self).requests@.len()),
            forall|i: int| 0 <= i < old(self).requests@.len() - final(self).requests@.len()
                ==> #[trigger] old(self).requests@[i].timestamp_ms + old(self).window_size_ms < current_time_ms,
            final(self).requests@.len() > 0 ==> current_time_ms <= final(self).requests@[0].timestamp_ms + old(self).window_size_ms,
            final(self).capacity == old(self).capacity,
            final(self).window_size_ms == old(self).window_size_ms,
            old(self).wf() ==> final(self).wf(),
    {
        let window_start = if current_time_ms >= self.window_size_ms {
            current_time_ms - self.window_size_ms
        } else {
            0
        };
        let ghost s0 = self.requests@;
        let ghost b0 = *self;
        let ghost mut k: int = 0;
        proof {
            assert(s0.skip(0) =~= s0);
        }
        while self.requests.len() > 0 && self.requests[0].timestamp_ms < window_start
            invariant
                0 <= k <= s0.len(),
                self.requests@ == s0.skip(k),
                stale_prefix(s0, window_start) == k + stale_prefix(s0.skip(k), window_start),
                self.capacity == b0.capacity,
                self.window_size_ms == b0.window_size_ms,
            decreases self.requests@.len(),
        {
            proof {
                assert(s0.skip(k).drop_first() =~= s0.skip(k + 1));
            }
            self.requests.pop_front();
            proof {
                assert(s0.skip(k).subrange(1, s0.skip(k).len() as int) =~= s0.skip(k + 1));
                k = k + 1;
            }
        }
        proof {
            lemma_token_sum_skip(s0, k);
            lemma_stale_prefix(s0, window_start);
            assert(self.requests@.len() == s0.len() - k);
            assert forall|i: int| 0 <= i < k implies #[trigger] s0[i].timestamp_ms + b0.window_size_ms < current_time_ms by {
                assert(s0[i].timestamp_ms < window_start);
            }
            if self.requests@.len() > 0 {
                assert(self.requests@[0] == s0[k]);
            }
        }
    }

    /// The total of the tokens in the window.
    pub fn count_tokens_in_window(&self) -> (r: u64)
        requires
            self.wf(),
        ensures
            r == token_sum(self.requests@),
    {
        let n = self.requests.len();
        let mut total: u64 = 0;
        let mut i: usize = 0;
        proof {
            assert(self.requests@.take(0) =~= Seq::<RequestRecord>::empty());
        }
        while i < n
            invariant
                n == self.requests@.len(),
                i <= n,
                total == token_sum(self.requests@.take(i as int)),
                token_sum(self.requests@) <= self.capacity,
            decreases n - i,
        {
            proof {
                lemma_token_sum_prefix(self.requests@, i as int);
                lemma_token_sum_nonneg_mono(self.requests@, i + 1);
            }
            total = total + self.requests[i].tokens;
            i = i + 1;
        }
        proof {
            assert(self.requests@.take(n as int) =~= self.requests@);
        }
        total
    }

    /// Whether `tokens` more tokens fit in the window.
    pub fn can_add(&self, tokens: u64) -> (r: bool)
        requires
            self.wf(),
            token_sum(self.requests@) + tokens <= u64::MAX,
        ensures
            r == (token_sum(self.requests@) + tokens <= self.capacity),
    {
        let current_count = self.count_tokens_in_window();
        current_count + tokens <= self.capacity
    }

    /// Record `tokens` tokens at `timestamp_ms` if they fit.
    pub fn add_request(&mut self, tokens: u64, timestamp_ms: u64) -> (r: bool)
        requires
            old(self).wf(),
            token_sum(old(self).requests@) + tokens <= u64::MAX,
        ensures
            r == (token_sum(old(self).requests@) + tokens <= old(self).capacity),
            final(self).requests@ == if r {
                old(self).requests@.push(RequestRecord { timestamp_ms, tokens })
            } else {
                old(self).requests@
            },
            final(self).capacity == old(self).capacity,
            final(self).window_size_ms == old(self).window_size_ms,
            final(self).wf(),
    {
        if !self.can_add(tokens) {
            return false;
        }
        let ghost s0 = self.requests@;
        self.requests.push_back(RequestRecord { timestamp_ms, tokens });
        proof {
            assert(self.requests@.drop_last() =~= s0);
        }
        true
    }

    /// Tokens still available in the window.
    pub fn tokens_remaining(&self) -> (r: u64)
        requires
            self.wf(),
        ensures
            r == self.capacity - token_sum(self.requests@),
    {
        let c = self.count_tokens_in_window();
        if self.capacity >= c {
            self.capacity - c
        } else {
            0
        }
    }

    /// Milliseconds until `tokens_needed` tokens fit; `None` when they fit now.
    pub fn retry_after_ms(&self, tokens_needed: u64) -> (r: Option<u64>)
        requires
            self.wf(),
            self.retry_fits(tokens_needed),
        ensures
            r == self.retry_after(tokens_needed),
    {
        let current_count = self.count_tokens_in_window();
        if current_count + tokens_needed <= self.capacity {
            return None;
        }
        let tokens_to_free = current_count + tokens_needed - self.capacity;
        let mut freed: u64 = 0;
        let n = self.requests.len();
        let mut i: usize = 0;
        proof {
            assert(self.requests@.take(0) =~= Seq::<RequestRecord>::empty());
        }
        while i < n
            invariant
                n == self.requests@.len(),
                i <= n,
                freed == token_sum(self.requests@.take(i as int)),
                freed < tokens_to_free,
                tokens_to_free == token_sum(self.requests@) + tokens_needed - self.capacity,
                token_sum(self.requests@) <= self.capacity,
                self.retry_fits(tokens_needed),
            decreases n - i,
        {
            proof {
                lemma_token_sum_prefix(self.requests@, i as int);
                lemma_token_sum_nonneg_mono(self.requests@, i + 1);
            }
            let record = self.requests[i];
            freed = freed + record.tokens;
            if freed >= tokens_to_free {
                proof {
                    assert(token_sum(self.requests@.take(i + 1)) >= tokens_to_free);
                }
                let retry_at_ms = record.timestamp_ms + self.window_size_ms;
                let wait = if retry_at_ms >= record.timestamp_ms {
                    retry_at_ms - record.timestamp_ms
                } else {
                    0
                };
                return Some(wait);
            }
            i = i + 1;
        }
        Some(self.window_size_ms)
    }
}

/// Whether `config` is accepted by the sliding-window limiter.
pub open spec fn window_config_valid(config: RateLimitConfig) -> bool {
    config.capacity != 0 && config.window_size_ms != 0
}

/// A sliding-window limiter keeping one window per user.
pub struct SlidingWindowRateLimiter {
    pub config: Option<RateLimitConfig>,
    pub windows: KeyedStore<SlidingWindow>,
}

/// The contents of a sliding window.
pub struct WindowView {
    pub capacity: u64,
    pub window_size_ms: u64,
    pub requests: Seq<RequestRecord>,
}

/// The abstract state of a sliding window.
pub open spec fn window_view(w: SlidingWindow) -> WindowView {
    WindowView { capacity: w.capacity, window_size_ms: w.window_size_ms, requests: w.requests@ }
}

impl SlidingWindowRateLimiter {
    /// Every window is well formed and follows the current configuration.
    pub open spec fn wf(&self) -> bool {
        &&& self.windows.wf()
        &&& self.config matches Some(c) ==> window_config_valid(c)
        &&& forall|k: Seq<char>| #[trigger]
            self.windows@.contains_key(k) ==> self.windows@[k].wf() && (self.config matches Some(
                c,
            ) && self.windows@[k].capacity == c.capacity && self.windows@[k].window_size_ms
                == c.window_size_ms)
    }

    /// The window that a request for `user` works on.
    pub open spec fn window_for(&self, user: Seq<char>) -> WindowView {
        if self.windows@.contains_key(user) {
            window_view(self.windows@[user])
        } else {
            let c = self.config->0;
            WindowView {
                capacity: c.capacity,
                window_size_ms: c.window_size_ms,
                requests: Seq::empty(),
            }
        }
    }

    /// The records still inside the window at `now`.
    pub open spec fn live_records(w: WindowView, now: u64) -> Seq<RequestRecord> {
        let start = if now >= w.window_size_ms {
            (now - w.window_size_ms) as u64
        } else {
            0
        };
        w.requests.skip(stale_prefix(w.requests, start) as int)
    }

    /// Whether checking `request` stays within 64-bit arithmetic.
    pub open spec fn check_fits(&self, request: RateLimitRequest) -> bool {
        request.tokens_requested != 0 && self.config is Some ==> {
            let w = self.window_for(request.user_id@);
            let live = Self::live_records(w, request.timestamp_ms);
            let sw = SlidingWindow::retry_fits_of(w.capacity, w.window_size_ms, live, request.tokens_requested);
            &&& token_sum(live) + request.tokens_requested <= u64::MAX
            &&& sw
        }
    }

    /// A limiter with no configuration and no windows.
    pub fn new() -> (r: Self)
        ensures
            r.wf(),
            r.config is None,
            r.windows@ == Map::<Seq<char>, SlidingWindow>::empty(),
    {
        SlidingWindowRateLimiter { config: None, windows: KeyedStore::new() }
    }

    /// Install `config` and forget every window.
    pub fn init(&mut self, config: RateLimitConfig) -> (r: Result<(), RateLimitError>)
        requires
            old(self).wf(),
        ensures
            final(self).wf(),
            r is Err <==> !window_config_valid(config),
            r matches Err(e) ==> e == RateLimitError::InvalidConfig && final(self).config == old(self).config && final(self).windows@ == old(self).windows@,
            r is Ok ==> final(self).config == Some(config) && final(self).windows@ == Map::<
                Seq<char>,
                SlidingWindow,
            >::empty(),
    {
        if config.capacity == 0 || config.window_size_ms == 0 {
            return Err(RateLimitError::InvalidConfig);
        }
        self.config = Some(config);
        self.windows.clear();
        Ok(())
    }

    /// Drop the user's expired records, then try to record the requested tokens.
    pub fn check_rate_limit(&mut self, request: RateLimitRequest) -> (r: Result<
        RateLimitResponse,
        RateLimitError,
    >)
        requires
            old(self).wf(),
            old(self).check_fits(request),
        ensures
            final(self).wf(),
            request.tokens_requested == 0 ==> r == Err::<RateLimitResponse, RateLimitError>(
                RateLimitError::InvalidRequest,
            ),
            request.tokens_requested != 0 && old(self).config is None ==> r == Err::<
                RateLimitResponse,
                RateLimitError,
            >(RateLimitError::InvalidConfig),
            r is Err ==> final(self).config == old(self).config && final(self).windows@ == old(self).windows@,
            request.tokens_requested != 0 && old(self).config is Some ==> {
                let w = old(self).window_for(request.user_id@);
                let c = old(self).config->0;
                let live = Self::live_records(w, request.timestamp_ms);
                let allowed = token_sum(live) + request.tokens_requested <= c.capacity;
                let after = if allowed {
                    live.push(
                        RequestRecord {
                            timestamp_ms: request.timestamp_ms,
                            tokens: request.tokens_requested,
                        },
                    )
                } else {
                    live
                };
                &&& final(self).config == old(self).config
                &&& final(self).windows@.dom() == old(self).windows@.dom().insert(request.user_id@)
                &&& forall|k: Seq<char>| #[trigger]
                    final(self).windows@.contains_key(k) && k != request.user_id@ ==> final(self).windows@[k] == old(self).windows@[k]
                &&& window_view(final(self).windows@[request.user_id@]) == (WindowView {
                    requests: after,
                    ..w
                })
                &&& r == Ok::<RateLimitResponse, RateLimitError>(
                    RateLimitResponse {
                        allowed,
                        tokens_remaining: (c.capacity - token_sum(after)) as u64,
                        retry_after_ms: if allowed {
                            None
                        } else {
                            Some(c.window_size_ms)
                        },
                    },
                )
            },
    {
        if request.tokens_requested == 0 {
            return Err(RateLimitError::InvalidRequest);
        }
        let config = match self.config {
            Some(c) => c,
            None => return Err(RateLimitError::InvalidConfig),
        };
        let mut window = match self.windows.find(&request.user_id) {
            Some(i) => self.windows.remove_at(i),
            None => SlidingWindow::new(config.capacity, config.window_size_ms),
        };
        proof {
            assert(window_view(window) == old(self).window_for(request.user_id@));
        }
        window.cleanup_old_requests(request.timestamp_ms);
        proof {
            assert(window.requests@ == Self::live_records(
                old(self).window_for(request.user_id@),
                request.timestamp_ms,
            ));
        }
        let allowed = window.add_request(request.tokens_requested, request.timestamp_ms);
        let tokens_remaining = window.tokens_remaining();
        let retry_after_ms = if !allowed {
            window.retry_after_ms(request.tokens_requested)
        } else {
            None
        };
        let user = request.user_id;
        self.windows.insert(user, window);
        Ok(RateLimitResponse { allowed, tokens_remaining, retry_after_ms })
    }

    /// Forget the user's window.
    pub fn reset(&mut self, user_id: String) -> (r: Result<(), RateLimitError>)
        requires
            old(self).wf(),
        ensures
            final(self).wf(),
            r is Ok,
            final(self).config == old(self).config,
            final(self).windows@ == old(self).windows@.remove(user_id@),
    {
        let _ = self.windows.remove(&user_id);
        Ok(())
    }
}

impl SlidingWindow {
    /// `retry_fits` for a window with the given parameters and records.
    pub open spec fn retry_fits_of(capacity: u64, window_size_ms: u64, s: Seq<RequestRecord>, needed: u64) -> bool {
        let to_free = token_sum(s) + needed - capacity;
        &&& token_sum(s) + needed <= u64::MAX
        &&& forall|i: int|
            0 <= i < s.len() && token_sum(s.take(i)) < to_free <= token_sum(#[trigger] s.take(i + 1))
                ==> s[i].timestamp_ms + window_size_ms <= u64::MAX
    }
}

// ── Laws ────────────────────────────────────────────────────────────────────

/// A refill at `now` restarts the refill clock at `now`, keeping the
/// bucket's capacity and rate: tokens earned before `now` are never earned
/// again.
pub proof fn law_refill_restamps(b: TokenBucket, now: u64)
    ensures
        b.refilled(now).last_refill_ms == now,
        b.refilled(now).capacity == b.capacity,
        b.refilled(now).refill_rate == b.refill_rate,
{
}

/// Two refills in time order add no more tokens than `refill_rate` per second
/// over the whole time they span: from the bucket's last refill (or, for a
/// bucket never refilled, from the first of the two) to the second.
pub proof fn law_refill_rate(b: TokenBucket, t1: u64, t2: u64)
    requires
        t1 <= t2,
    ensures
        b.last_refill_ms != 0 && b.last_refill_ms <= t1 ==> b.refilled(t1).refilled(t2).tokens
            <= b.tokens + ((t2 - b.last_refill_ms) * b.refill_rate) / 1000,
        b.last_refill_ms == 0 ==> b.refilled(t1).refilled(t2).tokens <= b.tokens + ((t2 - t1) * b.refill_rate) / 1000,
{
    let r = b.refill_rate as int;
    if b.last_refill_ms != 0 && b.last_refill_ms <= t1 {
        let x = (t1 - b.last_refill_ms) * r;
        let y = (t2 - t1) * r;
        assert(x >= 0 && y >= 0) by (nonlinear_arith)
            requires x == (t1 - b.last_refill_ms) * r, y == (t2 - t1) * r, t1 >= b.last_refill_ms, t2 >= t1, r >= 0;
        assert(x + y == (t2 - b.last_refill_ms) * r) by (nonlinear_arith)
            requires x == (t1 - b.last_refill_ms) * r, y == (t2 - t1) * r;
        lemma_div_sum(x, y);
        let b1 = b.refilled(t1);
        assert(b1.tokens <= b.tokens + x / 1000);
        assert(b1.last_refill_ms == t1 && t1 != 0);
        assert(b1.refilled(t2).tokens <= b1.tokens + y / 1000);
    } else if b.last_refill_ms == 0 {
        let b1 = b.refilled(t1);
        assert(b1.tokens == b.tokens);
        if t1 != 0 {
            let y = (t2 - t1) * r;
            assert(y >= 0) by (nonlinear_arith)
                requires y == (t2 - t1) * r, t2 >= t1, r >= 0;
            assert(b1.refilled(t2).tokens <= b1.tokens + y / 1000);
        } else {
            assert(((t2 - t1) * r) / 1000 >= 0) by (nonlinear_arith)
                requires t2 >= t1, r >= 0;
        }
    }
}

/// A refill never takes tokens away, and a bucket that has waited long
/// enough since its last refill to earn the tokens it lacks is full.
pub proof fn law_refill_fills(b: TokenBucket, now: u64)
    requires
        b.wf(),
    ensures
        b.tokens <= b.refilled(now).tokens <= b.capacity,
        b.last_refill_ms != 0 && b.last_refill_ms <= now && (now - b.last_refill_ms) * b.refill_rate
            >= (b.capacity - b.tokens) * 1000 ==> b.refilled(now).tokens == b.capacity,
{
    if b.last_refill_ms != 0 && b.last_refill_ms <= now {
        let x = (now - b.last_refill_ms) * b.refill_rate;
        assert(x >= 0) by (nonlinear_arith)
            requires x == (now - b.last_refill_ms) * b.refill_rate, now >= b.last_refill_ms;
        if x >= (b.capacity - b.tokens) * 1000 {
            assert(x / 1000 >= b.capacity - b.tokens) by (nonlinear_arith)
                requires x >= (b.capacity - b.tokens) * 1000, b.capacity >= b.tokens;
        }
    }
    if b.last_refill_ms != 0 {
        let x = elapsed(b.last_refill_ms, now) * b.refill_rate;
        assert(x >= 0) by (nonlinear_arith)
            requires x == elapsed(b.last_refill_ms, now) * b.refill_rate, elapsed(b.last_refill_ms, now) >= 0;
        assert(x / 1000 >= 0);
    }
}

/// Whole thousandths of two amounts add up to at most the whole thousandths
/// of their sum.
proof fn lemma_div_sum(x: int, y: int)
    requires
        x >= 0,
        y >= 0,
    ensures
        x / 1000 + y / 1000 <= (x + y) / 1000,
{
    vstd::arithmetic::div_mod::lemma_fundamental_div_mod(x, 1000);
    vstd::arithmetic::div_mod::lemma_fundamental_div_mod(y, 1000);
    vstd::arithmetic::div_mod::lemma_fundamental_div_mod(x + y, 1000);
    assert(x / 1000 + y / 1000 <= (x + y) / 1000) by (nonlinear_arith)
        requires
            x == 1000 * (x / 1000) + x % 1000,
            y == 1000 * (y / 1000) + y % 1000,
            x + y == 1000 * ((x + y) / 1000) + (x + y) % 1000,
            0 <= x % 1000 < 1000,
            0 <= y % 1000 < 1000,
            0 <= (x + y) % 1000 < 1000;
}

/// A record stamped at `t` lies inside the window that ends at `now`
/// exactly when it is at most `window_size_ms` old.
pub proof fn law_window_start(w: SlidingWindow, now: u64, t: u64)
    ensures
        w.window_start(now) <= t <==> now <= t + w.window_size_ms,
{
}

/// Dropping the stale records at `now` drops only records more than
/// `window_size_ms` old and keeps the rest in order; when the records are in
/// time order, every record kept is at most `window_size_ms` old, so the
/// records kept are exactly those inside the window.
pub proof fn law_cleanup_keeps_window(w: SlidingWindow, now: u64)
    ensures
        ({
            let s = w.requests@;
            let kept = s.skip(stale_prefix(s, w.window_start(now)) as int);
            &&& kept.len() <= s.len()
            &&& kept == s.skip(s.len() - kept.len())
            &&& forall|i: int| 0 <= i < s.len() - kept.len() ==> #[trigger] s[i].timestamp_ms + w.window_size_ms < now
            &&& time_ordered(s) ==> forall|i: int| 0 <= i < kept.len() ==> now <= #[trigger] kept[i].timestamp_ms + w.window_size_ms
        }),
{
    let s = w.requests@;
    let k = stale_prefix(s, w.window_start(now));
    lemma_stale_prefix(s, w.window_start(now));
    let kept = s.skip(k as int);
    assert forall|i: int| 0 <= i < s.len() - kept.len() implies #[trigger] s[i].timestamp_ms + w.window_size_ms < now by {
        assert(s[i].timestamp_ms < w.window_start(now));
    }
    if time_ordered(s) {
        assert forall|i: int| 0 <= i < kept.len() implies now <= #[trigger] kept[i].timestamp_ms + w.window_size_ms by {
            assert(kept[i] == s[k + i]);
            assert(s[k as int].timestamp_ms <= s[k + i].timestamp_ms);
        }
    }
}

/// The records a limiter's check counts at `now` are the user's records
/// less those more than `window_size_ms` old at the front; when the records
/// are in time order, they are exactly the records at most `window_size_ms` old.
pub proof fn law_live_records_are_window(w: WindowView, now: u64)
    ensures
        ({
            let s = w.requests;
            let live = SlidingWindowRateLimiter::live_records(w, now);
            &&& live.len() <= s.len()
            &&& live == s.skip(s.len() - live.len())
            &&& forall|i: int| 0 <= i < s.len() - live.len() ==> #[trigger] s[i].timestamp_ms + w.window_size_ms < now
            &&& time_ordered(s) ==> forall|i: int| 0 <= i < live.len() ==> now <= #[trigger] live[i].timestamp_ms + w.window_size_ms
        }),
{
    let s = w.requests;
    let start: u64 = if now >= w.window_size_ms { (now - w.window_size_ms) as u64 } else { 0 };
    let k = stale_prefix(s, start);
    lemma_stale_prefix(s, start);
    let live = s.skip(k as int);
    assert(live == SlidingWindowRateLimiter::live_records(w, now));
    assert forall|i: int| 0 <= i < s.len() - live.len() implies #[trigger] s[i].timestamp_ms + w.window_size_ms < now by {
        assert(s[i].timestamp_ms < start);
    }
    if time_ordered(s) {
        assert forall|i: int| 0 <= i < live.len() implies now <= #[trigger] live[i].timestamp_ms + w.window_size_ms by {
            assert(live[i] == s[k + i]);
            assert(s[k as int].timestamp_ms <= s[k + i].timestamp_ms);
        }
    }
}

} // verus!
