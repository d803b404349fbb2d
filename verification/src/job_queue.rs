//! Job queue: runs of named functions with retry backoff and a dead-letter state.
use vstd::prelude::*;
use vstd::arithmetic::power2::pow2;
use crate::store::{KeyedStore, keys_where, views, lemma_keys_where, lemma_keys_where_step};
use crate::text::{trim, dec, opt_bytes, opt_view, opt_str_view};

verus! {

/// The lifecycle state of a run.
#[derive(Debug, Clone, Copy, PartialEq, Eq, Structural)]
pub enum RunState {
    Pending,
    Running,
    Succeeded,
    Failed,
    Cancelled,
    Paused,
    DeadLetter,
}

/// A stored run.
#[derive(Debug, Clone)]
pub struct RunEntry {
    pub run_id: String,
    pub fn_name: String,
    pub payload: Vec<u8>,
    pub state: RunState,
    pub attempt: u32,
    pub max_attempts: u32,
    pub base_delay_ms: u64,
    pub scheduled_at_ms: u64,
    pub idem_key: Option<String>,
    pub output: Option<Vec<u8>>,
    pub error: Option<String>,
}

/// What `get` reports about a run.
#[derive(Debug, Clone)]
pub struct RunInfo {
    pub run_id: String,
    pub fn_name: String,
    pub state: RunState,
    pub attempt: u32,
    pub max_attempts: u32,
    pub scheduled_at_ms: u64,
    pub idem_key: Option<String>,
    pub output: Option<Vec<u8>>,
    pub error: Option<String>,
}

/// Errors of the job queue.
#[derive(Debug, Clone, Copy, PartialEq, Eq, Structural)]
pub enum JobError {
    NotFound,
    InvalidFn,
    AlreadyDone,
    StorageError,
    DispatchError,
    DuplicateRun,
}

/// The upper bound on a backoff delay.
pub const MAX_DELAY_MS: u64 = 60_000;

/// `base_delay_ms * 2^(attempt-1)`, saturated, capped at 60 000 ms.
pub open spec fn backoff(base_delay_ms: u64, attempt: u32) -> u64 {
    let shift: nat = if attempt >= 1 { (attempt - 1) as nat } else { 0 };
    let factor: int = if shift < 64 { pow2(shift) as int } else { u64::MAX as int };
    let prod = base_delay_ms * factor;
    if prod < 60_000 { prod as u64 } else { 60_000 }
}

/// Compute exponential backoff: `base_delay_ms * 2^(attempt-1)`, capped at 60 000 ms.
pub fn next_delay_ms(base_delay_ms: u64, attempt: u32) -> (r: u64)
    ensures
        r == backoff(base_delay_ms, attempt),
        r <= MAX_DELAY_MS,
{
    let shift: u32 = if attempt >= 1 { attempt - 1 } else { 0 };
    let factor: u64 = if shift < 64 {
        proof {
            vstd::bits::lemma_u64_pow2_no_overflow(shift as nat);
            vstd::bits::lemma_u64_shl_is_mul(1u64, shift as u64);
        }
        1u64 << (shift as u64)
    } else {
        u64::MAX
    };
    let prod = match base_delay_ms.checked_mul(factor) {
        Some(x) => x,
        None => u64::MAX,
    };
    if prod < MAX_DELAY_MS {
        prod
    } else {
        MAX_DELAY_MS
    }
}

/// The run id made from the function name, idempotency key and enqueue time:
/// `run-{fn}-{key}-{ms}`, or `run-{fn}-{ms}` without a key.
pub open spec fn run_id_of(fn_name: Seq<char>, idem_key: Option<Seq<char>>, enqueue_ms: u64) -> Seq<char> {
    match idem_key {
        Some(k) => seq!['r', 'u', 'n', '-'] + fn_name + seq!['-'] + k + seq!['-'] + dec(enqueue_ms as nat),
        None => seq!['r', 'u', 'n', '-'] + fn_name + seq!['-'] + dec(enqueue_ms as nat),
    }
}

/// Deterministic run id from the function name, idempotency key and enqueue time.
pub fn make_run_id(fn_name: &str, idem_key: Option<&str>, enqueue_ms: u64) -> (r: String)
    ensures
        r@ == run_id_of(fn_name@, opt_str_view(idem_key), enqueue_ms),
{
    let mut v: Vec<char> = Vec::new();
    crate::text::push_str(&mut v, "run-");
    crate::text::push_str(&mut v, fn_name);
    crate::text::push_str(&mut v, "-");
    match idem_key {
        Some(k) => {
            crate::text::push_str(&mut v, k);
            crate::text::push_str(&mut v, "-");
        },
        None => {},
    }
    let d = crate::text::u64_to_dec(enqueue_ms);
    crate::text::push_chars(&mut v, &d);
    proof {
        reveal_strlit("run-");
        reveal_strlit("-");
        match idem_key {
            Some(k) => {
                assert(v@ =~= run_id_of(fn_name@, Some(k@), enqueue_ms));
            },
            None => {
                assert(v@ =~= run_id_of(fn_name@, None, enqueue_ms));
            },
        }
    }
    crate::text::string_from_chars(v.as_slice())
}

/// The function name with surrounding whitespace removed; empty names are rejected.
pub fn validate_fn_name(name: &str) -> (r: Result<String, JobError>)
    ensures
        trim(name@).len() == 0 ==> r == Err::<String, JobError>(JobError::InvalidFn),
        trim(name@).len() != 0 ==> (r matches Ok(n) && n@ == trim(name@)),
{
    let n = crate::text::trimmed(name);
    if n.len() == 0 {
        return Err(JobError::InvalidFn);
    }
    Ok(crate::text::string_from_chars(n.as_slice()))
}

/// Every run, by run id.
pub struct JobStore {
    pub runs: KeyedStore<RunEntry>,
}

/// Whether a run is waiting and due at `now`.
pub open spec fn is_due_at(e: RunEntry, now: u64) -> bool {
    e.state == RunState::Pending && e.scheduled_at_ms <= now
}

/// Whether a run is in the dead-letter state.
pub open spec fn is_dead(e: RunEntry) -> bool {
    e.state == RunState::DeadLetter
}

impl JobStore {
    /// Each run is stored under its own run id.
    pub open spec fn wf(&self) -> bool {
        &&& self.runs.wf()
        &&& forall|k: Seq<char>| #[trigger] self.runs@.contains_key(k) ==> self.runs@[k].run_id@ == k
    }

    /// No runs.
    pub fn new() -> (r: Self)
        ensures
            r.wf(),
            r.runs@ == Map::<Seq<char>, RunEntry>::empty(),
    {
        JobStore { runs: KeyedStore::new() }
    }
}

/// Enqueue a new run of `fn_name`; returns its run id.
pub fn enqueue(
    store: &mut JobStore,
    fn_name: &str,
    payload: Vec<u8>,
    idem_key: Option<&str>,
    max_attempts: u32,
    base_delay_ms: u64,
    now_ms: u64,
) -> (r: Result<String, JobError>)
    requires
        old(store).wf(),
    ensures
        final(store).wf(),
        trim(fn_name@).len() == 0 ==> r == Err::<String, JobError>(JobError::InvalidFn),
        trim(fn_name@).len() != 0 ==> {
            let id = run_id_of(trim(fn_name@), opt_str_view(idem_key), now_ms);
            if old(store).runs@.contains_key(id) {
                r == Err::<String, JobError>(JobError::DuplicateRun)
            } else {
                &&& r matches Ok(s) && s@ == id
                &&& final(store).runs@.dom() == old(store).runs@.dom().insert(id)
                &&& forall|k: Seq<char>| k != id && #[trigger] old(store).runs@.contains_key(k) ==> final(store).runs@[k] == old(store).runs@[k]
                &&& ({
                    let e = final(store).runs@[id];
                    &&& e.fn_name@ == trim(fn_name@)
                    &&& e.payload@ == payload@
                    &&& e.state == RunState::Pending
                    &&& e.attempt == 0
                    &&& e.max_attempts == max_attempts
                    &&& e.base_delay_ms == base_delay_ms
                    &&& e.scheduled_at_ms == now_ms
                    &&& opt_view(e.idem_key) == opt_str_view(idem_key)
                    &&& e.output is None
                    &&& e.error is None
                })
            }
        },
        r is Err ==> final(store).runs@ == old(store).runs@,
{
    let name = validate_fn_name(fn_name)?;
    let run_id = make_run_id(name.as_str(), idem_key, now_ms);
    if store.runs.contains(&run_id) {
        return Err(JobError::DuplicateRun);
    }
    let ik = match idem_key {
        Some(k) => Some(crate::text::owned(k)),
        None => None,
    };
    let entry = RunEntry {
        run_id: run_id.clone(),
        fn_name: name,
        payload,
        state: RunState::Pending,
        attempt: 0,
        max_attempts,
        base_delay_ms,
        scheduled_at_ms: now_ms,
        idem_key: ik,
        output: None,
        error: None,
    };
    store.runs.insert(run_id.clone(), entry);
    Ok(run_id)
}

/// Mark a pending run as running, counting the attempt.
pub fn start(store: &mut JobStore, run_id: &str, _now_ms: u64) -> (r: Result<(), JobError>)
    requires
        old(store).wf(),
        old(store).runs@.contains_key(run_id@) && old(store).runs@[run_id@].state == RunState::Pending
            ==> old(store).runs@[run_id@].attempt < u32::MAX,
    ensures
        final(store).wf(),
        !old(store).runs@.contains_key(run_id@) ==> r == Err::<(), JobError>(JobError::NotFound),
        old(store).runs@.contains_key(run_id@) ==> {
            let e = old(store).runs@[run_id@];
            match e.state {
                RunState::Pending => r is Ok && final(store).runs@ == old(store).runs@.insert(
                    run_id@,
                    RunEntry { state: RunState::Running, attempt: (e.attempt + 1) as u32, ..e },
                ),
                RunState::Succeeded | RunState::Cancelled | RunState::DeadLetter => r == Err::<(), JobError>(JobError::AlreadyDone),
                _ => r is Ok,
            }
        },
        final(store).runs@ != old(store).runs@ ==> old(store).runs@.contains_key(run_id@)
            && old(store).runs@[run_id@].state == RunState::Pending,
{
    let k = crate::text::owned(run_id);
    let i = match store.runs.find(&k) {
        Some(i) => i,
        None => return Err(JobError::NotFound),
    };
    match store.runs.entry_at(i).1.state {
        RunState::Pending => {
            let (key, mut e) = store.runs.take_at(i);
            e.state = RunState::Running;
            e.attempt = e.attempt + 1;
            store.runs.restore_at(i, key, e);
            Ok(())
        },
        RunState::Succeeded | RunState::Cancelled | RunState::DeadLetter => Err(JobError::AlreadyDone),
        _ => Ok(()),
    }
}

/// Mark a pending or running run as succeeded with `output`.
pub fn succeed(store: &mut JobStore, run_id: &str, output: Vec<u8>, _now_ms: u64) -> (r: Result<(), JobError>)
    requires
        old(store).wf(),
    ensures
        final(store).wf(),
        !old(store).runs@.contains_key(run_id@) ==> r == Err::<(), JobError>(JobError::NotFound),
        old(store).runs@.contains_key(run_id@) ==> {
            let e = old(store).runs@[run_id@];
            match e.state {
                RunState::Running | RunState::Pending => r is Ok && final(store).runs@.dom() == old(store).runs@.dom()
                    && (forall|q: Seq<char>| q != run_id@ && #[trigger] old(store).runs@.contains_key(q) ==> final(store).runs@[q] == old(store).runs@[q])
                    && ({
                        let f = final(store).runs@[run_id@];
                        f.state == RunState::Succeeded && opt_bytes(f.output) == Some(output@)
                            && f == (RunEntry { state: RunState::Succeeded, output: f.output, ..e })
                    }),
                _ => r == Err::<(), JobError>(JobError::AlreadyDone),
            }
        },
        r is Err ==> final(store).runs@ == old(store).runs@,
{
    let k = crate::text::owned(run_id);
    let i = match store.runs.find(&k) {
        Some(i) => i,
        None => return Err(JobError::NotFound),
    };
    match store.runs.entry_at(i).1.state {
        RunState::Running | RunState::Pending => {
            let (key, mut e) = store.runs.take_at(i);
            e.state = RunState::Succeeded;
            e.output = Some(output);
            store.runs.restore_at(i, key, e);
            Ok(())
        },
        _ => Err(JobError::AlreadyDone),
    }
}

/// Whether a failure of run `e` schedules another attempt: the run is still
/// open and has attempts left.
pub open spec fn retries_on_fail(e: RunEntry) -> bool {
    !(e.state is Cancelled || e.state is Succeeded || e.state is DeadLetter) && e.attempt < e.max_attempts
}

/// Record a failure: with attempts left the run goes back to pending after the
/// backoff delay, otherwise to the dead-letter state.
pub fn fail(store: &mut JobStore, run_id: &str, error: String, now_ms: u64) -> (r: Result<(), JobError>)
    requires
        old(store).wf(),
        old(store).runs@.contains_key(run_id@) && retries_on_fail(old(store).runs@[run_id@]) ==> now_ms + backoff(
            old(store).runs@[run_id@].base_delay_ms,
            old(store).runs@[run_id@].attempt,
        ) <= u64::MAX,
    ensures
        final(store).wf(),
        !old(store).runs@.contains_key(run_id@) ==> r == Err::<(), JobError>(JobError::NotFound),
        old(store).runs@.contains_key(run_id@) ==> {
            let e = old(store).runs@[run_id@];
            match e.state {
                RunState::Cancelled | RunState::Succeeded | RunState::DeadLetter => r == Err::<(), JobError>(JobError::AlreadyDone),
                _ => r is Ok && final(store).runs@ == old(store).runs@.insert(
                    run_id@,
                    if e.attempt >= e.max_attempts {
                        RunEntry { error: Some(error), state: RunState::DeadLetter, ..e }
                    } else {
                        RunEntry {
                            error: Some(error),
                            state: RunState::Pending,
                            scheduled_at_ms: (now_ms + backoff(e.base_delay_ms, e.attempt)) as u64,
                            ..e
                        }
                    },
                ),
            }
        },
        r is Err ==> final(store).runs@ == old(store).runs@,
{
    let k = crate::text::owned(run_id);
    let i = match store.runs.find(&k) {
        Some(i) => i,
        None => return Err(JobError::NotFound),
    };
    match store.runs.entry_at(i).1.state {
        RunState::Cancelled | RunState::Succeeded | RunState::DeadLetter => {
            return Err(JobError::AlreadyDone);
        },
        _ => {},
    }
    let (key, mut e) = store.runs.take_at(i);
    e.error = Some(error);
    if e.attempt >= e.max_attempts {
        e.state = RunState::DeadLetter;
    } else {
        let delay = next_delay_ms(e.base_delay_ms, e.attempt);
        e.scheduled_at_ms = now_ms + delay;
        e.state = RunState::Pending;
    }
    store.runs.restore_at(i, key, e);
    Ok(())
}

/// Cancel a run that has not succeeded or been dead-lettered.
pub fn cancel(store: &mut JobStore, run_id: &str) -> (r: Result<(), JobError>)
    requires
        old(store).wf(),
    ensures
        final(store).wf(),
        !old(store).runs@.contains_key(run_id@) ==> r == Err::<(), JobError>(JobError::NotFound),
        old(store).runs@.contains_key(run_id@) ==> {
            let e = old(store).runs@[run_id@];
            match e.state {
                RunState::Succeeded | RunState::DeadLetter => r == Err::<(), JobError>(JobError::AlreadyDone),
                _ => r is Ok && final(store).runs@ == old(store).runs@.insert(run_id@, RunEntry { state: RunState::Cancelled, ..e }),
            }
        },
        r is Err ==> final(store).runs@ == old(store).runs@,
{
    let k = crate::text::owned(run_id);
    let i = match store.runs.find(&k) {
        Some(i) => i,
        None => return Err(JobError::NotFound),
    };
    match store.runs.entry_at(i).1.state {
        RunState::Succeeded | RunState::DeadLetter => Err(JobError::AlreadyDone),
        _ => {
            let (key, mut e) = store.runs.take_at(i);
            e.state = RunState::Cancelled;
            store.runs.restore_at(i, key, e);
            Ok(())
        },
    }
}

/// Pause a pending or running run.
pub fn pause(store: &mut JobStore, run_id: &str) -> (r: Result<(), JobError>)
    requires
        old(store).wf(),
    ensures
        final(store).wf(),
        !old(store).runs@.contains_key(run_id@) ==> r == Err::<(), JobError>(JobError::NotFound),
        old(store).runs@.contains_key(run_id@) ==> {
            let e = old(store).runs@[run_id@];
            match e.state {
                RunState::Pending | RunState::Running => r is Ok && final(store).runs@ == old(store).runs@.insert(run_id@, RunEntry { state: RunState::Paused, ..e }),
                _ => r == Err::<(), JobError>(JobError::AlreadyDone),
            }
        },
        r is Err ==> final(store).runs@ == old(store).runs@,
{
    let k = crate::text::owned(run_id);
    let i = match store.runs.find(&k) {
        Some(i) => i,
        None => return Err(JobError::NotFound),
    };
    match store.runs.entry_at(i).1.state {
        RunState::Pending | RunState::Running => {
            let (key, mut e) = store.runs.take_at(i);
            e.state = RunState::Paused;
            store.runs.restore_at(i, key, e);
            Ok(())
        },
        _ => Err(JobError::AlreadyDone),
    }
}

/// Resume a paused run, scheduling it for `now_ms`.
pub fn resume(store: &mut JobStore, run_id: &str, now_ms: u64) -> (r: Result<(), JobError>)
    requires
        old(store).wf(),
    ensures
        final(store).wf(),
        !old(store).runs@.contains_key(run_id@) ==> r == Err::<(), JobError>(JobError::NotFound),
        old(store).runs@.contains_key(run_id@) ==> {
            let e = old(store).runs@[run_id@];
            match e.state {
                RunState::Paused => r is Ok && final(store).runs@ == old(store).runs@.insert(run_id@, RunEntry { state: RunState::Pending, scheduled_at_ms: now_ms, ..e }),
                _ => r == Err::<(), JobError>(JobError::AlreadyDone),
            }
        },
        r is Err ==> final(store).runs@ == old(store).runs@,
{
    let k = crate::text::owned(run_id);
    let i = match store.runs.find(&k) {
        Some(i) => i,
        None => return Err(JobError::NotFound),
    };
    match store.runs.entry_at(i).1.state {
        RunState::Paused => {
            let (key, mut e) = store.runs.take_at(i);
            e.state = RunState::Pending;
            e.scheduled_at_ms = now_ms;
            store.runs.restore_at(i, key, e);
            Ok(())
        },
        _ => Err(JobError::AlreadyDone),
    }
}

/// Whether `info` reports the run `e`.
pub open spec fn reports(info: RunInfo, e: RunEntry) -> bool {
    &&& info.run_id == e.run_id
    &&& info.fn_name == e.fn_name
    &&& info.state == e.state
    &&& info.attempt == e.attempt
    &&& info.max_attempts == e.max_attempts
    &&& info.scheduled_at_ms == e.scheduled_at_ms
    &&& info.idem_key == e.idem_key
    &&& opt_bytes(info.output) == opt_bytes(e.output)
    &&& info.error == e.error
}

/// Report the run `run_id`.
pub fn get(store: &JobStore, run_id: &str) -> (r: Result<RunInfo, JobError>)
    requires
        store.wf(),
    ensures
        !store.runs@.contains_key(run_id@) ==> r == Err::<RunInfo, JobError>(JobError::NotFound),
        store.runs@.contains_key(run_id@) ==> (r matches Ok(info) && reports(info, store.runs@[run_id@])),
{
    let k = crate::text::owned(run_id);
    match store.runs.get(&k) {
        Some(e) => Ok(RunInfo {
            run_id: e.run_id.clone(),
            fn_name: e.fn_name.clone(),
            state: e.state,
            attempt: e.attempt,
            max_attempts: e.max_attempts,
            scheduled_at_ms: e.scheduled_at_ms,
            idem_key: crate::text::copy_opt_string(&e.idem_key),
            output: crate::text::copy_opt_bytes(&e.output),
            error: crate::text::copy_opt_string(&e.error),
        }),
        None => Err(JobError::NotFound),
    }
}

/// The ids of the pending runs scheduled at or before `now_ms`, in store order.
pub fn due(store: &JobStore, now_ms: u64) -> (r: Result<Vec<String>, JobError>)
    requires
        store.wf(),
    ensures
        r matches Ok(v) && views(v@) == keys_where(store.runs.entries(), |e: RunEntry| is_due_at(e, now_ms))
            && views(v@).no_duplicates()
            && forall|k: Seq<char>| #[trigger] views(v@).contains(k) <==> store.runs@.contains_key(k) && is_due_at(store.runs@[k], now_ms),
{
    let ghost p = |e: RunEntry| is_due_at(e, now_ms);
    let n = store.runs.len();
    let mut v: Vec<String> = Vec::new();
    let mut i: usize = 0;
    proof {
        assert(store.runs.entries().take(0) =~= Seq::<(String, RunEntry)>::empty());
        assert(views(v@) =~= Seq::<Seq<char>>::empty());
    }
    while i < n
        invariant
            store.wf(),
            n == store.runs.entries().len(),
            i <= n,
            views(v@) == keys_where(store.runs.entries().take(i as int), p),
            p == (|e: RunEntry| is_due_at(e, now_ms)),
        decreases n - i,
    {
        proof {
            lemma_keys_where_step(store.runs.entries(), p, i as int);
        }
        let (k, e) = store.runs.entry_at(i);
        if e.state == RunState::Pending && e.scheduled_at_ms <= now_ms {
            v.push(k.clone());
            proof {
                assert(views(v@) =~= views(v@.drop_last()).push(k@));
            }
        }
        i = i + 1;
    }
    proof {
        assert(store.runs.entries().take(n as int) =~= store.runs.entries());
        lemma_keys_where(store.runs.entries(), p);
    }
    Ok(v)
}

/// The ids of the dead-lettered runs, in store order.
pub fn dead_letters(store: &JobStore) -> (r: Result<Vec<String>, JobError>)
    requires
        store.wf(),
    ensures
        r matches Ok(v) && views(v@) == keys_where(store.runs.entries(), |e: RunEntry| is_dead(e))
            && views(v@).no_duplicates()
            && forall|k: Seq<char>| #[trigger] views(v@).contains(k) <==> store.runs@.contains_key(k) && is_dead(store.runs@[k]),
{
    let ghost p = |e: RunEntry| is_dead(e);
    let n = store.runs.len();
    let mut v: Vec<String> = Vec::new();
    let mut i: usize = 0;
    proof {
        assert(store.runs.entries().take(0) =~= Seq::<(String, RunEntry)>::empty());
        assert(views(v@) =~= Seq::<Seq<char>>::empty());
    }
    while i < n
        invariant
            store.wf(),
            n == store.runs.entries().len(),
            i <= n,
            views(v@) == keys_where(store.runs.entries().take(i as int), p),
            p == (|e: RunEntry| is_dead(e)),
        decreases n - i,
    {
        proof {
            lemma_keys_where_step(store.runs.entries(), p, i as int);
        }
        let (k, e) = store.runs.entry_at(i);
        if e.state == RunState::DeadLetter {
            v.push(k.clone());
            proof {
                assert(views(v@) =~= views(v@.drop_last()).push(k@));
            }
        }
        i = i + 1;
    }
    proof {
        assert(store.runs.entries().take(n as int) =~= store.runs.entries());
        lemma_keys_where(store.runs.entries(), p);
    }
    Ok(v)
}

// ── Laws ────────────────────────────────────────────────────────────────────

/// Each further attempt waits twice as long as the one before, until the
/// cap of 60 000 ms is reached.
pub proof fn law_backoff_doubles(base_delay_ms: u64, attempt: u32)
    requires
        1 <= attempt < 63,
        base_delay_ms * pow2(attempt as nat) < 60_000,
    ensures
        backoff(base_delay_ms, (attempt + 1) as u32) == 2 * backoff(base_delay_ms, attempt),
{
    let e = attempt as nat;
    vstd::arithmetic::power2::lemma_pow2_unfold(e);
    let p = pow2((e - 1) as nat);
    assert(base_delay_ms * (2 * p) == 2 * (base_delay_ms * p)) by (nonlinear_arith);
    assert(base_delay_ms * p <= base_delay_ms * (2 * p)) by (nonlinear_arith)
        requires
            p >= 0,
    ;
}

/// Waiting never shrinks from one attempt to the next.
pub proof fn law_backoff_monotone(base_delay_ms: u64, attempt: u32)
    requires
        attempt < u32::MAX,
    ensures
        backoff(base_delay_ms, attempt) <= backoff(base_delay_ms, (attempt + 1) as u32),
{
    let s1: nat = if attempt >= 1 { (attempt - 1) as nat } else { 0 };
    let s2: nat = attempt as nat;
    let f1: int = if s1 < 64 { pow2(s1) as int } else { u64::MAX as int };
    let f2: int = if s2 < 64 { pow2(s2) as int } else { u64::MAX as int };
    if s1 < s2 && s2 < 64 {
        vstd::arithmetic::power2::lemma_pow2_strictly_increases(s1, s2);
    }
    if s1 < 64 && s2 >= 64 {
        vstd::bits::lemma_u64_pow2_no_overflow(s1);
    }
    assert(f1 <= f2);
    assert(base_delay_ms * f1 <= base_delay_ms * f2) by (nonlinear_arith)
        requires
            f1 <= f2,
            base_delay_ms >= 0,
    ;
}

} // verus!
