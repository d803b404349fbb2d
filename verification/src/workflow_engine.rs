//! The decisions of the workflow engine: when a failed or timed-out step is
//! retried and when it fails its run, when a run has timed out or finished,
//! and when a step's dependencies are settled.  The engine reads the records
//! from the store, asks these functions, and writes back what they answer.
use vstd::prelude::*;
use vstd::arithmetic::power2::pow2;
use crate::store::KeyedStore;
use crate::workflow::{RunRecord, StepDef, StepRecord, WorkflowDef, deps_of, step_names};

verus! {

/// The wait before retry number `attempt` of a step: `base_delay_ms` doubled
/// once per attempt (at most six times), capped at 60 000 ms.
pub open spec fn retry_delay(base_delay_ms: u64, attempt: u32) -> u64 {
    let k: nat = if attempt < 6 { attempt as nat } else { 6 };
    if base_delay_ms * pow2(k) < 60_000 {
        (base_delay_ms * pow2(k)) as u64
    } else {
        60_000
    }
}

/// Whether `retry_delay` stays within 64-bit arithmetic (the engine
/// multiplies before it caps).
pub open spec fn retry_delay_fits(base_delay_ms: u64, attempt: u32) -> bool {
    let k: nat = if attempt < 6 { attempt as nat } else { 6 };
    base_delay_ms * pow2(k) <= u64::MAX
}

/// Whether a retry numbered `attempt` under a limit of `max_attempts` stays
/// within 64-bit arithmetic: when the attempts are not used up, the delay and
/// the time `now` plus the delay fit.
pub open spec fn retry_in_range(attempt: u32, max_attempts: u32, base_delay_ms: u64, now: u64) -> bool {
    attempt < max_attempts ==> retry_delay_fits(base_delay_ms, attempt) && now + retry_delay(base_delay_ms, attempt) <= u64::MAX
}

/// The wait before retry number `attempt` of a step.
pub fn retry_delay_ms(base_delay_ms: u64, attempt: u32) -> (r: u64)
    requires
        retry_delay_fits(base_delay_ms, attempt),
    ensures
        r == retry_delay(base_delay_ms, attempt),
        r <= 60_000,
{
    let k: u32 = if attempt < 6 { attempt } else { 6 };
    proof {
        vstd::bits::lemma_u64_pow2_no_overflow(k as nat);
        vstd::bits::lemma_u64_shl_is_mul(1u64, k as u64);
    }
    let factor: u64 = 1u64 << (k as u64);
    let prod = base_delay_ms * factor;
    if prod < 60_000 {
        prod
    } else {
        60_000
    }
}

/// Whether a retry numbered `attempt` under a limit of `max_attempts` stays
/// within 64-bit arithmetic at `now`.
pub fn retry_fits(attempt: u32, max_attempts: u32, base_delay_ms: u64, now: u64) -> (r: bool)
    ensures
        r == retry_in_range(attempt, max_attempts, base_delay_ms, now),
{
    if attempt >= max_attempts {
        return true;
    }
    let k: u32 = if attempt < 6 { attempt } else { 6 };
    proof {
        vstd::bits::lemma_u64_pow2_no_overflow(k as nat);
        vstd::bits::lemma_u64_shl_is_mul(1u64, k as u64);
    }
    let factor: u64 = 1u64 << (k as u64);
    match base_delay_ms.checked_mul(factor) {
        None => false,
        Some(prod) => {
            let delay: u64 = if prod < 60_000 { prod } else { 60_000 };
            match now.checked_add(delay) {
                Some(_) => true,
                None => false,
            }
        },
    }
}

/// Whether a step state is settled for its dependents: `succeeded` or `skipped`.
pub open spec fn settled(state: Seq<char>) -> bool {
    state == "succeeded"@ || state == "skipped"@
}

/// Whether `s` is the string `lit`.
pub(crate) fn is_state(s: &String, lit: &str) -> (r: bool)
    ensures
        r == (s@ == lit@),
{
    *s == crate::text::owned(lit)
}

/// Whether a step in state `state` is settled for its dependents.
pub fn is_settled(state: &String) -> (r: bool)
    ensures
        r == settled(state@),
{
    is_state(state, "succeeded") || is_state(state, "skipped")
}

/// Whether every dependency is settled; `None` stands for a dependency whose
/// record could not be read.
pub fn deps_settled(dep_states: &Vec<Option<String>>) -> (r: bool)
    ensures
        r == forall|i: int| 0 <= i < dep_states@.len() ==> (#[trigger] dep_states@[i] matches Some(s) && settled(s@)),
{
    let mut i: usize = 0;
    while i < dep_states.len()
        invariant
            i <= dep_states@.len(),
            forall|q: int| 0 <= q < i ==> (#[trigger] dep_states@[q] matches Some(s) && settled(s@)),
        decreases dep_states@.len() - i,
    {
        match &dep_states[i] {
            Some(s) => {
                if !is_settled(s) {
                    return false;
                }
            },
            None => {
                return false;
            },
        }
        i = i + 1;
    }
    true
}

/// Whether a run is finished: it has steps, and every step record reads as
/// settled (`None` for a record that could not be read).
pub fn run_finished(step_states: &Vec<Option<String>>) -> (r: bool)
    ensures
        r == (step_states@.len() > 0 && forall|i: int| 0 <= i < step_states@.len()
            ==> (#[trigger] step_states@[i] matches Some(s) && settled(s@))),
{
    if step_states.len() == 0 {
        return false;
    }
    deps_settled(step_states)
}

/// Whether run `run` of workflow `def` has outlived the workflow's time limit at `now_ms`.
pub fn run_timed_out(run: &RunRecord, def: &WorkflowDef, now_ms: u64) -> (r: bool)
    ensures
        r == (def.timeout_ms matches Some(t) && run.state@ == "running"@
            && (if now_ms >= run.created_at_ms { now_ms - run.created_at_ms } else { 0 }) > t),
{
    match def.timeout_ms {
        Some(t) => is_state(&run.state, "running") && now_ms.saturating_sub(run.created_at_ms) > t,
        None => false,
    }
}

/// The retry limits of step `name`: its `max_attempts` and `base_delay_ms`,
/// or 1 and 500 ms when the workflow has no such step.
pub fn failure_limits(def: &WorkflowDef, name: &str) -> (r: (u32, u64))
    ensures
        (exists|i: int| 0 <= i < def.steps@.len() && def.steps@[i].name@ == name@) ==> exists|i: int|
            0 <= i < def.steps@.len() && def.steps@[i].name@ == name@
            && (forall|j: int| 0 <= j < i ==> #[trigger] def.steps@[j].name@ != name@)
            && r == (def.steps@[i].max_attempts, def.steps@[i].base_delay_ms),
        !(exists|i: int| 0 <= i < def.steps@.len() && def.steps@[i].name@ == name@) ==> r == (1u32, 500u64),
{
    let target = crate::text::owned(name);
    let mut i: usize = 0;
    while i < def.steps.len()
        invariant
            i <= def.steps@.len(),
            target@ == name@,
            forall|j: int| 0 <= j < i ==> #[trigger] def.steps@[j].name@ != name@,
        decreases def.steps@.len() - i,
    {
        if def.steps[i].name == target {
            return (def.steps[i].max_attempts, def.steps[i].base_delay_ms);
        }
        i = i + 1;
    }
    proof {
        assert forall|k: int| 0 <= k < def.steps@.len() implies def.steps@[k].name@ != name@ by {
            assert(def.steps@[k].name@ != name@);
        }
    }
    (1, 500)
}

/// What a failure report does to a step `sr` with retry limits
/// `max_attempts` and `base_delay_ms` at `now`: the attempt is counted; when
/// the attempts are used up the step fails (and `fails_run` is set), else it
/// waits for its retry.
pub open spec fn failed_step(sr: StepRecord, max_attempts: u32, base_delay_ms: u64, now: u64, error: Option<String>, r: (StepRecord, bool)) -> bool {
    let attempt = (sr.attempt + 1) as u32;
    let (s, fails_run) = r;
    &&& s.attempt == attempt
    &&& s.error == error
    &&& s.started_at_ms == sr.started_at_ms
    &&& s.output == sr.output
    &&& fails_run == (attempt >= max_attempts)
    &&& fails_run ==> s.state@ == "failed"@ && s.scheduled_at_ms == sr.scheduled_at_ms
    &&& !fails_run ==> s.state@ == "pending"@ && s.scheduled_at_ms == now + retry_delay(base_delay_ms, attempt)
}

/// Record a failure of step `sr` reported at `now`.
pub fn step_failed(sr: StepRecord, max_attempts: u32, base_delay_ms: u64, now: u64, error: Option<String>) -> (r: (StepRecord, bool))
    requires
        sr.attempt < u32::MAX,
        retry_in_range((sr.attempt + 1) as u32, max_attempts, base_delay_ms, now),
    ensures
        failed_step(sr, max_attempts, base_delay_ms, now, error, r),
{
    let attempt = sr.attempt + 1;
    if attempt >= max_attempts {
        (StepRecord { state: crate::text::owned("failed"), attempt, error, ..sr }, true)
    } else {
        let delay = retry_delay_ms(base_delay_ms, attempt);
        (StepRecord { state: crate::text::owned("pending"), attempt, scheduled_at_ms: now + delay, error, ..sr }, false)
    }
}

/// Whether step `sr` with definition `sd` has run past its time limit at `now`:
/// it has a limit, is pending or running, has started, and more than the limit has passed.
pub open spec fn timed_out(sr: StepRecord, sd: StepDef, now: u64) -> bool {
    &&& sd.timeout_ms is Some
    &&& (sr.state@ == "running"@ || sr.state@ == "pending"@)
    &&& sr.started_at_ms is Some
    &&& (if now >= sr.started_at_ms->0 { now - sr.started_at_ms->0 } else { 0 }) > sd.timeout_ms->0
}

/// What a time-out does to step `sr` with definition `sd` at `now`: as a
/// failure with the error `step timeout`, and the step no longer started.
pub open spec fn timed_out_step(sr: StepRecord, sd: StepDef, now: u64, r: (StepRecord, bool)) -> bool {
    let attempt = (sr.attempt + 1) as u32;
    let (s, fails_run) = r;
    &&& s.attempt == attempt
    &&& s.error matches Some(e) && e@ == "step timeout"@
    &&& s.started_at_ms is None
    &&& s.output == sr.output
    &&& fails_run == (attempt >= sd.max_attempts)
    &&& fails_run ==> s.state@ == "failed"@ && s.scheduled_at_ms == sr.scheduled_at_ms
    &&& !fails_run ==> s.state@ == "pending"@ && s.scheduled_at_ms == now + retry_delay(sd.base_delay_ms, attempt)
}

/// Check step `sr` against its time limit at `now`: `None` when it has not
/// timed out, else the step after the time-out and whether its run fails.
pub fn step_timeout(sr: StepRecord, sd: &StepDef, now: u64) -> (r: Option<(StepRecord, bool)>)
    requires
        timed_out(sr, *sd, now) ==> sr.attempt < u32::MAX
            && retry_in_range((sr.attempt + 1) as u32, sd.max_attempts, sd.base_delay_ms, now),
    ensures
        !timed_out(sr, *sd, now) ==> r is None,
        timed_out(sr, *sd, now) ==> (r matches Some(x) && timed_out_step(sr, *sd, now, x)),
{
    let timeout_ms = match sd.timeout_ms {
        Some(t) => t,
        None => return None,
    };
    if !is_state(&sr.state, "running") && !is_state(&sr.state, "pending") {
        return None;
    }
    let started = match sr.started_at_ms {
        Some(t) => t,
        None => return None,
    };
    if now.saturating_sub(started) <= timeout_ms {
        return None;
    }
    let attempt = sr.attempt + 1;
    let error = Some(crate::text::owned("step timeout"));
    if attempt >= sd.max_attempts {
        Some((StepRecord { state: crate::text::owned("failed"), attempt, error, started_at_ms: None, ..sr }, true))
    } else {
        let delay = retry_delay_ms(sd.base_delay_ms, attempt);
        Some((
            StepRecord {
                state: crate::text::owned("pending"),
                attempt,
                scheduled_at_ms: now + delay,
                started_at_ms: None,
                error,
                ..sr
            },
            false,
        ))
    }
}

// ── Skips that spread ───────────────────────────────────────────────────────

/// The position of the first step named `n` from position `i` on.
pub open spec fn first_named_from(steps: Seq<StepDef>, n: Seq<char>, i: int) -> Option<int>
    decreases steps.len() - i,
{
    if i < 0 || i >= steps.len() {
        None
    } else if steps[i].name@ == n {
        Some(i)
    } else {
        first_named_from(steps, n, i + 1)
    }
}

/// The position of the first step named `n`.
pub open spec fn first_named(steps: Seq<StepDef>, n: Seq<char>) -> Option<int> {
    first_named_from(steps, n, 0)
}

pub proof fn lemma_first_named_from(steps: Seq<StepDef>, n: Seq<char>, i: int)
    requires
        0 <= i,
    ensures
        first_named_from(steps, n, i) matches Some(j) ==> i <= j < steps.len() && steps[j].name@ == n
            && forall|q: int| i <= q < j ==> #[trigger] steps[q].name@ != n,
        first_named_from(steps, n, i) is None ==> forall|q: int| i <= q < steps.len() ==> #[trigger] steps[q].name@ != n,
    decreases steps.len() - i,
{
    if i < steps.len() && steps[i].name@ != n {
        lemma_first_named_from(steps, n, i + 1);
    }
}

/// Whether the step record named `n` is in state `st`.
pub open spec fn state_is(m: Map<Seq<char>, String>, n: Seq<char>, st: Seq<char>) -> bool {
    m.contains_key(n) && m[n]@ == st
}

/// Whether the record named `d` is settled in `m`.
pub open spec fn settled_in(m: Map<Seq<char>, String>, d: Seq<char>) -> bool {
    m.contains_key(d) && settled(m[d]@)
}

/// Whether every dependency of `sd` has a settled record in `m`.
pub open spec fn all_deps_settled(m: Map<Seq<char>, String>, sd: StepDef) -> bool {
    forall|k: int| 0 <= k < deps_of(sd).len() ==> #[trigger] settled_in(m, deps_of(sd)[k])
}

/// Whether some dependency of `sd` has a skipped record in `m`.
pub open spec fn some_dep_skipped(m: Map<Seq<char>, String>, sd: StepDef) -> bool {
    exists|k: int| 0 <= k < deps_of(sd).len() && #[trigger] state_is(m, deps_of(sd)[k], "skipped"@)
}

/// Whether step `n` would be skipped by what its dependencies went through:
/// its first definition has no condition, every dependency is settled and
/// one was skipped.
pub open spec fn skip_justified(steps: Seq<StepDef>, m: Map<Seq<char>, String>, n: Seq<char>) -> bool {
    match first_named(steps, n) {
        Some(j) => steps[j].condition is None && all_deps_settled(m, steps[j]) && some_dep_skipped(m, steps[j]),
        None => false,
    }
}

/// Whether pending step `n` is to be skipped.
pub open spec fn skip_due(steps: Seq<StepDef>, m: Map<Seq<char>, String>, n: Seq<char>) -> bool {
    state_is(m, n, "pending"@) && skip_justified(steps, m, n)
}

/// Whether pending step `n` is to be skipped because of a skipped dependency
/// that is itself a step of the workflow.
pub open spec fn skip_due_in(steps: Seq<StepDef>, m: Map<Seq<char>, String>, n: Seq<char>) -> bool {
    &&& skip_due(steps, m, n)
    &&& first_named(steps, n) matches Some(j) && exists|k: int| 0 <= k < deps_of(steps[j]).len()
        && #[trigger] state_is(m, deps_of(steps[j])[k], "skipped"@) && step_names(steps).contains(deps_of(steps[j])[k])
}

/// `m2` follows `m1` by turning pending records into skipped ones only.
pub open spec fn only_skips(m1: Map<Seq<char>, String>, m2: Map<Seq<char>, String>) -> bool {
    &&& m2.dom() == m1.dom()
    &&& forall|k: Seq<char>| #[trigger] m1.contains_key(k) ==> m2[k] == m1[k] || (m1[k]@ == "pending"@ && m2[k]@ == "skipped"@)
}

/// The step states `pending`, `skipped` and `succeeded` are different words.
proof fn lemma_states_differ()
    ensures
        "skipped"@ != "pending"@,
        "succeeded"@ != "pending"@,
{
    reveal_strlit("pending");
    reveal_strlit("skipped");
    reveal_strlit("succeeded");
    assert("skipped"@[0] != "pending"@[0]);
    assert("succeeded"@[0] != "pending"@[0]);
}

/// Skipping more records keeps a skip justified.
proof fn lemma_justified_grows(steps: Seq<StepDef>, m1: Map<Seq<char>, String>, m2: Map<Seq<char>, String>, n: Seq<char>)
    requires
        only_skips(m1, m2),
        skip_justified(steps, m1, n),
    ensures
        skip_justified(steps, m2, n),
{
    reveal_strlit("pending");
    reveal_strlit("skipped");
    reveal_strlit("succeeded");
    let j = first_named(steps, n)->0;
    let sd = steps[j];
    assert(all_deps_settled(m1, sd));
    assert forall|k: int| 0 <= k < deps_of(sd).len() implies #[trigger] settled_in(m2, deps_of(sd)[k]) by {
        let d = deps_of(sd)[k];
        assert(settled_in(m1, d));
        assert(m2[d] == m1[d] || (m1[d]@ == "pending"@ && m2[d]@ == "skipped"@));
    }
    let k = choose|k: int| 0 <= k < deps_of(sd).len() && #[trigger] state_is(m1, deps_of(sd)[k], "skipped"@);
    assert(state_is(m2, deps_of(sd)[k], "skipped"@));
}

/// The position of the first step named `n`.
pub(crate) fn first_step(steps: &Vec<StepDef>, n: &String) -> (r: Option<usize>)
    ensures
        r matches Some(j) ==> first_named(steps@, n@) == Some(j as int) && j < steps@.len(),
        r is None ==> first_named(steps@, n@) is None,
{
    let mut i: usize = 0;
    proof {
        lemma_first_named_from(steps@, n@, 0);
    }
    while i < steps.len()
        invariant
            i <= steps@.len(),
            first_named(steps@, n@) == first_named_from(steps@, n@, i as int),
        decreases steps@.len() - i,
    {
        if steps[i].name == *n {
            return Some(i);
        }
        i = i + 1;
    }
    proof {
        assert(first_named_from(steps@, n@, steps@.len() as int) is None);
    }
    None
}

/// Whether every dependency of `sd` has a settled record.
fn deps_all_settled(m: &KeyedStore<String>, sd: &StepDef) -> (r: bool)
    requires
        m.wf(),
    ensures
        r == all_deps_settled(m@, *sd),
{
    let mut k: usize = 0;
    while k < sd.depends_on.len()
        invariant
            m.wf(),
            k <= sd.depends_on@.len(),
            forall|q: int| 0 <= q < k ==> #[trigger] settled_in(m@, deps_of(*sd)[q]),
        decreases sd.depends_on@.len() - k,
    {
        proof {
            assert(deps_of(*sd)[k as int] == sd.depends_on@[k as int]@);
        }
        match m.get(&sd.depends_on[k]) {
            Some(st) => {
                if !is_settled(st) {
                    assert(!settled_in(m@, deps_of(*sd)[k as int]));
                    return false;
                }
                assert(settled_in(m@, deps_of(*sd)[k as int]));
            },
            None => {
                assert(!settled_in(m@, deps_of(*sd)[k as int]));
                return false;
            },
        }
        k = k + 1;
    }
    true
}

/// Whether some dependency of `sd` has a skipped record.
fn deps_any_skipped(m: &KeyedStore<String>, sd: &StepDef) -> (r: bool)
    requires
        m.wf(),
    ensures
        r == some_dep_skipped(m@, *sd),
{
    let mut k: usize = 0;
    while k < sd.depends_on.len()
        invariant
            m.wf(),
            k <= sd.depends_on@.len(),
            forall|q: int| 0 <= q < k ==> !#[trigger] state_is(m@, deps_of(*sd)[q], "skipped"@),
        decreases sd.depends_on@.len() - k,
    {
        proof {
            assert(deps_of(*sd)[k as int] == sd.depends_on@[k as int]@);
        }
        match m.get(&sd.depends_on[k]) {
            Some(st) => {
                if is_state(st, "skipped") {
                    assert(state_is(m@, deps_of(*sd)[k as int], "skipped"@));
                    return true;
                }
            },
            None => {},
        }
        k = k + 1;
    }
    false
}

/// Whether pending step `n` is to be skipped.
fn due_for_skip(steps: &Vec<StepDef>, m: &KeyedStore<String>, n: &String) -> (r: bool)
    requires
        m.wf(),
    ensures
        r == skip_due(steps@, m@, n@),
{
    match m.get(n) {
        Some(st) => {
            if !is_state(st, "pending") {
                return false;
            }
        },
        None => {
            return false;
        },
    }
    proof {
        lemma_first_named_from(steps@, n@, 0);
    }
    match first_step(steps, n) {
        Some(j) => {
            let sd = &steps[j];
            assert(first_named(steps@, n@) == Some(j as int));
            assert(*sd == steps@[j as int]);
            let no_cond = match &sd.condition {
                Some(_) => false,
                None => true,
            };
            let r = no_cond && deps_all_settled(m, sd) && deps_any_skipped(m, sd);
            assert(r == skip_justified(steps@, m@, n@));
            r
        },
        None => false,
    }
}

/// When one pending record turns skipped, a step that only now is to be
/// skipped depends on it.
proof fn lemma_newly_due(steps: Seq<StepDef>, m: Map<Seq<char>, String>, n: Seq<char>, sk: String, n2: Seq<char>)
    requires
        sk@ == "skipped"@,
        state_is(m, n, "pending"@),
        n2 != n,
        skip_due_in(steps, m.insert(n, sk), n2),
        !skip_due_in(steps, m, n2),
    ensures
        first_named(steps, n2) matches Some(j) && deps_of(steps[j]).contains(n),
{
    reveal_strlit("pending");
    reveal_strlit("skipped");
    let m2 = m.insert(n, sk);
    let j = first_named(steps, n2)->0;
    let ds = deps_of(steps[j]);
    if !ds.contains(n) {
        assert forall|k: int| 0 <= k < ds.len() implies #[trigger] settled_in(m, ds[k]) by {
            assert(ds[k] != n);
            assert(settled_in(m2, ds[k]));
        }
        let k = choose|k: int| 0 <= k < ds.len() && #[trigger] state_is(m2, ds[k], "skipped"@) && step_names(steps).contains(ds[k]);
        assert(ds[k] != n);
        assert(state_is(m, ds[k], "skipped"@));
        assert(some_dep_skipped(m, steps[j]));
        assert(skip_due_in(steps, m, n2));
    }
}

/// A duplicate-free sequence of step names is no longer than the steps.
proof fn lemma_names_bound(p: Seq<Seq<char>>, names: Seq<Seq<char>>)
    requires
        p.no_duplicates(),
        forall|q: int| 0 <= q < p.len() ==> names.contains(#[trigger] p[q]),
    ensures
        p.len() <= names.len(),
{
    p.unique_seq_to_set();
    names.lemma_cardinality_of_set();
    vstd::seq_lib::seq_to_set_is_finite(names);
    assert(p.to_set().subset_of(names.to_set())) by {
        assert forall|x: Seq<char>| p.to_set().contains(x) implies names.to_set().contains(x) by {
            let q = choose|q: int| 0 <= q < p.len() && p[q] == x;
            assert(names.contains(p[q]));
        }
    }
    vstd::set_lib::lemma_len_subset(p.to_set(), names.to_set());
}

/// Whether some dependency of `sd` is named `x`.
fn depends_on(sd: &StepDef, x: &String) -> (r: bool)
    ensures
        r == deps_of(*sd).contains(x@),
{
    let mut k: usize = 0;
    while k < sd.depends_on.len()
        invariant
            k <= sd.depends_on@.len(),
            forall|q: int| 0 <= q < k ==> deps_of(*sd)[q] != x@,
        decreases sd.depends_on@.len() - k,
    {
        if sd.depends_on[k] == *x {
            assert(deps_of(*sd)[k as int] == x@);
            return true;
        }
        k = k + 1;
    }
    false
}

/// Spread skips through the workflow `def`, given the state of each step
/// record by name: a pending step without a condition is skipped once all its
/// dependencies are settled and one of them was skipped, and so on down the
/// dependency graph.  Only pending records change, only to `skipped`, each
/// with that justification; afterwards no pending step is left that a skipped
/// step of the workflow would skip.
pub fn apply_transitive_skips(def: &WorkflowDef, states: &mut KeyedStore<String>)
    requires
        old(states).wf(),
    ensures
        final(states).wf(),
        only_skips(old(states)@, final(states)@),
        forall|n: Seq<char>| #[trigger] old(states)@.contains_key(n) && final(states)@[n] != old(states)@[n]
            ==> skip_justified(def.steps@, final(states)@, n),
        forall|n: Seq<char>| !#[trigger] skip_due_in(def.steps@, final(states)@, n),
{
    proof {
        reveal_strlit("pending");
        reveal_strlit("skipped");
    }
    let steps = &def.steps;
    let ghost m0 = states@;
    let ghost sn = step_names(steps@);
    let mut queue: Vec<String> = Vec::new();
    let mut i: usize = 0;
    while i < steps.len()
        invariant
            states@ == m0,
            states.wf(),
            i <= steps@.len(),
            sn == step_names(steps@),
            queue@.len() <= i,
            forall|q: int| 0 <= q < queue@.len() ==> #[trigger] state_is(m0, queue@[q]@, "skipped"@),
            forall|t: int| 0 <= t < i && #[trigger] state_is(m0, steps@[t].name@, "skipped"@)
                ==> exists|q: int| 0 <= q < queue@.len() && queue@[q]@ == steps@[t].name@,
        decreases steps@.len() - i,
    {
        let ghost q0 = queue@;
        let mut took = false;
        match states.get(&steps[i].name) {
            Some(st) => {
                if is_state(st, "skipped") {
                    queue.push(steps[i].name.clone());
                    took = true;
                }
            },
            None => {},
        }
        proof {
            reveal_strlit("skipped");
            assert(took == state_is(m0, steps@[i as int].name@, "skipped"@));
            if took {
                assert(queue@ == q0.push(queue@[q0.len() as int]));
                assert(queue@[q0.len() as int]@ == steps@[i as int].name@);
            } else {
                assert(queue@ == q0);
            }
            assert forall|t: int| 0 <= t < i + 1 && #[trigger] state_is(m0, steps@[t].name@, "skipped"@)
                implies exists|q: int| 0 <= q < queue@.len() && queue@[q]@ == steps@[t].name@ by {
                if t < i {
                    let q = choose|q: int| 0 <= q < q0.len() && q0[q]@ == steps@[t].name@;
                    assert(queue@[q] == q0[q]);
                } else {
                    assert(queue@[q0.len() as int]@ == steps@[t].name@);
                }
            }
            assert forall|q: int| 0 <= q < queue@.len() implies #[trigger] state_is(m0, queue@[q]@, "skipped"@) by {
                if q < q0.len() {
                    assert(queue@[q] == q0[q]);
                }
            }
        }
        i = i + 1;
    }
    let init_len = queue.len();
    let ghost mut pushed: Seq<Seq<char>> = Seq::empty();
    let mut head: usize = 0;
    proof {
        assert forall|n: Seq<char>| #[trigger] skip_due_in(steps@, states@, n) implies exists|q: int|
            head <= q < queue@.len() && deps_of(steps@[first_named(steps@, n)->0]).contains(queue@[q]@) by {
            let j = first_named(steps@, n)->0;
            let ds = deps_of(steps@[j]);
            let k = choose|k: int| 0 <= k < ds.len() && #[trigger] state_is(states@, ds[k], "skipped"@) && sn.contains(ds[k]);
            let t = choose|t: int| 0 <= t < sn.len() && sn[t] == ds[k];
            assert(state_is(m0, steps@[t].name@, "skipped"@));
            let q = choose|q: int| 0 <= q < queue@.len() && queue@[q]@ == steps@[t].name@;
            assert(ds[k] == queue@[q]@);
            assert(ds.contains(queue@[q]@));
        }
    }
    while head < queue.len()
        invariant
            states.wf(),
            sn == step_names(steps@),
            only_skips(m0, states@),
            forall|n: Seq<char>| #[trigger] m0.contains_key(n) && states@[n] != m0[n] ==> skip_justified(steps@, states@, n),
            forall|q: int| 0 <= q < queue@.len() ==> #[trigger] state_is(states@, queue@[q]@, "skipped"@),
            forall|n: Seq<char>| #[trigger] skip_due_in(steps@, states@, n) ==> exists|q: int|
                head <= q < queue@.len() && deps_of(steps@[first_named(steps@, n)->0]).contains(queue@[q]@),
            init_len <= steps@.len(),
            queue@.len() == init_len + pushed.len(),
            forall|q: int| 0 <= q < pushed.len() ==> pushed[q] == #[trigger] queue@[init_len + q]@,
            pushed.no_duplicates(),
            forall|q: int| 0 <= q < pushed.len() ==> sn.contains(#[trigger] pushed[q]),
            head <= queue@.len(),
        decreases 2 * steps@.len() - head,
    {
        proof {
            lemma_names_bound(pushed, sn);
        }
        let x = queue[head].clone();
        let ghost h0 = head as int;
        head = head + 1;
        let mut j: usize = 0;
        proof {
            assert forall|n: Seq<char>| #[trigger] skip_due_in(steps@, states@, n) implies (exists|q: int|
                head <= q < queue@.len() && deps_of(steps@[first_named(steps@, n)->0]).contains(queue@[q]@))
                || (deps_of(steps@[first_named(steps@, n)->0]).contains(x@) && first_named(steps@, n)->0 >= j) by {
                lemma_first_named_from(steps@, n, 0);
                let q = choose|q: int| h0 <= q < queue@.len() && deps_of(steps@[first_named(steps@, n)->0]).contains(queue@[q]@);
                if q == h0 {
                    assert(queue@[q]@ == x@);
                }
            }
        }
        while j < steps.len()
            invariant
                states.wf(),
                sn == step_names(steps@),
                only_skips(m0, states@),
                forall|n: Seq<char>| #[trigger] m0.contains_key(n) && states@[n] != m0[n] ==> skip_justified(steps@, states@, n),
                forall|q: int| 0 <= q < queue@.len() ==> #[trigger] state_is(states@, queue@[q]@, "skipped"@),
                forall|n: Seq<char>| #[trigger] skip_due_in(steps@, states@, n) ==> (exists|q: int|
                    head <= q < queue@.len() && deps_of(steps@[first_named(steps@, n)->0]).contains(queue@[q]@))
                    || (deps_of(steps@[first_named(steps@, n)->0]).contains(x@) && first_named(steps@, n)->0 >= j),
                init_len <= steps@.len(),
                queue@.len() == init_len + pushed.len(),
                forall|q: int| 0 <= q < pushed.len() ==> pushed[q] == #[trigger] queue@[init_len + q]@,
                pushed.no_duplicates(),
                forall|q: int| 0 <= q < pushed.len() ==> sn.contains(#[trigger] pushed[q]),
                1 <= head <= queue@.len(),
                j <= steps@.len(),
            decreases steps@.len() - j,
        {
            if depends_on(&steps[j], &x) {
                let n = steps[j].name.clone();
                if due_for_skip(steps, states, &n) {
                    let ghost m1 = states@;
                    let ghost q1 = queue@;
                    let sk = crate::text::owned("skipped");
                    let ghost skv = sk;
                    states.insert(n.clone(), sk);
                    queue.push(n);
                    proof {
                        reveal_strlit("pending");
                        reveal_strlit("skipped");
                        let nv = steps@[j as int].name@;
                        assert(states@ == m1.insert(nv, skv));
                        assert(states@.dom() =~= m1.dom());
                        assert(m1.contains_key(nv) && m1[nv]@ == "pending"@);
                        // the changed records stay justified
                        assert(only_skips(m1, states@));
                        assert(only_skips(m0, states@)) by {
                            assert forall|k: Seq<char>| #[trigger] m0.contains_key(k) implies states@[k] == m0[k]
                                || (m0[k]@ == "pending"@ && states@[k]@ == "skipped"@) by {
                                if k == nv {
                                    assert(m1[k] == m0[k] || m1[k]@ == "skipped"@);
                                }
                            }
                        }
                        assert forall|k: Seq<char>| #[trigger] m0.contains_key(k) && states@[k] != m0[k]
                            implies skip_justified(steps@, states@, k) by {
                            if k == nv {
                                lemma_justified_grows(steps@, m1, states@, k);
                            } else {
                                lemma_justified_grows(steps@, m1, states@, k);
                            }
                        }
                        // the queue holds skipped records
                        assert forall|q: int| 0 <= q < queue@.len() implies #[trigger] state_is(states@, queue@[q]@, "skipped"@) by {
                            if q < q1.len() {
                                assert(queue@[q] == q1[q]);
                                assert(state_is(m1, q1[q]@, "skipped"@));
                            }
                        }
                        // the new name was pending, so it was not pushed before
                        assert(!pushed.contains(nv)) by {
                            reveal_strlit("pending");
                            reveal_strlit("skipped");
                            if pushed.contains(nv) {
                                let q = choose|q: int| 0 <= q < pushed.len() && pushed[q] == nv;
                                assert(pushed[q] == q1[init_len + q]@);
                                assert(state_is(m1, q1[init_len + q]@, "skipped"@));
                                assert(m1[nv]@ == "pending"@);
                                lemma_states_differ();
                            }
                        }
                        pushed = pushed.push(nv);
                        assert forall|q: int| 0 <= q < pushed.len() implies pushed[q] == #[trigger] queue@[init_len + q]@ by {
                            if q < pushed.len() - 1 {
                                assert(queue@[init_len + q] == q1[init_len + q]);
                            }
                        }
                        assert(sn.contains(nv)) by {
                            assert(sn[j as int] == nv);
                        }
                        assert forall|q: int| 0 <= q < pushed.len() implies sn.contains(#[trigger] pushed[q]) by {
                            if q == pushed.len() - 1 {
                                assert(pushed[q] == nv);
                            }
                        }
                        // every step now due keeps a witness
                        assert forall|n2: Seq<char>| #[trigger] skip_due_in(steps@, states@, n2) implies (exists|q: int|
                            head <= q < queue@.len() && deps_of(steps@[first_named(steps@, n2)->0]).contains(queue@[q]@))
                            || (deps_of(steps@[first_named(steps@, n2)->0]).contains(x@) && first_named(steps@, n2)->0 >= j + 1) by {
                            reveal_strlit("pending");
                            reveal_strlit("skipped");
                            lemma_first_named_from(steps@, n2, 0);
                            assert(states@[nv]@ == "skipped"@);
                            assert(state_is(states@, n2, "pending"@));
                            lemma_states_differ();
                            assert(n2 != nv);
                            if skip_due_in(steps@, m1, n2) {
                                if first_named(steps@, n2)->0 == j {
                                    assert(steps@[j as int].name@ == n2);
                                }
                                if exists|q: int| head <= q < q1.len() && deps_of(steps@[first_named(steps@, n2)->0]).contains(q1[q]@) {
                                    let q = choose|q: int| head <= q < q1.len() && deps_of(steps@[first_named(steps@, n2)->0]).contains(q1[q]@);
                                    assert(queue@[q] == q1[q]);
                                }
                            } else {
                                lemma_newly_due(steps@, m1, nv, skv, n2);
                                let last = queue@.len() - 1;
                                assert(queue@[last]@ == nv);
                            }
                        }
                    }
                } else {
                    proof {
                        reveal_strlit("pending");
                        reveal_strlit("skipped");
                        assert forall|n2: Seq<char>| #[trigger] skip_due_in(steps@, states@, n2) implies (exists|q: int|
                            head <= q < queue@.len() && deps_of(steps@[first_named(steps@, n2)->0]).contains(queue@[q]@))
                            || (deps_of(steps@[first_named(steps@, n2)->0]).contains(x@) && first_named(steps@, n2)->0 >= j + 1) by {
                            lemma_first_named_from(steps@, n2, 0);
                            if first_named(steps@, n2)->0 == j {
                                assert(steps@[j as int].name@ == n2);
                                lemma_first_named_from(steps@, n@, 0);
                            }
                        }
                    }
                }
            } else {
                proof {
                    assert forall|n2: Seq<char>| #[trigger] skip_due_in(steps@, states@, n2) implies (exists|q: int|
                        head <= q < queue@.len() && deps_of(steps@[first_named(steps@, n2)->0]).contains(queue@[q]@))
                        || (deps_of(steps@[first_named(steps@, n2)->0]).contains(x@) && first_named(steps@, n2)->0 >= j + 1) by {
                        lemma_first_named_from(steps@, n2, 0);
                    }
                }
            }
            j = j + 1;
        }
        proof {
            assert forall|n2: Seq<char>| #[trigger] skip_due_in(steps@, states@, n2) implies exists|q: int|
                head <= q < queue@.len() && deps_of(steps@[first_named(steps@, n2)->0]).contains(queue@[q]@) by {
                lemma_first_named_from(steps@, n2, 0);
            }
        }
    }
}

} // verus!
