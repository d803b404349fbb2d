//! The workflow engine at work on one run: the run record and the step
//! records of the run, keyed by step name.  Each function here is what one
//! request does to them: hand out the ready steps, record a step's outcome,
//! settle a step from its child run, expire steps that ran too long, finish
//! the run.  The caller reads the records from the store and writes back what
//! changed.
use vstd::prelude::*;
use crate::store::KeyedStore;
use crate::text::{opt_bytes, owned};
use crate::workflow::{RunRecord, StepDef, StepRecord, WorkflowDef, deps_of};
use crate::workflow_engine::{
    apply_transitive_skips, failed_step, failure_limits, first_named, is_state, lemma_first_named_from,
    only_skips, retry_fits, retry_in_range, settled, skip_due_in, skip_justified, step_failed, step_timeout,
    timed_out, timed_out_step,
};

verus! {

// ── Conditions ──────────────────────────────────────────────────────────────

/// What `serde_json::from_slice::<serde_json::Value>` reads from `bytes`
/// (`None` when they are not JSON).
pub uninterp spec fn json_parsed(bytes: Seq<u8>) -> Option<serde_json::Value>;

/// What `==` on `serde_json::Value` answers for `a` and `b`.
pub uninterp spec fn json_equal(a: serde_json::Value, b: serde_json::Value) -> bool;

/// What `serde_json::Value::is_null` answers for `v`.
pub uninterp spec fn json_null(v: serde_json::Value) -> bool;

/// Wraps `serde_json::from_slice::<serde_json::Value>`: the JSON value that
/// `bytes` hold, or `None` when they are not JSON.
#[verifier::external_body]
pub(crate) fn parse_json(bytes: &[u8]) -> (r: Option<serde_json::Value>)
    ensures
        r == json_parsed(bytes@),
{
    serde_json::from_slice(bytes).ok()
}

/// Wraps `==` on `serde_json::Value`.
#[verifier::external_body]
fn values_equal(a: &serde_json::Value, b: &serde_json::Value) -> (r: bool)
    ensures
        r == json_equal(*a, *b),
{
    a == b
}

/// Wraps `serde_json::Value::is_null`.
#[verifier::external_body]
fn value_is_null(v: &serde_json::Value) -> (r: bool)
    ensures
        r == json_null(*v),
{
    v.is_null()
}

/// Whether a condition on a step whose output is `output` holds: the output
/// parses as JSON equal to `equals`; a step without output counts as `null`.
pub open spec fn condition_holds(output: Option<Seq<u8>>, equals: serde_json::Value) -> bool {
    match output {
        Some(b) => match json_parsed(b) {
            Some(v) => json_equal(v, equals),
            None => false,
        },
        None => json_null(equals),
    }
}

/// Whether a condition with value `equals` holds for the output `output`.
pub fn condition_met(output: &Option<Vec<u8>>, equals: &serde_json::Value) -> (r: bool)
    ensures
        r == condition_holds(opt_bytes(*output), *equals),
{
    match output {
        Some(b) => match parse_json(b.as_slice()) {
            Some(v) => values_equal(&v, equals),
            None => false,
        },
        None => value_is_null(equals),
    }
}

// ── Step records ────────────────────────────────────────────────────────────

/// The state of each step record.
pub open spec fn states_of(m: Map<Seq<char>, StepRecord>) -> Map<Seq<char>, String> {
    Map::new(|k: Seq<char>| m.contains_key(k), |k: Seq<char>| m[k].state)
}

/// `b` is `a` with at most its state changed.
pub open spec fn same_but_state(a: StepRecord, b: StepRecord) -> bool {
    &&& b.attempt == a.attempt
    &&& b.scheduled_at_ms == a.scheduled_at_ms
    &&& b.started_at_ms == a.started_at_ms
    &&& b.output == a.output
    &&& b.error == a.error
}

/// `b` is `a` with at most its state changed, run by run.
pub open spec fn only_states_change(a: Map<Seq<char>, StepRecord>, b: Map<Seq<char>, StepRecord>) -> bool {
    &&& b.dom() == a.dom()
    &&& forall|k: Seq<char>| #[trigger] a.contains_key(k) ==> same_but_state(a[k], b[k])
}

/// `b` is `a` with only its state changed (a run record).
pub open spec fn same_run_but_state(a: RunRecord, b: RunRecord) -> bool {
    &&& b.run_id == a.run_id
    &&& b.wf_name == a.wf_name
    &&& b.idem_key == a.idem_key
    &&& b.created_at_ms == a.created_at_ms
}

/// `b` follows `a` when skips have spread through a run of a workflow with
/// steps `defs`: only pending records turn skipped, each with a skipped and
/// settled dependencies (see `skip_justified`), until none is left to skip.
pub open spec fn skips_spread(defs: Seq<StepDef>, a: Map<Seq<char>, StepRecord>, b: Map<Seq<char>, StepRecord>) -> bool {
    &&& only_states_change(a, b)
    &&& only_skips(states_of(a), states_of(b))
    &&& forall|n: Seq<char>| #[trigger] a.contains_key(n) && b[n].state != a[n].state
        ==> skip_justified(defs, states_of(b), n)
    &&& forall|n: Seq<char>| !#[trigger] skip_due_in(defs, states_of(b), n)
}

/// Spread skips through the step records of a run of `def`, as
/// `apply_transitive_skips` does on their states; nothing else changes.
pub fn spread_skips(def: &WorkflowDef, steps: &mut KeyedStore<StepRecord>)
    requires
        old(steps).wf(),
    ensures
        final(steps).wf(),
        skips_spread(def.steps@, old(steps)@, final(steps)@),
{
    let ghost m0 = steps@;
    let keys = steps.keys();
    let mut states: KeyedStore<String> = KeyedStore::new();
    let mut i: usize = 0;
    while i < keys.len()
        invariant
            steps@ == m0,
            steps.wf(),
            states.wf(),
            i <= keys@.len(),
            forall|k: Seq<char>| m0.contains_key(k) <==> exists|j: int| 0 <= j < keys@.len() && #[trigger] keys@[j]@ == k,
            forall|k: Seq<char>| #[trigger] states@.contains_key(k) <==> exists|j: int| 0 <= j < i && keys@[j]@ == k,
            forall|k: Seq<char>| #[trigger] states@.contains_key(k) ==> m0.contains_key(k) && states@[k] == m0[k].state,
        decreases keys@.len() - i,
    {
        let k = &keys[i];
        proof {
            assert(m0.contains_key(keys@[i as int]@));
        }
        match steps.get(k) {
            Some(rec) => {
                states.insert(k.clone(), rec.state.clone());
            },
            None => {},
        }
        proof {
            assert forall|q: Seq<char>| #[trigger] states@.contains_key(q) <==> exists|j: int| 0 <= j < i + 1 && keys@[j]@ == q by {
                if exists|j: int| 0 <= j < i + 1 && keys@[j]@ == q {
                    let j = choose|j: int| 0 <= j < i + 1 && keys@[j]@ == q;
                    if j < i {
                        assert(exists|j2: int| 0 <= j2 < i && keys@[j2]@ == q);
                    }
                }
                if states@.contains_key(q) && q != keys@[i as int]@ {
                    let j = choose|j: int| 0 <= j < i && keys@[j]@ == q;
                    assert(0 <= j < i + 1 && keys@[j]@ == q);
                }
            }
        }
        i = i + 1;
    }
    proof {
        assert(states@ =~= states_of(m0)) by {
            assert forall|k: Seq<char>| m0.contains_key(k) implies #[trigger] states@.contains_key(k) by {
                let j = choose|j: int| 0 <= j < keys@.len() && #[trigger] keys@[j]@ == k;
            }
        }
    }
    apply_transitive_skips(def, &mut states);
    let mut i: usize = 0;
    while i < keys.len()
        invariant
            steps.wf(),
            states.wf(),
            i <= keys@.len(),
            forall|k: Seq<char>| m0.contains_key(k) <==> exists|j: int| 0 <= j < keys@.len() && #[trigger] keys@[j]@ == k,
            steps@.dom() == m0.dom(),
            states@.dom() == m0.dom(),
            forall|k: Seq<char>| #[trigger] m0.contains_key(k) ==> same_but_state(m0[k], steps@[k]),
            forall|k: Seq<char>| #[trigger] m0.contains_key(k) && (exists|j: int| 0 <= j < i && keys@[j]@ == k)
                ==> steps@[k].state == states@[k],
        decreases keys@.len() - i,
    {
        let ghost before = steps@;
        proof {
            assert(m0.contains_key(keys@[i as int]@));
        }
        match steps.find(&keys[i]) {
            Some(idx) => {
                let (key, rec) = steps.take_at(idx);
                let st = match states.get(&key) {
                    Some(s) => s.clone(),
                    None => rec.state,
                };
                let new_rec = StepRecord { state: st, ..rec };
                steps.restore_at(idx, key, new_rec);
            },
            None => {},
        }
        proof {
            assert(steps@.dom() =~= m0.dom());
            assert forall|k: Seq<char>| #[trigger] m0.contains_key(k) && (exists|j: int| 0 <= j < i + 1 && keys@[j]@ == k)
                implies steps@[k].state == states@[k] by {
                if k != keys@[i as int]@ {
                    let j = choose|j: int| 0 <= j < i + 1 && keys@[j]@ == k;
                    assert(j != i);
                    assert(exists|j2: int| 0 <= j2 < i && keys@[j2]@ == k);
                }
            }
        }
        i = i + 1;
    }
    proof {
        assert(states_of(steps@) =~= states@) by {
            assert forall|k: Seq<char>| steps@.contains_key(k) implies states_of(steps@)[k] == states@[k] by {
                let j = choose|j: int| 0 <= j < keys@.len() && #[trigger] keys@[j]@ == k;
                assert(exists|j2: int| 0 <= j2 < keys@.len() && keys@[j2]@ == k);
            }
        }
    }
}

// ── Finishing and failing a run ─────────────────────────────────────────────

/// Whether a run has step records and every one is settled.
pub open spec fn all_settled(m: Map<Seq<char>, StepRecord>) -> bool {
    m.dom().len() > 0 && forall|k: Seq<char>| #[trigger] m.contains_key(k) ==> settled(m[k].state@)
}

/// `b` is what finishing does to run `a` with step records `m`: a running
/// run whose step records are all settled succeeds; any other stays as it was.
pub open spec fn completed_run(a: RunRecord, m: Map<Seq<char>, StepRecord>, b: RunRecord) -> bool {
    &&& same_run_but_state(a, b)
    &&& if a.state@ == "running"@ && all_settled(m) {
        b.state@ == "succeeded"@
    } else {
        b.state == a.state
    }
}

/// `b` is what a failing step does to run `a`: a running run fails; any
/// other stays as it was.
pub open spec fn failed_run(a: RunRecord, b: RunRecord) -> bool {
    &&& same_run_but_state(a, b)
    &&& if a.state@ == "running"@ {
        b.state@ == "failed"@
    } else {
        b.state == a.state
    }
}

/// Finish run `run` with step records `steps`: it succeeds when it is
/// running and all its step records are settled.  Answers whether it did.
pub fn complete_if_finished(run: &mut RunRecord, steps: &KeyedStore<StepRecord>) -> (done: bool)
    requires
        steps.wf(),
    ensures
        completed_run(*old(run), steps@, *final(run)),
        done == (old(run).state@ == "running"@ && all_settled(steps@)),
{
    if !is_state(&run.state, "running") {
        return false;
    }
    proof {
        steps.lemma_wf();
    }
    let n = steps.len();
    if n == 0 {
        return false;
    }
    let mut i: usize = 0;
    while i < n
        invariant
            steps.wf(),
            n == steps.entries().len(),
            i <= n,
            forall|j: int| 0 <= j < i ==> settled(#[trigger] steps.entries()[j].1.state@),
        decreases n - i,
    {
        let (_, rec) = steps.entry_at(i);
        if !crate::workflow_engine::is_settled(&rec.state) {
            proof {
                steps.lemma_wf();
                assert(steps@.contains_key(steps.entries()[i as int].0@));
            }
            return false;
        }
        i = i + 1;
    }
    proof {
        steps.lemma_wf();
        assert forall|k: Seq<char>| #[trigger] steps@.contains_key(k) implies settled(steps@[k].state@) by {
            let j = choose|j: int| 0 <= j < steps.entries().len() && #[trigger] steps.entries()[j].0@ == k;
            assert(settled(steps.entries()[j].1.state@));
        }
    }
    run.state = owned("succeeded");
    true
}

/// Fail run `run` when it is running.  Answers whether it did.
pub fn fail_if_running(run: &mut RunRecord) -> (failed: bool)
    ensures
        failed_run(*old(run), *final(run)),
        failed == (old(run).state@ == "running"@),
{
    if is_state(&run.state, "running") {
        run.state = owned("failed");
        true
    } else {
        false
    }
}

// ── Child runs ──────────────────────────────────────────────────────────────

/// What a child run in state `child_state` does to its parent step in state
/// `step_state`: `Some(true)` when the step succeeds, `Some(false)` when it
/// fails, `None` when nothing changes (the step is no longer pending or
/// running, or the child is still going).
pub open spec fn child_verdict(step_state: Seq<char>, child_state: Seq<char>) -> Option<bool> {
    if !(step_state == "pending"@ || step_state == "running"@) {
        None
    } else if child_state == "succeeded"@ {
        Some(true)
    } else if child_state == "failed"@ || child_state == "cancelled"@ {
        Some(false)
    } else {
        None
    }
}

/// The error of a step whose child run `child_id` ended in `child_state`.
pub open spec fn child_error(child_id: Seq<char>, child_state: Seq<char>) -> Seq<char> {
    "child run "@ + child_id + " "@ + child_state
}

/// `b` is step `a` settled by its child run: one more attempt, and
/// `succeeded` without output or error, or `failed` with the child's error.
pub open spec fn settled_by_child(a: StepRecord, success: bool, child_id: Seq<char>, child_state: Seq<char>, b: StepRecord) -> bool {
    &&& b.attempt == a.attempt + 1
    &&& b.scheduled_at_ms == a.scheduled_at_ms
    &&& b.started_at_ms == a.started_at_ms
    &&& if success {
        &&& b.state@ == "succeeded"@
        &&& b.output is None
        &&& b.error is None
    } else {
        &&& b.state@ == "failed"@
        &&& b.output == a.output
        &&& b.error matches Some(e) && e@ == child_error(child_id, child_state)
    }
}

/// What settling a step does to its run `a` (absent when its record cannot
/// be read): success may finish the run (when its workflow definition is
/// known), failure fails it.
pub open spec fn run_after_child(a: Option<RunRecord>, success: bool, def_known: bool, m: Map<Seq<char>, StepRecord>, b: Option<RunRecord>) -> bool {
    match (a, b) {
        (Some(x), Some(y)) => if success {
            if def_known {
                completed_run(x, m, y)
            } else {
                y == x
            }
        } else {
            failed_run(x, y)
        },
        (None, None) => true,
        _ => false,
    }
}

/// Whether `v` is one of the step states `pending` or `running`.
fn open_state(v: &String) -> (r: bool)
    ensures
        r == (v@ == "pending"@ || v@ == "running"@),
{
    is_state(v, "pending") || is_state(v, "running")
}

/// `child run <child_id> <child_state>`.
fn child_error_text(child_id: &str, child_state: &String) -> (r: String)
    ensures
        r@ == child_error(child_id@, child_state@),
{
    let mut v: Vec<char> = Vec::new();
    crate::text::push_str(&mut v, "child run ");
    crate::text::push_str(&mut v, child_id);
    crate::text::push_str(&mut v, " ");
    crate::text::push_str(&mut v, child_state.as_str());
    proof {
        assert(v@ =~= child_error(child_id@, child_state@));
    }
    crate::text::string_from_chars(v.as_slice())
}

/// What a child run in state `child_state` decides for a step in state
/// `step_state` (see `child_verdict`).
pub fn verdict_of(step_state: &String, child_state: &String) -> (r: Option<bool>)
    ensures
        r == child_verdict(step_state@, child_state@),
{
    if !open_state(step_state) {
        return None;
    }
    if is_state(child_state, "succeeded") {
        Some(true)
    } else if is_state(child_state, "failed") || is_state(child_state, "cancelled") {
        Some(false)
    } else {
        None
    }
}

/// Whether `advance_sub_step` can settle step `step_name` from a child run in
/// state `child_state` within 32-bit attempt counts.
pub fn sub_step_fits(steps: &KeyedStore<StepRecord>, step_name: &String, child_state: &String) -> (r: bool)
    requires
        steps.wf(),
    ensures
        r == (steps@.contains_key(step_name@) && child_verdict(steps@[step_name@].state@, child_state@) is Some
            ==> steps@[step_name@].attempt < u32::MAX),
{
    match steps.find(step_name) {
        None => true,
        Some(i) => {
            let sr = steps.entry_at(i).1;
            verdict_of(&sr.state, child_state).is_none() || sr.attempt < u32::MAX
        },
    }
}

/// Settle the record of step `step_name` from its child run `child_id`, now
/// in state `child_state` (see `child_verdict` and `settled_by_child`).
/// Answers the verdict, `None` when nothing changed.
fn settle_step(steps: &mut KeyedStore<StepRecord>, step_name: &String, child_id: &str, child_state: &String) -> (r: Option<bool>)
    requires
        old(steps).wf(),
        old(steps)@.contains_key(step_name@) && child_verdict(old(steps)@[step_name@].state@, child_state@) is Some
            ==> old(steps)@[step_name@].attempt < u32::MAX,
    ensures
        final(steps).wf(),
        !old(steps)@.contains_key(step_name@) ==> r is None,
        old(steps)@.contains_key(step_name@) ==> r == child_verdict(old(steps)@[step_name@].state@, child_state@),
        r is None ==> final(steps)@ == old(steps)@,
        r matches Some(success) ==> settled_by_child(old(steps)@[step_name@], success, child_id@, child_state@, final(steps)@[step_name@])
            && final(steps)@ == old(steps)@.insert(step_name@, final(steps)@[step_name@]),
{
    proof {
        reveal_strlit("pending");
        reveal_strlit("running");
        reveal_strlit("succeeded");
        reveal_strlit("failed");
        reveal_strlit("cancelled");
    }
    let idx = match steps.find(step_name) {
        Some(i) => i,
        None => {
            return None;
        },
    };
    let (key, sr) = steps.take_at(idx);
    if !open_state(&sr.state) {
        steps.restore_at(idx, key, sr);
        proof {
            assert(steps@ =~= old(steps)@);
        }
        return None;
    }
    let success = is_state(child_state, "succeeded");
    let failure = is_state(child_state, "failed") || is_state(child_state, "cancelled");
    if !success && !failure {
        steps.restore_at(idx, key, sr);
        proof {
            assert(steps@ =~= old(steps)@);
        }
        return None;
    }
    let attempt = sr.attempt + 1;
    let b = if success {
        StepRecord { state: owned("succeeded"), attempt, output: None, error: None, ..sr }
    } else {
        StepRecord { state: owned("failed"), attempt, error: Some(child_error_text(child_id, child_state)), ..sr }
    };
    let ghost bb = b;
    steps.restore_at(idx, key, b);
    proof {
        assert(settled_by_child(old(steps)@[step_name@], success, child_id@, child_state@, bb));
        assert(steps@ =~= old(steps)@.insert(step_name@, bb));
    }
    Some(success)
}

/// Settle step `step_name` of a run from its child run `child_id`, now in
/// state `child_state`: a pending or running step succeeds when the child
/// succeeded and fails when it failed or was cancelled (see
/// `child_verdict`); the run (when its record could be read) may then
/// finish or fail.  Answers the verdict, `None` when nothing changed.
pub fn advance_sub_step(
    run: &mut Option<RunRecord>,
    steps: &mut KeyedStore<StepRecord>,
    step_name: &String,
    child_id: &str,
    child_state: &String,
    def_known: bool,
) -> (r: Option<bool>)
    requires
        old(steps).wf(),
        old(steps)@.contains_key(step_name@) && child_verdict(old(steps)@[step_name@].state@, child_state@) is Some
            ==> old(steps)@[step_name@].attempt < u32::MAX,
    ensures
        final(steps).wf(),
        !old(steps)@.contains_key(step_name@) ==> r is None,
        old(steps)@.contains_key(step_name@) ==> r == child_verdict(old(steps)@[step_name@].state@, child_state@),
        r is None ==> final(steps)@ == old(steps)@ && *final(run) == *old(run),
        r matches Some(success) ==> settled_by_child(old(steps)@[step_name@], success, child_id@, child_state@, final(steps)@[step_name@])
            && final(steps)@ == old(steps)@.insert(step_name@, final(steps)@[step_name@]),
        r matches Some(success) ==> run_after_child(*old(run), success, def_known, final(steps)@, *final(run)),
{
    let r = settle_step(steps, step_name, child_id, child_state);
    match r {
        Some(success) => {
            match run {
                Some(rr) => {
                    if success {
                        if def_known {
                            complete_if_finished(rr, steps);
                        }
                    } else {
                        fail_if_running(rr);
                    }
                },
                None => {},
            }
        },
        None => {},
    }
    r
}

// ── Conditions after a step finishes ───────────────────────────────────────

/// The state of each step record, as text.
pub open spec fn state_views(m: Map<Seq<char>, StepRecord>) -> Map<Seq<char>, Seq<char>> {
    Map::new(|k: Seq<char>| m.contains_key(k), |k: Seq<char>| m[k].state@)
}

/// The output of the record of step `n` (`None` when it has none or there is
/// no record).
pub open spec fn output_of(m: Map<Seq<char>, StepRecord>, n: Seq<char>) -> Option<Seq<u8>> {
    if m.contains_key(n) {
        opt_bytes(m[n].output)
    } else {
        None
    }
}

/// Whether every dependency of `sd` has a settled record in the states `st`.
pub open spec fn deps_settled_in(st: Map<Seq<char>, Seq<char>>, sd: StepDef) -> bool {
    forall|k: int| 0 <= k < deps_of(sd).len() ==> st.contains_key(#[trigger] deps_of(sd)[k]) && settled(st[deps_of(sd)[k]])
}

/// Whether step `sd` is skipped for its condition once a step has finished:
/// its record is pending, it has dependencies and all are settled, and its
/// condition fails on the output it names.
pub open spec fn cond_skip_due(sd: StepDef, st: Map<Seq<char>, Seq<char>>, recs: Map<Seq<char>, StepRecord>) -> bool {
    &&& st.contains_key(sd.name@) && st[sd.name@] == "pending"@
    &&& deps_of(sd).len() > 0
    &&& deps_settled_in(st, sd)
    &&& sd.condition matches Some(c) && !condition_holds(output_of(recs, c.on_step@), c.equals)
}

/// The step states after the condition of each of `defs` is checked in turn
/// (see `cond_skip_due`), the outputs read from `recs`.
pub open spec fn cond_fold(defs: Seq<StepDef>, st: Map<Seq<char>, Seq<char>>, recs: Map<Seq<char>, StepRecord>) -> Map<Seq<char>, Seq<char>>
    decreases defs.len(),
{
    if defs.len() == 0 {
        st
    } else {
        let prev = cond_fold(defs.drop_last(), st, recs);
        if cond_skip_due(defs.last(), prev, recs) {
            prev.insert(defs.last().name@, "skipped"@)
        } else {
            prev
        }
    }
}

/// Set the state of the record of step `n`.
fn set_step_state(steps: &mut KeyedStore<StepRecord>, n: &String, st: String)
    requires
        old(steps).wf(),
        old(steps)@.contains_key(n@),
    ensures
        final(steps).wf(),
        final(steps)@ == old(steps)@.insert(n@, final(steps)@[n@]),
        same_but_state(old(steps)@[n@], final(steps)@[n@]),
        final(steps)@[n@].state == st,
{
    let idx = steps.find(n).unwrap();
    let (key, rec) = steps.take_at(idx);
    steps.restore_at(idx, key, StepRecord { state: st, ..rec });
    proof {
        assert(steps@ =~= old(steps)@.insert(n@, steps@[n@]));
    }
}

/// Whether every dependency of `sd` has a settled record.
fn deps_settled_rec(steps: &KeyedStore<StepRecord>, sd: &StepDef) -> (r: bool)
    requires
        steps.wf(),
    ensures
        r == deps_settled_in(state_views(steps@), *sd),
{
    let mut k: usize = 0;
    while k < sd.depends_on.len()
        invariant
            steps.wf(),
            k <= sd.depends_on@.len(),
            forall|q: int| 0 <= q < k ==> state_views(steps@).contains_key(#[trigger] deps_of(*sd)[q])
                && settled(state_views(steps@)[deps_of(*sd)[q]]),
        decreases sd.depends_on@.len() - k,
    {
        proof {
            assert(deps_of(*sd)[k as int] == sd.depends_on@[k as int]@);
        }
        match steps.get(&sd.depends_on[k]) {
            Some(rec) => {
                if !crate::workflow_engine::is_settled(&rec.state) {
                    return false;
                }
            },
            None => {
                return false;
            },
        }
        k = k + 1;
    }
    true
}

/// The output of the record of step `n`.
fn record_output(steps: &KeyedStore<StepRecord>, n: &String) -> (r: Option<Vec<u8>>)
    requires
        steps.wf(),
    ensures
        opt_bytes(r) == output_of(steps@, n@),
{
    match steps.get(n) {
        Some(rec) => crate::text::copy_opt_bytes(&rec.output),
        None => None,
    }
}

/// Check the condition of each step of `def` in turn, as a finished step may
/// have decided them: a pending step with settled dependencies whose
/// condition fails on the output it names is skipped (see `cond_fold`).
pub fn skip_failed_conditions(def: &WorkflowDef, steps: &mut KeyedStore<StepRecord>)
    requires
        old(steps).wf(),
    ensures
        final(steps).wf(),
        only_states_change(old(steps)@, final(steps)@),
        state_views(final(steps)@) == cond_fold(def.steps@, state_views(old(steps)@), old(steps)@),
{
    proof {
        reveal_strlit("pending");
        reveal_strlit("skipped");
    }
    let ghost m0 = steps@;
    let ghost defs = def.steps@;
    let mut i: usize = 0;
    proof {
        assert(defs.take(0) =~= Seq::<StepDef>::empty());
        assert(state_views(steps@) =~= cond_fold(defs.take(0), state_views(m0), m0));
    }
    while i < def.steps.len()
        invariant
            steps.wf(),
            defs == def.steps@,
            i <= defs.len(),
            only_states_change(m0, steps@),
            state_views(steps@) == cond_fold(defs.take(i as int), state_views(m0), m0),
        decreases defs.len() - i,
    {
        let sd = &def.steps[i];
        let ghost prev = state_views(steps@);
        proof {
            assert(defs.take(i + 1).drop_last() =~= defs.take(i as int));
            assert(defs.take(i + 1).last() == *sd);
            assert forall|n: Seq<char>| true implies output_of(steps@, n) == output_of(m0, n) by {
                if m0.contains_key(n) {
                    assert(same_but_state(m0[n], steps@[n]));
                }
            }
        }
        let due = match steps.get(&sd.name) {
            Some(rec) => {
                if !is_state(&rec.state, "pending") || sd.depends_on.len() == 0 {
                    false
                } else if !deps_settled_rec(steps, sd) {
                    false
                } else {
                    match &sd.condition {
                        Some(c) => {
                            let out = record_output(steps, &c.on_step);
                            !condition_met(&out, &c.equals)
                        },
                        None => false,
                    }
                }
            },
            None => false,
        };
        proof {
            assert(deps_of(*sd).len() == sd.depends_on@.len());
            assert(due == cond_skip_due(*sd, prev, m0));
        }
        if due {
            set_step_state(steps, &sd.name, owned("skipped"));
            proof {
                assert(state_views(steps@) =~= prev.insert(sd.name@, "skipped"@));
                assert(steps@.dom() =~= m0.dom());
            }
        }
        i = i + 1;
    }
    proof {
        assert(defs.take(defs.len() as int) =~= defs);
    }
}

// ── A step reported done ────────────────────────────────────────────────────

/// `b` is step `a` reported done with `output`: succeeded, one more attempt,
/// the output kept.
pub open spec fn done_step(a: StepRecord, output: Option<Seq<u8>>, b: StepRecord) -> bool {
    &&& b.state@ == "succeeded"@
    &&& b.attempt == a.attempt + 1
    &&& opt_bytes(b.output) == output
    &&& b.scheduled_at_ms == a.scheduled_at_ms
    &&& b.started_at_ms == a.started_at_ms
    &&& b.error == a.error
}

/// The step records of a run go from `m0` to `m3` when step `n` is reported
/// done with `output` in a run of a workflow with steps `defs`: the step
/// succeeds (`m1`), the conditions it decides are checked (`m2`), and skips
/// spread.
pub open spec fn finish_trace(
    defs: Seq<StepDef>,
    m0: Map<Seq<char>, StepRecord>,
    n: Seq<char>,
    output: Option<Seq<u8>>,
    m1: Map<Seq<char>, StepRecord>,
    m2: Map<Seq<char>, StepRecord>,
    m3: Map<Seq<char>, StepRecord>,
) -> bool {
    &&& m1 == m0.insert(n, m1[n])
    &&& done_step(m0[n], output, m1[n])
    &&& only_states_change(m1, m2)
    &&& state_views(m2) == cond_fold(defs, state_views(m1), m1)
    &&& skips_spread(defs, m2, m3)
}

/// Record that step `step_name` of a run is done with `output`.  When the
/// run's record and its workflow definition `def` could be read, the
/// conditions the step decides are checked, skips spread, and the run
/// finishes if all its steps are settled (see `finish_trace` and
/// `completed_run`).  Answers whether the step has a record.
pub fn step_done(
    def: Option<&WorkflowDef>,
    run: &mut Option<RunRecord>,
    steps: &mut KeyedStore<StepRecord>,
    step_name: &String,
    output: Option<Vec<u8>>,
) -> (found: bool)
    requires
        old(steps).wf(),
        old(steps)@.contains_key(step_name@) ==> old(steps)@[step_name@].attempt < u32::MAX,
    ensures
        final(steps).wf(),
        found == old(steps)@.contains_key(step_name@),
        !found ==> final(steps)@ == old(steps)@ && *final(run) == *old(run),
        found && def is None ==> final(steps)@ == old(steps)@.insert(step_name@, final(steps)@[step_name@])
            && done_step(old(steps)@[step_name@], opt_bytes(output), final(steps)@[step_name@])
            && *final(run) == *old(run),
        found && def is Some ==> exists|m1: Map<Seq<char>, StepRecord>, m2: Map<Seq<char>, StepRecord>|
            #[trigger] finish_trace(def->0.steps@, old(steps)@, step_name@, opt_bytes(output), m1, m2, final(steps)@),
        found && def is Some ==> match (*old(run), *final(run)) {
            (Some(x), Some(y)) => completed_run(x, final(steps)@, y),
            (None, None) => true,
            _ => false,
        },
{
    let idx = match steps.find(step_name) {
        Some(i) => i,
        None => {
            return false;
        },
    };
    let ghost out = opt_bytes(output);
    let (key, sr) = steps.take_at(idx);
    let attempt = sr.attempt + 1;
    let done = StepRecord { state: owned("succeeded"), attempt, output, ..sr };
    let ghost dr = done;
    steps.restore_at(idx, key, done);
    let ghost m1 = steps@;
    proof {
        assert(m1 =~= old(steps)@.insert(step_name@, dr));
        assert(done_step(old(steps)@[step_name@], out, dr));
    }
    match def {
        Some(d) => {
            skip_failed_conditions(d, steps);
            let ghost m2 = steps@;
            spread_skips(d, steps);
            match run {
                Some(rr) => {
                    complete_if_finished(rr, steps);
                },
                None => {},
            }
            proof {
                assert(finish_trace(d.steps@, old(steps)@, step_name@, out, m1, m2, steps@));
            }
        },
        None => {},
    }
    true
}

/// What `serde_json::Value::as_array` finds in `v`: its items when it is an array.
pub uninterp spec fn json_items(v: serde_json::Value) -> Option<Seq<serde_json::Value>>;

/// What `serde_json::Value::as_u64` finds in `v`: its value when it is a
/// number that fits in 64 unsigned bits.
pub uninterp spec fn json_u64(v: serde_json::Value) -> Option<u64>;

/// What `serde_json::to_vec` writes for `v`.
pub uninterp spec fn json_bytes(v: serde_json::Value) -> Seq<u8>;

/// Wraps `serde_json::Value::as_array`, with the items copied out.
#[verifier::external_body]
fn array_items(v: &serde_json::Value) -> (r: Option<Vec<serde_json::Value>>)
    ensures
        match r {
            Some(items) => json_items(*v) == Some(items@),
            None => json_items(*v) is None,
        },
{
    v.as_array().cloned()
}

/// Wraps `serde_json::Value::as_u64`.
#[verifier::external_body]
fn value_u64(v: &serde_json::Value) -> (r: Option<u64>)
    ensures
        r == json_u64(*v),
{
    v.as_u64()
}

/// Wraps `serde_json::to_vec` on a `serde_json::Value` (which cannot fail to
/// serialise).
#[verifier::external_body]
fn value_bytes(v: &serde_json::Value) -> (r: Vec<u8>)
    ensures
        r@ == json_bytes(*v),
{
    serde_json::to_vec(v).unwrap_or_default()
}

/// Whether each of `items` is a number from 0 to 255.
pub open spec fn all_bytes(items: Seq<serde_json::Value>) -> bool {
    forall|i: int| 0 <= i < items.len() ==> (#[trigger] json_u64(items[i]) matches Some(n) && n <= 255)
}

/// The bytes a step's reported output `v` is kept as: an array of numbers
/// from 0 to 255 is kept as those bytes; anything else as its JSON text.
pub open spec fn output_bytes(v: serde_json::Value) -> Seq<u8> {
    match json_items(v) {
        Some(items) => if all_bytes(items) {
            items.map_values(|x: serde_json::Value| json_u64(x)->0 as u8)
        } else {
            json_bytes(v)
        },
        None => json_bytes(v),
    }
}

/// The bytes kept for the reported output `v` (see `output_bytes`).
pub fn reported_output(v: &serde_json::Value) -> (r: Vec<u8>)
    ensures
        r@ == output_bytes(*v),
{
    match array_items(v) {
        Some(items) => {
            let mut out: Vec<u8> = Vec::new();
            let mut i: usize = 0;
            while i < items.len()
                invariant
                    json_items(*v) == Some(items@),
                    i <= items@.len(),
                    out@.len() == i,
                    all_bytes(items@.take(i as int)),
                    forall|q: int| 0 <= q < i ==> out@[q] == #[trigger] json_u64(items@[q])->0 as u8,
                decreases items@.len() - i,
            {
                match value_u64(&items[i]) {
                    Some(n) => {
                        if n > 255 {
                            proof {
                                assert(!(json_u64(items@[i as int]) matches Some(m) && m <= 255));
                                assert(!all_bytes(items@));
                            }
                            return value_bytes(v);
                        }
                        out.push(n as u8);
                    },
                    None => {
                        proof {
                            assert(json_u64(items@[i as int]) is None);
                            assert(!all_bytes(items@));
                        }
                        return value_bytes(v);
                    },
                }
                proof {
                    assert forall|q: int| 0 <= q < i + 1 implies (#[trigger] json_u64(items@.take(i + 1)[q]) matches Some(m) && m <= 255) by {
                        if q < i {
                            assert(items@.take(i + 1)[q] == items@.take(i as int)[q]);
                        }
                    }
                }
                i = i + 1;
            }
            proof {
                assert(items@.take(items@.len() as int) =~= items@);
                assert(out@ =~= items@.map_values(|x: serde_json::Value| json_u64(x)->0 as u8));
            }
            out
        },
        None => value_bytes(v),
    }
}

// ── A step reported failed ──────────────────────────────────────────────────

/// The retry limits of step `n`: the `max_attempts` and `base_delay_ms` of
/// its first definition, or 1 and 500 ms when there is none.
pub open spec fn limits_of(defs: Seq<StepDef>, n: Seq<char>) -> (u32, u64) {
    match first_named(defs, n) {
        Some(j) => (defs[j].max_attempts, defs[j].base_delay_ms),
        None => (1u32, 500u64),
    }
}

/// Whether a failure of step `n` with record `sr` at `now` stays within
/// 64-bit arithmetic (the attempt count, the delay and the time it gives).
pub open spec fn failure_in_range(defs: Seq<StepDef>, n: Seq<char>, sr: StepRecord, now: u64) -> bool {
    &&& sr.attempt < u32::MAX
    &&& retry_in_range((sr.attempt + 1) as u32, limits_of(defs, n).0, limits_of(defs, n).1, now)
}

/// What `failure_limits` answers is `limits_of`.
proof fn lemma_limits(def: WorkflowDef, name: Seq<char>, r: (u32, u64))
    requires
        (exists|i: int| 0 <= i < def.steps@.len() && def.steps@[i].name@ == name) ==> exists|i: int|
            0 <= i < def.steps@.len() && def.steps@[i].name@ == name
            && (forall|j: int| 0 <= j < i ==> #[trigger] def.steps@[j].name@ != name)
            && r == (def.steps@[i].max_attempts, def.steps@[i].base_delay_ms),
        !(exists|i: int| 0 <= i < def.steps@.len() && def.steps@[i].name@ == name) ==> r == (1u32, 500u64),
    ensures
        r == limits_of(def.steps@, name),
{
    lemma_first_named_from(def.steps@, name, 0);
    if first_named(def.steps@, name) is Some {
        let j = first_named(def.steps@, name)->0;
        assert(exists|i: int| 0 <= i < def.steps@.len() && def.steps@[i].name@ == name) by {
            assert(def.steps@[j].name@ == name);
        }
        let i = choose|i: int| 0 <= i < def.steps@.len() && def.steps@[i].name@ == name
            && (forall|q: int| 0 <= q < i ==> #[trigger] def.steps@[q].name@ != name)
            && r == (def.steps@[i].max_attempts, def.steps@[i].base_delay_ms);
        assert(i == j) by {
            if i < j {
                assert(def.steps@[i].name@ != name);
            } else if j < i {
                assert(def.steps@[j].name@ != name);
            }
        }
    } else {
        assert(!(exists|i: int| 0 <= i < def.steps@.len() && def.steps@[i].name@ == name)) by {
            if exists|i: int| 0 <= i < def.steps@.len() && def.steps@[i].name@ == name {
                let i = choose|i: int| 0 <= i < def.steps@.len() && def.steps@[i].name@ == name;
                assert(def.steps@[i].name@ != name);
            }
        }
    }
    assert(r == limits_of(def.steps@, name));
}

/// Whether `step_failure` can record a failure of `step_name` at `now`
/// within 64-bit arithmetic.
pub fn failure_fits(def: &WorkflowDef, steps: &KeyedStore<StepRecord>, step_name: &String, now: u64) -> (r: bool)
    requires
        steps.wf(),
    ensures
        r == (steps@.contains_key(step_name@) ==> failure_in_range(def.steps@, step_name@, steps@[step_name@], now)),
{
    let idx = match steps.find(step_name) {
        Some(i) => i,
        None => return true,
    };
    let attempt = steps.entry_at(idx).1.attempt;
    if attempt == u32::MAX {
        return false;
    }
    let (max_attempts, base_delay) = failure_limits(def, step_name.as_str());
    proof {
        lemma_limits(*def, step_name@, (max_attempts, base_delay));
    }
    retry_fits(attempt + 1, max_attempts, base_delay, now)
}

/// Record that step `step_name` of run `run` of workflow `def` failed at
/// `now` with `error`: the step's attempts are counted against its limits
/// (see `failed_step`); when they are used up the run fails, whatever its
/// state.  Answers whether the step has a record.
pub fn step_failure(
    def: &WorkflowDef,
    run: &mut RunRecord,
    steps: &mut KeyedStore<StepRecord>,
    step_name: &String,
    error: Option<String>,
    now: u64,
) -> (found: bool)
    requires
        old(steps).wf(),
        old(steps)@.contains_key(step_name@) ==> failure_in_range(def.steps@, step_name@, old(steps)@[step_name@], now),
    ensures
        final(steps).wf(),
        found == old(steps)@.contains_key(step_name@),
        !found ==> final(steps)@ == old(steps)@ && *final(run) == *old(run),
        found ==> final(steps)@ == old(steps)@.insert(step_name@, final(steps)@[step_name@]),
        found ==> failed_step(old(steps)@[step_name@], limits_of(def.steps@, step_name@).0,
            limits_of(def.steps@, step_name@).1, now, error, (final(steps)@[step_name@], final(steps)@[step_name@].attempt >= limits_of(def.steps@, step_name@).0)),
        found && final(steps)@[step_name@].attempt >= limits_of(def.steps@, step_name@).0
            ==> same_run_but_state(*old(run), *final(run)) && final(run).state@ == "failed"@,
        found && final(steps)@[step_name@].attempt < limits_of(def.steps@, step_name@).0 ==> *final(run) == *old(run),
{
    let idx = match steps.find(step_name) {
        Some(i) => i,
        None => {
            return false;
        },
    };
    let (max_attempts, base_delay) = failure_limits(def, step_name.as_str());
    proof {
        lemma_limits(*def, step_name@, (max_attempts, base_delay));
    }
    let (key, sr) = steps.take_at(idx);
    let (updated, fails_run) = step_failed(sr, max_attempts, base_delay, now, error);
    let ghost ur = updated;
    steps.restore_at(idx, key, updated);
    proof {
        assert(steps@ =~= old(steps)@.insert(step_name@, ur));
    }
    if fails_run {
        run.state = owned("failed");
    }
    true
}

// ── Time limits ─────────────────────────────────────────────────────────────

/// The position of the first definition in `defs` named `n` under which the
/// record `sr` has run past its time limit at `now`.
pub open spec fn first_expiring(defs: Seq<StepDef>, n: Seq<char>, sr: StepRecord, now: u64) -> Option<int>
    decreases defs.len(),
{
    if defs.len() == 0 {
        None
    } else {
        match first_expiring(defs.drop_last(), n, sr, now) {
            Some(j) => Some(j),
            None => if defs.last().name@ == n && timed_out(sr, defs.last(), now) {
                Some(defs.len() - 1)
            } else {
                None
            },
        }
    }
}

proof fn lemma_first_expiring(defs: Seq<StepDef>, n: Seq<char>, sr: StepRecord, now: u64)
    ensures
        first_expiring(defs, n, sr, now) matches Some(j) ==> 0 <= j < defs.len() && defs[j].name@ == n
            && timed_out(sr, defs[j], now),
    decreases defs.len(),
{
    if defs.len() > 0 {
        lemma_first_expiring(defs.drop_last(), n, sr, now);
    }
}

proof fn lemma_first_expiring_prefix(defs: Seq<StepDef>, n: Seq<char>, sr: StepRecord, now: u64, i: int)
    requires
        0 <= i <= defs.len(),
        first_expiring(defs.take(i), n, sr, now) is Some,
    ensures
        first_expiring(defs, n, sr, now) == first_expiring(defs.take(i), n, sr, now),
    decreases defs.len() - i,
{
    if i < defs.len() {
        assert(defs.take(i + 1).drop_last() =~= defs.take(i));
        lemma_first_expiring_prefix(defs, n, sr, now, i + 1);
    } else {
        assert(defs.take(i) =~= defs);
    }
}

/// Whether the time-outs of `defs` at `now` stay within 64-bit arithmetic
/// for the step records `m`.
pub open spec fn expiry_in_range(defs: Seq<StepDef>, m: Map<Seq<char>, StepRecord>, now: u64) -> bool {
    forall|k: Seq<char>| #[trigger] m.contains_key(k) ==> (first_expiring(defs, k, m[k], now) matches Some(j)
        ==> m[k].attempt < u32::MAX && retry_in_range((m[k].attempt + 1) as u32, defs[j].max_attempts, defs[j].base_delay_ms, now))
}

/// Whether the time-out, if any, of the record `sr` of step `n` stays within
/// 64-bit arithmetic.
pub open spec fn expiry_ok(defs: Seq<StepDef>, n: Seq<char>, sr: StepRecord, now: u64) -> bool {
    first_expiring(defs, n, sr, now) matches Some(j) ==> sr.attempt < u32::MAX
        && retry_in_range((sr.attempt + 1) as u32, defs[j].max_attempts, defs[j].base_delay_ms, now)
}

/// Whether the time-out, if any, of the record `sr` of step `n` stays within
/// 64-bit arithmetic.
fn record_expiry_fits(def: &WorkflowDef, n: &String, sr: &StepRecord, now: u64) -> (r: bool)
    ensures
        r == expiry_ok(def.steps@, n@, *sr, now),
{
    let ghost defs = def.steps@;
    let mut j: usize = 0;
    proof {
        assert(defs.take(0) =~= Seq::<StepDef>::empty());
    }
    while j < def.steps.len()
        invariant
            defs == def.steps@,
            j <= defs.len(),
            first_expiring(defs.take(j as int), n@, *sr, now) is None,
        decreases defs.len() - j,
    {
        let sd = &def.steps[j];
        proof {
            assert(defs.take(j + 1).drop_last() =~= defs.take(j as int));
            assert(defs.take(j + 1).last() == *sd);
        }
        if sd.name == *n && is_timed_out(sr, sd, now) {
            proof {
                assert(first_expiring(defs.take(j + 1), n@, *sr, now) == Some(j as int));
                lemma_first_expiring_prefix(defs, n@, *sr, now, j + 1);
            }
            if sr.attempt == u32::MAX {
                return false;
            }
            return retry_fits(sr.attempt + 1, sd.max_attempts, sd.base_delay_ms, now);
        }
        j = j + 1;
    }
    proof {
        assert(defs.take(defs.len() as int) =~= defs);
    }
    true
}

/// Whether `expire_steps` and `ready_steps` can apply the time limits of
/// `def` at `now` to the step records `steps` within 64-bit arithmetic.
pub fn expiry_fits(def: &WorkflowDef, steps: &KeyedStore<StepRecord>, now: u64) -> (r: bool)
    requires
        steps.wf(),
    ensures
        r == expiry_in_range(def.steps@, steps@, now),
{
    let mut i: usize = 0;
    while i < steps.len()
        invariant
            steps.wf(),
            i <= steps.entries().len(),
            forall|q: int| 0 <= q < i ==> expiry_ok(def.steps@, #[trigger] steps.entries()[q].0@, steps.entries()[q].1, now),
        decreases steps.entries().len() - i,
    {
        let (n, sr) = steps.entry_at(i);
        if !record_expiry_fits(def, n, sr, now) {
            proof {
                crate::store::lemma_map_of_index(steps.entries(), i as int);
                assert(steps@.contains_key(n@));
            }
            return false;
        }
        i = i + 1;
    }
    proof {
        assert forall|k: Seq<char>| #[trigger] steps@.contains_key(k) implies expiry_ok(def.steps@, k, steps@[k], now) by {
            let q = choose|q: int| 0 <= q < steps.entries().len() && #[trigger] steps.entries()[q].0@ == k;
            crate::store::lemma_map_of_index(steps.entries(), q);
        }
    }
    true
}

/// `b` is what the time limits of `defs` at `now` make of the step records `a`.
pub open spec fn expired(defs: Seq<StepDef>, a: Map<Seq<char>, StepRecord>, now: u64, b: Map<Seq<char>, StepRecord>) -> bool {
    &&& b.dom() == a.dom()
    &&& forall|k: Seq<char>| #[trigger] a.contains_key(k) ==> match first_expiring(defs, k, a[k], now) {
        Some(j) => timed_out_step(a[k], defs[j], now, (b[k], b[k].attempt >= defs[j].max_attempts)),
        None => b[k] == a[k],
    }
}

/// Whether a time-out of `defs` at `now` uses up the attempts of one of the
/// step records `a`.
pub open spec fn expiry_fails_run(defs: Seq<StepDef>, a: Map<Seq<char>, StepRecord>, now: u64) -> bool {
    exists|k: Seq<char>| #[trigger] a.contains_key(k) && (first_expiring(defs, k, a[k], now) matches Some(j)
        && a[k].attempt + 1 >= defs[j].max_attempts)
}

/// Whether step record `sr` has run past the time limit of `sd` at `now`.
fn is_timed_out(sr: &StepRecord, sd: &StepDef, now: u64) -> (r: bool)
    ensures
        r == timed_out(*sr, *sd, now),
{
    match sd.timeout_ms {
        Some(t) => (is_state(&sr.state, "running") || is_state(&sr.state, "pending")) && match sr.started_at_ms {
            Some(s) => now.saturating_sub(s) > t,
            None => false,
        },
        None => false,
    }
}

/// Apply the time limits of the steps of `def` at `now` to the step records
/// of run `run`: each step that has run too long is failed or retried (see
/// `timed_out_step`), and the run fails when one has used up its attempts.
pub fn expire_steps(def: &WorkflowDef, run: &mut RunRecord, steps: &mut KeyedStore<StepRecord>, now: u64)
    requires
        old(steps).wf(),
        expiry_in_range(def.steps@, old(steps)@, now),
    ensures
        final(steps).wf(),
        expired(def.steps@, old(steps)@, now, final(steps)@),
        expiry_fails_run(def.steps@, old(steps)@, now) ==> failed_run(*old(run), *final(run)),
        !expiry_fails_run(def.steps@, old(steps)@, now) ==> *final(run) == *old(run),
{
    let ghost m0 = steps@;
    let ghost r0 = *run;
    let ghost defs = def.steps@;
    let mut i: usize = 0;
    proof {
        assert(defs.take(0) =~= Seq::<StepDef>::empty());
        assert(steps@.dom() =~= m0.dom());
    }
    while i < def.steps.len()
        invariant
            steps.wf(),
            defs == def.steps@,
            i <= defs.len(),
            expiry_in_range(defs, m0, now),
            expired(defs.take(i as int), m0, now, steps@),
            expiry_fails_run(defs.take(i as int), m0, now) ==> failed_run(r0, *run),
            !expiry_fails_run(defs.take(i as int), m0, now) ==> *run == r0,
        decreases defs.len() - i,
    {
        let sd = &def.steps[i];
        let ghost prev = steps@;
        let ghost t = defs.take(i as int);
        let ghost t1 = defs.take(i + 1);
        proof {
            assert(t1.drop_last() =~= t);
            assert(t1.last() == *sd);
            assert forall|k: Seq<char>| #[trigger] m0.contains_key(k) && k != sd.name@ implies
                first_expiring(t1, k, m0[k], now) == first_expiring(t, k, m0[k], now) by {}
        }
        let mut fails = false;
        match steps.find(&sd.name) {
            Some(idx) => {
                let (key, rec) = steps.take_at(idx);
                if is_timed_out(&rec, sd, now) {
                    proof {
                        let n = sd.name@;
                        if first_expiring(t, n, m0[n], now) is Some {
                            lemma_first_expiring(t, n, m0[n], now);
                            assert(prev[n].started_at_ms is None);
                            assert(false);
                        }
                        assert(first_expiring(t1, n, m0[n], now) == Some(i as int));
                        lemma_first_expiring_prefix(defs, n, m0[n], now, i + 1);
                    }
                    let (updated, f) = step_timeout(rec, sd, now).unwrap();
                    fails = f;
                    steps.restore_at(idx, key, updated);
                } else {
                    proof {
                        let n = sd.name@;
                        if first_expiring(t, n, m0[n], now) is None {
                            assert(prev[n] == m0[n]);
                        }
                    }
                    steps.restore_at(idx, key, rec);
                }
            },
            None => {},
        }
        proof {
            let n = sd.name@;
            assert(steps@.dom() =~= m0.dom());
            assert forall|k: Seq<char>| #[trigger] m0.contains_key(k) implies match first_expiring(t1, k, m0[k], now) {
                Some(j) => timed_out_step(m0[k], defs.take(i + 1)[j], now, (steps@[k], steps@[k].attempt >= defs.take(i + 1)[j].max_attempts)),
                None => steps@[k] == m0[k],
            } by {
                lemma_first_expiring(t, k, m0[k], now);
                lemma_first_expiring(t1, k, m0[k], now);
                if k != n {
                    assert(steps@[k] == prev[k]);
                }
                if let Some(j) = first_expiring(t, k, m0[k], now) {
                    assert(t1[j] == t[j]);
                }
            }
            assert(expiry_fails_run(t1, m0, now) == (expiry_fails_run(t, m0, now) || fails)) by {
                if expiry_fails_run(t1, m0, now) && !fails {
                    let k = choose|k: Seq<char>| #[trigger] m0.contains_key(k) && (first_expiring(t1, k, m0[k], now) matches Some(j)
                        && m0[k].attempt + 1 >= t1[j].max_attempts);
                    lemma_first_expiring(t, k, m0[k], now);
                    lemma_first_expiring(t1, k, m0[k], now);
                    let j = first_expiring(t1, k, m0[k], now)->0;
                    if first_expiring(t, k, m0[k], now) is Some {
                        assert(t1[j] == t[j]);
                    }
                }
                if expiry_fails_run(t, m0, now) {
                    let k = choose|k: Seq<char>| #[trigger] m0.contains_key(k) && (first_expiring(t, k, m0[k], now) matches Some(j)
                        && m0[k].attempt + 1 >= t[j].max_attempts);
                    lemma_first_expiring(t, k, m0[k], now);
                    let j = first_expiring(t, k, m0[k], now)->0;
                    assert(t1[j] == t[j]);
                    assert(m0.contains_key(k) && first_expiring(t1, k, m0[k], now) == Some(j));
                }
                if fails {
                    assert(m0.contains_key(n) && first_expiring(t1, n, m0[n], now) == Some(i as int));
                }
            }
        }
        if fails {
            fail_if_running(run);
        }
        i = i + 1;
    }
    proof {
        assert(defs.take(defs.len() as int) =~= defs);
    }
}

// ── Ready steps ─────────────────────────────────────────────────────────────

/// A step handed out as ready to run: its name, state and attempt count, and
/// the child workflow it delegates to.
#[derive(Debug)]
pub struct ReadyStep {
    pub name: String,
    pub state: String,
    pub attempt: u32,
    pub sub_workflow: Option<String>,
}

/// Whether the condition of `sd` fails on the output of the step it names.
pub open spec fn cond_fails(sd: StepDef, m: Map<Seq<char>, StepRecord>) -> bool {
    sd.condition matches Some(c) && !condition_holds(output_of(m, c.on_step@), c.equals)
}

/// `b` is step `a` marked started at `now`.
pub open spec fn started_now(a: StepRecord, now: u64, b: StepRecord) -> bool {
    &&& b.state == a.state
    &&& b.attempt == a.attempt
    &&& b.scheduled_at_ms == a.scheduled_at_ms
    &&& b.started_at_ms == Some(now)
    &&& b.output == a.output
    &&& b.error == a.error
}

/// What looking at step `sd` (of a workflow with steps `defs`) at `now` does
/// to a run (`run0` with step records `m0`, giving `run1` and `m1`), with
/// `ch` the linked child runs by step name (their id and state), and the
/// step it hands out, if any:
/// - a step without a record is passed over;
/// - a running step with a child run is settled by it (see `child_verdict`),
///   which may finish or fail the run; other steps that are not pending are
///   passed over;
/// - a pending step waits for its retry time and for its dependencies to be
///   settled;
/// - a step whose condition fails is skipped, skips spread, and the run may finish;
/// - any other pending step is handed out, marked started at `now` if it was not.
pub open spec fn ready_step(
    defs: Seq<StepDef>,
    sd: StepDef,
    ch: Map<Seq<char>, (String, String)>,
    now: u64,
    run0: RunRecord,
    m0: Map<Seq<char>, StepRecord>,
    run1: RunRecord,
    m1: Map<Seq<char>, StepRecord>,
    o: Option<ReadyStep>,
) -> bool {
    let n = sd.name@;
    if !m0.contains_key(n) {
        run1 == run0 && m1 == m0 && o is None
    } else {
        let sr = m0[n];
        if sr.state@ != "pending"@ {
            &&& o is None
            &&& if sr.state@ == "running"@ && ch.contains_key(n) && child_verdict(sr.state@, ch[n].1@) is Some {
                let success = child_verdict(sr.state@, ch[n].1@)->0;
                &&& m1 == m0.insert(n, m1[n])
                &&& settled_by_child(sr, success, ch[n].0@, ch[n].1@, m1[n])
                &&& if success {
                    completed_run(run0, m1, run1)
                } else {
                    failed_run(run0, run1)
                }
            } else {
                run1 == run0 && m1 == m0
            }
        } else if sr.scheduled_at_ms > now || !deps_settled_in(state_views(m0), sd) {
            run1 == run0 && m1 == m0 && o is None
        } else if cond_fails(sd, m0) {
            &&& o is None
            &&& exists|x: StepRecord| #[trigger] same_but_state(sr, x) && x.state@ == "skipped"@
                && skips_spread(defs, m0.insert(n, x), m1)
            &&& completed_run(run0, m1, run1)
        } else {
            &&& run1 == run0
            &&& if sr.started_at_ms is None {
                m1 == m0.insert(n, m1[n]) && started_now(sr, now, m1[n])
            } else {
                m1 == m0
            }
            &&& o matches Some(rs) && rs.name == sd.name && rs.state == sr.state && rs.attempt == sr.attempt
                && rs.sub_workflow == sd.sub_workflow
        }
    }
}

/// Whether no record is running, except as it was in `m0`.
pub open spec fn running_as_before(m0: Map<Seq<char>, StepRecord>, m: Map<Seq<char>, StepRecord>) -> bool {
    forall|k: Seq<char>| #[trigger] m.contains_key(k) && m[k].state@ == "running"@ ==> m0.contains_key(k) && m[k] == m0[k]
}

/// Whether settling the running steps of `m` from the child runs `ch` stays
/// within 32-bit attempt counts.
pub open spec fn children_in_range(m: Map<Seq<char>, StepRecord>, ch: Map<Seq<char>, (String, String)>) -> bool {
    forall|k: Seq<char>| #[trigger] m.contains_key(k) && m[k].state@ == "running"@ && ch.contains_key(k)
        && child_verdict(m[k].state@, ch[k].1@) is Some ==> m[k].attempt < u32::MAX
}

/// Whether `ready_steps` can settle the steps that wait on the child runs
/// `children` within 32-bit attempt counts.
pub fn children_fit(steps: &KeyedStore<StepRecord>, children: &KeyedStore<(String, String)>) -> (r: bool)
    requires
        steps.wf(),
        children.wf(),
    ensures
        r == children_in_range(steps@, children@),
{
    proof {
        reveal_strlit("running");
    }
    let mut i: usize = 0;
    while i < steps.len()
        invariant
            steps.wf(),
            children.wf(),
            i <= steps.entries().len(),
            forall|q: int| 0 <= q < i ==> child_ok(#[trigger] steps.entries()[q].0@, steps.entries()[q].1, children@),
        decreases steps.entries().len() - i,
    {
        let (n, sr) = steps.entry_at(i);
        let ok = if !is_state(&sr.state, "running") {
            true
        } else {
            match children.find(n) {
                None => true,
                Some(c) => verdict_of(&sr.state, &children.entry_at(c).1.1).is_none() || sr.attempt < u32::MAX,
            }
        };
        if !ok {
            proof {
                crate::store::lemma_map_of_index(steps.entries(), i as int);
            }
            return false;
        }
        i = i + 1;
    }
    proof {
        assert forall|k: Seq<char>| #[trigger] steps@.contains_key(k) && steps@[k].state@ == "running"@ && children@.contains_key(k)
            && child_verdict(steps@[k].state@, children@[k].1@) is Some implies steps@[k].attempt < u32::MAX by {
            let q = choose|q: int| 0 <= q < steps.entries().len() && #[trigger] steps.entries()[q].0@ == k;
            crate::store::lemma_map_of_index(steps.entries(), q);
            assert(child_ok(steps.entries()[q].0@, steps.entries()[q].1, children@));
        }
    }
    true
}

/// Whether the record `sr` of step `k` keeps its attempt count within 32 bits
/// when a child run in `ch` settles it.
pub open spec fn child_ok(k: Seq<char>, sr: StepRecord, ch: Map<Seq<char>, (String, String)>) -> bool {
    sr.state@ == "running"@ && ch.contains_key(k) && child_verdict(sr.state@, ch[k].1@) is Some ==> sr.attempt < u32::MAX
}

/// The state `running` differs from the states a step is moved to.
proof fn lemma_running_differs()
    ensures
        "skipped"@ != "running"@,
        "succeeded"@ != "running"@,
        "failed"@ != "running"@,
        "pending"@ != "running"@,
{
    reveal_strlit("skipped");
    reveal_strlit("succeeded");
    reveal_strlit("failed");
    reveal_strlit("pending");
    reveal_strlit("running");
    assert("skipped"@[0] != "running"@[0]);
    assert("pending"@[0] != "running"@[0]);
}

/// Look at step `sd` (a step of `def`) at `now`: see `ready_step`.
fn ready_one(
    def: &WorkflowDef,
    sd: &StepDef,
    run: &mut RunRecord,
    steps: &mut KeyedStore<StepRecord>,
    children: &KeyedStore<(String, String)>,
    now: u64,
    Ghost(m_orig): Ghost<Map<Seq<char>, StepRecord>>,
) -> (o: Option<ReadyStep>)
    requires
        old(steps).wf(),
        children.wf(),
        running_as_before(m_orig, old(steps)@),
        children_in_range(m_orig, children@),
    ensures
        final(steps).wf(),
        running_as_before(m_orig, final(steps)@),
        ready_step(def.steps@, *sd, children@, now, *old(run), old(steps)@, *final(run), final(steps)@, o),
{
    proof {
        reveal_strlit("pending");
        reveal_strlit("running");
        reveal_strlit("skipped");
        reveal_strlit("succeeded");
        reveal_strlit("failed");
    }
    let ghost m0 = steps@;
    let ghost n = sd.name@;
    proof {
        lemma_running_differs();
    }
    let idx = match steps.find(&sd.name) {
        Some(i) => i,
        None => {
            return None;
        },
    };
    let (_, rec) = steps.entry_at(idx);
    if !is_state(&rec.state, "pending") {
        if is_state(&rec.state, "running") {
            match children.get(&sd.name) {
                Some(ch) => {
                    proof {
                        assert(m_orig.contains_key(n) && m0[n] == m_orig[n]);
                    }
                    let v = settle_step(steps, &sd.name, ch.0.as_str(), &ch.1);
                    match v {
                        Some(success) => {
                            if success {
                                complete_if_finished(run, steps);
                            } else {
                                fail_if_running(run);
                            }
                        },
                        None => {},
                    }
                    proof {
                        assert forall|k: Seq<char>| #[trigger] steps@.contains_key(k) && steps@[k].state@ == "running"@
                            implies m_orig.contains_key(k) && steps@[k] == m_orig[k] by {
                            if k != n {
                                assert(steps@[k] == m0[k]);
                            }
                        }
                    }
                },
                None => {},
            }
        }
        return None;
    }
    if rec.scheduled_at_ms > now || !deps_settled_rec(steps, sd) {
        return None;
    }
    let fails = match &sd.condition {
        Some(c) => {
            let out = record_output(steps, &c.on_step);
            !condition_met(&out, &c.equals)
        },
        None => false,
    };
    if fails {
        set_step_state(steps, &sd.name, owned("skipped"));
        let ghost x = steps@[n];
        let ghost mx = steps@;
        spread_skips(def, steps);
        complete_if_finished(run, steps);
        proof {
            assert(same_but_state(m0[n], x));
            assert(mx == m0.insert(n, x));
            assert(skips_spread(def.steps@, m0.insert(n, x), steps@));
            assert forall|k: Seq<char>| #[trigger] steps@.contains_key(k) && steps@[k].state@ == "running"@
                implies m_orig.contains_key(k) && steps@[k] == m_orig[k] by {
                assert(mx.contains_key(k));
                assert(states_of(mx).contains_key(k));
                assert(states_of(mx)[k] == mx[k].state);
                assert(states_of(steps@)[k] == steps@[k].state);
                assert(steps@[k].state == mx[k].state);
                assert(same_but_state(mx[k], steps@[k]));
                if k == n {
                    assert(mx[k].state@ == "skipped"@);
                } else {
                    assert(mx[k] == m0[k]);
                }
                assert(steps@[k] == mx[k]);
            }
        }
        return None;
    }
    let name = sd.name.clone();
    let (key, rec) = steps.take_at(idx);
    let state = rec.state.clone();
    let attempt = rec.attempt;
    match rec.started_at_ms {
        Some(_) => {
            steps.restore_at(idx, key, rec);
            proof {
                assert(steps@ =~= m0);
            }
        },
        None => {
            let started = StepRecord { started_at_ms: Some(now), ..rec };
            steps.restore_at(idx, key, started);
            proof {
                assert(steps@ =~= m0.insert(n, steps@[n]));
            }
        },
    }
    Some(ReadyStep { name, state, attempt, sub_workflow: crate::text::copy_opt_string(&sd.sub_workflow) })
}

/// The steps handed out, in order.
pub open spec fn handed_out(os: Seq<Option<ReadyStep>>) -> Seq<ReadyStep>
    decreases os.len(),
{
    if os.len() == 0 {
        Seq::empty()
    } else {
        let p = handed_out(os.drop_last());
        match os.last() {
            Some(x) => p.push(x),
            None => p,
        }
    }
}

/// `runs` and `ms` (the run and its step records) and `os` (the step handed
/// out) trace the looks at each step of `defs` in turn at `now` (see
/// `ready_step`).
pub open spec fn ready_trace(
    defs: Seq<StepDef>,
    ch: Map<Seq<char>, (String, String)>,
    now: u64,
    runs: Seq<RunRecord>,
    ms: Seq<Map<Seq<char>, StepRecord>>,
    os: Seq<Option<ReadyStep>>,
) -> bool {
    &&& runs.len() == defs.len() + 1
    &&& ms.len() == defs.len() + 1
    &&& os.len() == defs.len()
    &&& forall|i: int| 0 <= i < defs.len() ==> ready_step(defs, defs[i], ch, now, runs[i], ms[i], runs[i + 1], ms[i + 1], #[trigger] os[i])
}

/// Whether run `run` of workflow `def` has outlived the workflow's time limit at `now`.
pub open spec fn run_expired(run: RunRecord, def: WorkflowDef, now: u64) -> bool {
    def.timeout_ms matches Some(t) && run.state@ == "running"@
        && (if now >= run.created_at_ms { now - run.created_at_ms } else { 0 }) > t
}

/// Hand out the steps of run `run` of workflow `def` that are ready at
/// `now`, with `children` the linked child runs by step name (their id and
/// state).  A run past its time limit fails and hands out nothing.
/// Otherwise the steps' time limits are applied first (see `expired`), then
/// each step of `def` is looked at in turn (see `ready_trace`).
pub fn ready_steps(
    def: &WorkflowDef,
    run: &mut RunRecord,
    steps: &mut KeyedStore<StepRecord>,
    children: &KeyedStore<(String, String)>,
    now: u64,
) -> (r: Vec<ReadyStep>)
    requires
        old(steps).wf(),
        children.wf(),
        expiry_in_range(def.steps@, old(steps)@, now),
        children_in_range(old(steps)@, children@),
    ensures
        final(steps).wf(),
        run_expired(*old(run), *def, now) ==> same_run_but_state(*old(run), *final(run))
            && final(run).state@ == "failed"@ && final(steps)@ == old(steps)@ && r@.len() == 0,
        !run_expired(*old(run), *def, now) ==> exists|runs: Seq<RunRecord>, ms: Seq<Map<Seq<char>, StepRecord>>, os: Seq<Option<ReadyStep>>|
            #[trigger] ready_trace(def.steps@, children@, now, runs, ms, os)
            && expired(def.steps@, old(steps)@, now, ms[0])
            && (expiry_fails_run(def.steps@, old(steps)@, now) ==> failed_run(*old(run), runs[0]))
            && (!expiry_fails_run(def.steps@, old(steps)@, now) ==> runs[0] == *old(run))
            && runs.last() == *final(run) && ms.last() == final(steps)@ && r@ == handed_out(os),
{
    proof {
        reveal_strlit("running");
    }
    if crate::workflow_engine::run_timed_out(run, def, now) {
        run.state = owned("failed");
        return Vec::new();
    }
    let ghost m_orig = steps@;
    expire_steps(def, run, steps, now);
    proof {
        lemma_running_differs();
        assert forall|k: Seq<char>| #[trigger] steps@.contains_key(k) && steps@[k].state@ == "running"@
            implies m_orig.contains_key(k) && steps@[k] == m_orig[k] by {
            assert(m_orig.contains_key(k));
            if let Some(j) = first_expiring(def.steps@, k, m_orig[k], now) {
                assert(timed_out_step(m_orig[k], def.steps@[j], now, (steps@[k], steps@[k].attempt >= def.steps@[j].max_attempts)));
                reveal_strlit("pending");
                reveal_strlit("failed");
            }
        }
    }
    let ghost r_exp = *run;
    let ghost m_exp = steps@;
    let ghost mut runs: Seq<RunRecord> = seq![*run];
    let ghost mut ms: Seq<Map<Seq<char>, StepRecord>> = seq![steps@];
    let ghost mut os: Seq<Option<ReadyStep>> = Seq::empty();
    let ghost defs = def.steps@;
    let mut out: Vec<ReadyStep> = Vec::new();
    let mut i: usize = 0;
    while i < def.steps.len()
        invariant
            steps.wf(),
            children.wf(),
            defs == def.steps@,
            i <= defs.len(),
            runs.len() == i + 1,
            ms.len() == i + 1,
            os.len() == i,
            forall|j: int| 0 <= j < i ==> ready_step(defs, defs[j], children@, now, runs[j], ms[j], runs[j + 1], ms[j + 1], #[trigger] os[j]),
            runs[i as int] == *run,
            ms[i as int] == steps@,
            runs[0] == r_exp,
            ms[0] == m_exp,
            out@ == handed_out(os),
            running_as_before(m_orig, steps@),
            children_in_range(m_orig, children@),
        decreases defs.len() - i,
    {
        let o = ready_one(def, &def.steps[i], run, steps, children, now, Ghost(m_orig));
        let ghost go = o;
        let ghost os0 = os;
        proof {
            runs = runs.push(*run);
            ms = ms.push(steps@);
            os = os.push(go);
            assert(os.drop_last() =~= os0);
        }
        match o {
            Some(rs) => {
                out.push(rs);
            },
            None => {},
        }
        i = i + 1;
    }
    proof {
        assert(ready_trace(defs, children@, now, runs, ms, os));
        assert(runs.last() == *run);
        assert(ms.last() == steps@);
    }
    out
}

// ── Starting, cancelling and retrying ───────────────────────────────────────

/// The id of a new run of workflow `wf`: `wfrun-<wf>-<idem_key>-<uid>` when
/// it has an idempotency key, else `wfrun-<wf>-<uid>`.
pub open spec fn new_run_id(wf: Seq<char>, idem_key: Option<Seq<char>>, uid: u64) -> Seq<char> {
    match idem_key {
        Some(k) => "wfrun-"@ + wf + "-"@ + k + "-"@ + crate::text::dec(uid as nat),
        None => "wfrun-"@ + wf + "-"@ + crate::text::dec(uid as nat),
    }
}

/// The position of the first of `runs` with the idempotency key `k`.
pub open spec fn first_with_key(runs: Seq<RunRecord>, k: Seq<char>) -> Option<int>
    decreases runs.len(),
{
    if runs.len() == 0 {
        None
    } else {
        match first_with_key(runs.drop_last(), k) {
            Some(j) => Some(j),
            None => if runs.last().idem_key matches Some(x) && x@ == k {
                Some(runs.len() - 1)
            } else {
                None
            },
        }
    }
}

/// Whether `sr` is the record of a step that has not run yet.
pub open spec fn fresh_step(sr: StepRecord) -> bool {
    &&& sr.state@ == "pending"@
    &&& sr.attempt == 0
    &&& sr.scheduled_at_ms == 0
    &&& sr.started_at_ms is None
    &&& sr.output is None
    &&& sr.error is None
}

/// Whether a run with the idempotency key `idem_key` exists among `runs`.
pub open spec fn key_reused(idem_key: Option<String>, runs: Seq<RunRecord>) -> bool {
    idem_key matches Some(k) && first_with_key(runs, k@) is Some
}

/// Whether `recs` holds a fresh record for each of the steps `defs`, in order.
pub open spec fn fresh_steps(defs: Seq<StepDef>, recs: Seq<(String, StepRecord)>) -> bool {
    &&& recs.len() == defs.len()
    &&& forall|i: int| 0 <= i < recs.len() ==> #[trigger] recs[i].0@ == defs[i].name@ && fresh_step(recs[i].1)
}

/// What a request to start a run gives: the id of the run started earlier
/// with the same idempotency key, or the new run and the records of its
/// steps (in the order of the workflow's steps).
pub enum RunStart {
    Existing(String),
    Created(RunRecord, Vec<(String, StepRecord)>),
}

/// Start a run of workflow `wf_name` (defined by `def`) at `now`, with the
/// optional idempotency key `idem_key`, where `existing` are the runs of the
/// workflow so far and `uid` a fresh number: when a run with the same key
/// exists, it is the first such; otherwise a running run with id
/// `new_run_id` and a fresh record for each step.
pub fn start_run(def: &WorkflowDef, wf_name: &str, idem_key: Option<String>, existing: &Vec<RunRecord>, uid: u64, now: u64) -> (r: RunStart)
    ensures
        key_reused(idem_key, existing@) ==> (r matches RunStart::Existing(id)
            && id@ == existing@[first_with_key(existing@, idem_key->0@)->0].run_id@),
        !key_reused(idem_key, existing@) ==> r is Created,
        r matches RunStart::Created(run, recs) ==> run.run_id@ == new_run_id(wf_name@, crate::text::opt_view(idem_key), uid),
        r matches RunStart::Created(run, recs) ==> run.wf_name@ == wf_name@ && run.state@ == "running"@,
        r matches RunStart::Created(run, recs) ==> run.idem_key == idem_key && run.created_at_ms == now,
        r matches RunStart::Created(run, recs) ==> fresh_steps(def.steps@, recs@),
{
    let mut id: Vec<char> = Vec::new();
    crate::text::push_str(&mut id, "wfrun-");
    crate::text::push_str(&mut id, wf_name);
    crate::text::push_str(&mut id, "-");
    match &idem_key {
        Some(k) => {
            let mut i: usize = 0;
            proof {
                assert(idem_key == Some(*k));
                assert(existing@.take(0) =~= Seq::<RunRecord>::empty());
            }
            while i < existing.len()
                invariant
                    i <= existing@.len(),
                    idem_key == Some(*k),
                    first_with_key(existing@.take(i as int), k@) is None,
                decreases existing@.len() - i,
            {
                proof {
                    assert(existing@.take(i + 1).drop_last() =~= existing@.take(i as int));
                    assert(existing@.take(i + 1).last() == existing@[i as int]);
                }
                let hit = match &existing[i].idem_key {
                    Some(x) => *x == *k,
                    None => false,
                };
                if hit {
                    proof {
                        assert(first_with_key(existing@.take(i + 1), k@) == Some(i as int));
                        lemma_first_with_key_prefix(existing@, k@, i + 1);
                    }
                    return RunStart::Existing(existing[i].run_id.clone());
                }
                i = i + 1;
            }
            proof {
                assert(existing@.take(existing@.len() as int) =~= existing@);
            }
            crate::text::push_str(&mut id, k.as_str());
            crate::text::push_str(&mut id, "-");
        },
        None => {},
    }
    crate::text::push_chars(&mut id, &crate::text::u64_to_dec(uid));
    proof {
        assert(id@ =~= new_run_id(wf_name@, crate::text::opt_view(idem_key), uid));
    }
    let run = RunRecord {
        run_id: crate::text::string_from_chars(id.as_slice()),
        wf_name: owned(wf_name),
        state: owned("running"),
        idem_key,
        created_at_ms: now,
    };
    let mut recs: Vec<(String, StepRecord)> = Vec::new();
    let mut j: usize = 0;
    while j < def.steps.len()
        invariant
            j <= def.steps@.len(),
            recs@.len() == j,
            forall|q: int| 0 <= q < j ==> #[trigger] recs@[q].0@ == def.steps@[q].name@ && fresh_step(recs@[q].1),
        decreases def.steps@.len() - j,
    {
        let sr = StepRecord {
            state: owned("pending"),
            attempt: 0,
            scheduled_at_ms: 0,
            started_at_ms: None,
            output: None,
            error: None,
        };
        recs.push((def.steps[j].name.clone(), sr));
        j = j + 1;
    }
    proof {
        assert(fresh_steps(def.steps@, recs@));
    }
    RunStart::Created(run, recs)
}

proof fn lemma_first_with_key_prefix(runs: Seq<RunRecord>, k: Seq<char>, i: int)
    requires
        0 <= i <= runs.len(),
        first_with_key(runs.take(i), k) is Some,
    ensures
        first_with_key(runs, k) == first_with_key(runs.take(i), k),
    decreases runs.len() - i,
{
    if i < runs.len() {
        assert(runs.take(i + 1).drop_last() =~= runs.take(i));
        lemma_first_with_key_prefix(runs, k, i + 1);
    } else {
        assert(runs.take(i) =~= runs);
    }
}

/// Cancel run `run`: its state becomes `cancelled`, whatever it was.
pub fn cancel_run(run: &mut RunRecord)
    ensures
        same_run_but_state(*old(run), *final(run)),
        final(run).state@ == "cancelled"@,
{
    run.state = owned("cancelled");
}

/// Put step `step_name` back to `pending` for a retry.  Answers whether the
/// step has a record.
pub fn retry_step(steps: &mut KeyedStore<StepRecord>, step_name: &String) -> (found: bool)
    requires
        old(steps).wf(),
    ensures
        final(steps).wf(),
        found == old(steps)@.contains_key(step_name@),
        !found ==> final(steps)@ == old(steps)@,
        found ==> final(steps)@ == old(steps)@.insert(step_name@, final(steps)@[step_name@])
            && same_but_state(old(steps)@[step_name@], final(steps)@[step_name@])
            && final(steps)@[step_name@].state@ == "pending"@,
{
    if !steps.contains(step_name) {
        return false;
    }
    set_step_state(steps, step_name, owned("pending"));
    true
}

// ── Laws ────────────────────────────────────────────────────────────────────

/// A step is handed out only when its record is pending, its retry time has
/// come, all its dependencies are settled and its condition (if it has one)
/// holds; handing it out leaves the run as it was.
pub proof fn law_handed_out_steps_are_due(
    defs: Seq<StepDef>,
    sd: StepDef,
    ch: Map<Seq<char>, (String, String)>,
    now: u64,
    run0: RunRecord,
    m0: Map<Seq<char>, StepRecord>,
    run1: RunRecord,
    m1: Map<Seq<char>, StepRecord>,
    rs: ReadyStep,
)
    requires
        ready_step(defs, sd, ch, now, run0, m0, run1, m1, Some(rs)),
    ensures
        m0.contains_key(sd.name@),
        m0[sd.name@].state@ == "pending"@,
        m0[sd.name@].scheduled_at_ms <= now,
        deps_settled_in(state_views(m0), sd),
        !cond_fails(sd, m0),
        rs.name == sd.name,
        run1 == run0,
{
}

/// Checking conditions after a step finishes only turns pending steps into
/// skipped ones: every other step keeps its state.
pub proof fn law_conditions_only_skip_pending(defs: Seq<StepDef>, st: Map<Seq<char>, Seq<char>>, recs: Map<Seq<char>, StepRecord>)
    ensures
        cond_fold(defs, st, recs).dom() == st.dom(),
        forall|k: Seq<char>| #[trigger] st.contains_key(k) ==> cond_fold(defs, st, recs)[k] == st[k]
            || (st[k] == "pending"@ && cond_fold(defs, st, recs)[k] == "skipped"@),
    decreases defs.len(),
{
    if defs.len() > 0 {
        law_conditions_only_skip_pending(defs.drop_last(), st, recs);
        let prev = cond_fold(defs.drop_last(), st, recs);
        if cond_skip_due(defs.last(), prev, recs) {
            assert(prev.insert(defs.last().name@, "skipped"@).dom() =~= st.dom());
        }
    }
}

} // verus!
