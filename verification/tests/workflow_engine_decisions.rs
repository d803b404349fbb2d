use wasmcloud_utils::store::KeyedStore;
use wasmcloud_utils::workflow::{Condition, RunRecord, StepDef, StepRecord, WorkflowDef};
use wasmcloud_utils::workflow_engine::{
    apply_transitive_skips, deps_settled, failure_limits, retry_delay_ms, run_finished, run_timed_out, step_failed,
    step_timeout,
};

fn step(name: &str, deps: &[&str]) -> StepDef {
    StepDef {
        name: name.to_string(),
        depends_on: deps.iter().map(|d| d.to_string()).collect(),
        max_attempts: 3,
        base_delay_ms: 100,
        timeout_ms: None,
        sub_workflow: None,
        optional: false,
        condition: None,
    }
}

fn wf(steps: Vec<StepDef>) -> WorkflowDef {
    WorkflowDef { name: "w".to_string(), description: None, timeout_ms: None, triggers: vec![], steps }
}

fn record(state: &str, attempt: u32) -> StepRecord {
    StepRecord { state: state.to_string(), attempt, scheduled_at_ms: 0, started_at_ms: None, output: None, error: None }
}

fn states(pairs: &[(&str, &str)]) -> KeyedStore<String> {
    let mut s = KeyedStore::new();
    for (k, v) in pairs {
        s.insert(k.to_string(), v.to_string());
    }
    s
}

fn state_of(s: &KeyedStore<String>, k: &str) -> String {
    s.get(&k.to_string()).unwrap().clone()
}

#[test]
fn retry_delays_double_and_cap() {
    assert_eq!(retry_delay_ms(100, 0), 100);
    assert_eq!(retry_delay_ms(100, 1), 200);
    assert_eq!(retry_delay_ms(100, 3), 800);
    assert_eq!(retry_delay_ms(100, 6), 6_400);
    assert_eq!(retry_delay_ms(100, 9), 6_400);
    assert_eq!(retry_delay_ms(5_000, 5), 60_000);
}

#[test]
fn step_failed_counts_attempts() {
    let (s, fails) = step_failed(record("running", 0), 3, 500, 1_000, Some("boom".to_string()));
    assert!(!fails);
    assert_eq!((s.state.as_str(), s.attempt, s.scheduled_at_ms), ("pending", 1, 2_000));
    assert_eq!(s.error.as_deref(), Some("boom"));
    let (s, fails) = step_failed(record("running", 2), 3, 500, 1_000, None);
    assert!(fails);
    assert_eq!((s.state.as_str(), s.attempt), ("failed", 3));
}

#[test]
fn failure_limits_default() {
    let def = wf(vec![step("a", &[])]);
    assert_eq!(failure_limits(&def, "a"), (3, 100));
    assert_eq!(failure_limits(&def, "zzz"), (1, 500));
}

#[test]
fn timeouts() {
    let mut sd = step("a", &[]);
    let mut sr = record("running", 0);
    sr.started_at_ms = Some(1_000);
    assert!(step_timeout(sr.clone(), &sd, 5_000).is_none());
    sd.timeout_ms = Some(1_000);
    assert!(step_timeout(sr.clone(), &sd, 2_000).is_none());
    let (s, fails) = step_timeout(sr.clone(), &sd, 2_001).unwrap();
    assert!(!fails);
    assert_eq!((s.state.as_str(), s.attempt, s.scheduled_at_ms, s.started_at_ms), ("pending", 1, 2_201, None));
    assert_eq!(s.error.as_deref(), Some("step timeout"));
    sr.attempt = 2;
    let (s, fails) = step_timeout(sr.clone(), &sd, 9_000).unwrap();
    assert!(fails);
    assert_eq!(s.state, "failed");
    let done = StepRecord { state: "succeeded".to_string(), ..sr };
    assert!(step_timeout(done, &sd, 9_000).is_none());
    let mut def = wf(vec![]);
    let run = RunRecord { run_id: "r".into(), wf_name: "w".into(), state: "running".into(), idem_key: None, created_at_ms: 100 };
    assert!(!run_timed_out(&run, &def, 10_000));
    def.timeout_ms = Some(500);
    assert!(!run_timed_out(&run, &def, 600));
    assert!(run_timed_out(&run, &def, 601));
    assert!(!run_timed_out(&run, &def, 50));
}

#[test]
fn settled_and_finished() {
    assert!(deps_settled(&vec![]));
    assert!(deps_settled(&vec![Some("succeeded".to_string()), Some("skipped".to_string())]));
    assert!(!deps_settled(&vec![Some("succeeded".to_string()), None]));
    assert!(!deps_settled(&vec![Some("running".to_string())]));
    assert!(!run_finished(&vec![]));
    assert!(run_finished(&vec![Some("skipped".to_string())]));
    assert!(!run_finished(&vec![Some("failed".to_string())]));
}

#[test]
fn transitive_skips_spread_down_the_graph() {
    // a is skipped; b depends on a; c depends on b; d depends on a and x (running)
    let def = wf(vec![step("a", &[]), step("b", &["a"]), step("c", &["b"]), step("d", &["a", "x"]), step("x", &[])]);
    let mut s = states(&[("a", "skipped"), ("b", "pending"), ("c", "pending"), ("d", "pending"), ("x", "running")]);
    apply_transitive_skips(&def, &mut s);
    assert_eq!(state_of(&s, "b"), "skipped");
    assert_eq!(state_of(&s, "c"), "skipped");
    assert_eq!(state_of(&s, "d"), "pending");
    assert_eq!(state_of(&s, "x"), "running");
}

#[test]
fn transitive_skip_respects_conditions_and_success() {
    let mut guarded = step("g", &["a"]);
    guarded.condition = Some(Condition { on_step: "a".to_string(), equals: serde_json::Value::Bool(true) });
    let def = wf(vec![step("a", &[]), guarded, step("ok", &[]), step("after_ok", &["ok"]), step("mixed", &["a", "ok"])]);
    let mut s = states(&[("a", "skipped"), ("g", "pending"), ("ok", "succeeded"), ("after_ok", "pending"), ("mixed", "pending")]);
    apply_transitive_skips(&def, &mut s);
    assert_eq!(state_of(&s, "g"), "pending");
    assert_eq!(state_of(&s, "after_ok"), "pending");
    assert_eq!(state_of(&s, "mixed"), "skipped");
}
