use serde_json::Value;
use wasmcloud_utils::store::KeyedStore;
use wasmcloud_utils::workflow::{Condition, RunRecord, StepDef, StepRecord, WorkflowDef};
use wasmcloud_utils::workflow_replies::{
    list_runs_reply, list_steps_reply, missing_reply, missing_step_reply, ready_body, start_reply, step_output_reply,
    stored_reply, validation_reply,
};
use wasmcloud_utils::workflow_route::{route_of, Route};
use wasmcloud_utils::workflow_run::{
    advance_sub_step, children_fit, complete_if_finished, condition_met, expire_steps, expiry_fits, failure_fits,
    ready_steps, reported_output, retry_step, start_run, step_done, step_failure, sub_step_fits, RunStart,
};

fn step(name: &str, deps: &[&str]) -> StepDef {
    StepDef {
        name: name.to_string(),
        depends_on: deps.iter().map(|d| d.to_string()).collect(),
        max_attempts: 1,
        base_delay_ms: 0,
        timeout_ms: None,
        sub_workflow: None,
        optional: false,
        condition: None,
    }
}

fn wf(name: &str, steps: Vec<StepDef>) -> WorkflowDef {
    WorkflowDef { name: name.to_string(), description: None, timeout_ms: None, triggers: vec![], steps }
}

fn simple_job() -> WorkflowDef {
    wf("simple-job", vec![step("run", &[])])
}

fn order_pipeline() -> WorkflowDef {
    let mut steps = vec![step("validate", &[]), step("charge", &["validate"]), step("fulfill", &["charge"]), step("notify", &["fulfill"])];
    let limits = [(3, 500), (5, 1000), (3, 2000), (2, 500)];
    for (s, (m, d)) in steps.iter_mut().zip(limits.iter()) {
        s.max_attempts = *m;
        s.base_delay_ms = *d;
    }
    wf("order-pipeline", steps)
}

fn parent_of(child: &str) -> WorkflowDef {
    let mut delegate = step("delegate", &[]);
    delegate.sub_workflow = Some(child.to_string());
    wf("parent-wf", vec![delegate])
}

fn conditional(name: &str, on: &str, equals: &str, optional: bool) -> StepDef {
    let mut s = step(name, &[on]);
    s.optional = optional;
    s.condition = Some(Condition { on_step: on.to_string(), equals: Value::String(equals.to_string()) });
    s
}

fn if_else_wf() -> WorkflowDef {
    wf("if-else-wf", vec![step("check", &[]), conditional("yes-branch", "check", "yes", true), conditional("no-branch", "check", "no", true)])
}

/// A new run of `def`: its record and its step records.
fn start(def: &WorkflowDef, uid: u64) -> (RunRecord, KeyedStore<StepRecord>) {
    match start_run(def, &def.name, None, &vec![], uid, 1_000) {
        RunStart::Created(run, recs) => {
            let mut steps = KeyedStore::new();
            for (n, r) in recs {
                steps.insert(n, r);
            }
            (run, steps)
        },
        RunStart::Existing(_) => panic!("expected a new run"),
    }
}

fn state_of(steps: &KeyedStore<StepRecord>, name: &str) -> String {
    steps.get(&name.to_string()).unwrap().state.clone()
}

/// The bytes a reported output of JSON numbers is kept as.
fn output_of_numbers(ns: &[u64]) -> Vec<u8> {
    reported_output(&Value::Array(ns.iter().map(|n| Value::from(*n)).collect()))
}

fn done(def: &WorkflowDef, run: &mut Option<RunRecord>, steps: &mut KeyedStore<StepRecord>, name: &str, output: Option<Vec<u8>>) {
    assert!(step_done(Some(def), run, steps, &name.to_string(), output));
}

fn ready(def: &WorkflowDef, run: &mut RunRecord, steps: &mut KeyedStore<StepRecord>) -> String {
    let children: KeyedStore<(String, String)> = KeyedStore::new();
    let r = ready_steps(def, run, steps, &children, 5_000);
    ready_body(&r)
}

#[test]
fn start_run_and_get_status() {
    let def = simple_job();
    let r = start_run(&def, "simple-job", None, &vec![], 7, 1_000);
    let (code, body) = start_reply(&r);
    assert_eq!(code, 201);
    assert!(body.contains("run_id"));
    assert_eq!(body, "{\"run_id\":\"wfrun-simple-job-7\"}");
    match r {
        RunStart::Created(run, recs) => {
            assert_eq!(run.state, "running");
            assert_eq!(run.created_at_ms, 1_000);
            assert_eq!(recs.len(), 1);
            assert_eq!(recs[0].0, "run");
            assert_eq!(recs[0].1.state, "pending");
        },
        RunStart::Existing(_) => panic!("expected a new run"),
    }
}

#[test]
fn start_run_missing_workflow() {
    let (code, body) = missing_reply("workflow", "ghost");
    assert_eq!(code, 404);
    assert_eq!(body, "{\"error\":\"workflow 'ghost' not found\"}");
}

#[test]
fn idem_key_deduplication() {
    let def = simple_job();
    let first = match start_run(&def, "simple-job", Some("my-key".to_string()), &vec![], 1, 1_000) {
        RunStart::Created(run, _) => run,
        RunStart::Existing(_) => panic!("expected a new run"),
    };
    assert_eq!(first.run_id, "wfrun-simple-job-my-key-1");
    let again = start_run(&def, "simple-job", Some("my-key".to_string()), &vec![first.clone()], 2, 2_000);
    let (code, body) = start_reply(&again);
    assert_eq!(code, 200);
    assert_eq!(body, "{\"run_id\":\"wfrun-simple-job-my-key-1\",\"existing\":true}");
    match start_run(&def, "simple-job", Some("other".to_string()), &vec![first], 3, 2_000) {
        RunStart::Created(run, _) => assert_eq!(run.run_id, "wfrun-simple-job-other-3"),
        RunStart::Existing(_) => panic!("a different key starts a new run"),
    }
}

#[test]
fn ready_steps_all_pending_no_deps() {
    let def = simple_job();
    let (mut run, mut steps) = start(&def, 1);
    let body = ready(&def, &mut run, &mut steps);
    assert!(body.contains("run"));
    assert_eq!(body, "[{\"name\":\"run\",\"state\":\"pending\",\"attempt\":0}]");
    assert_eq!(steps.get(&"run".to_string()).unwrap().started_at_ms, Some(5_000));
}

#[test]
fn step_done_completes_run() {
    let def = simple_job();
    let (run, mut steps) = start(&def, 1);
    let mut run = Some(run);
    done(&def, &mut run, &mut steps, "run", Some(output_of_numbers(&[])));
    assert_eq!(run.unwrap().state, "succeeded");
    assert_eq!(steps.get(&"run".to_string()).unwrap().attempt, 1);
}

#[test]
fn step_done_chain_completes_run() {
    let def = order_pipeline();
    let (run, mut steps) = start(&def, 1);
    let mut run = Some(run);
    for s in ["validate", "charge", "fulfill"] {
        done(&def, &mut run, &mut steps, s, None);
        assert_eq!(run.as_ref().unwrap().state, "running");
    }
    done(&def, &mut run, &mut steps, "notify", None);
    assert_eq!(run.unwrap().state, "succeeded");
}

#[test]
fn step_done_on_a_missing_step() {
    let def = simple_job();
    let (run, mut steps) = start(&def, 1);
    let mut run = Some(run);
    assert!(!step_done(Some(&def), &mut run, &mut steps, &"nope".to_string(), None));
    assert_eq!(run.unwrap().state, "running");
    let (code, body) = missing_step_reply("r1", "nope");
    assert_eq!(code, 404);
    assert_eq!(body, "{\"error\":\"step 'nope' not found for run 'r1'\"  }");
}

#[test]
fn cancel_run() {
    let (mut run, _) = start(&simple_job(), 1);
    wasmcloud_utils::workflow_run::cancel_run(&mut run);
    assert_eq!(run.state, "cancelled");
    assert_eq!(run.run_id, "wfrun-simple-job-1");
}

#[test]
fn step_failed_schedules_retry() {
    let def = simple_job();
    let (mut run, mut steps) = start(&def, 1);
    assert!(step_failure(&def, &mut run, &mut steps, &"run".to_string(), Some("oops".to_string()), 10_000));
    assert_eq!(run.state, "failed");
    let sr = steps.get(&"run".to_string()).unwrap();
    assert_eq!((sr.state.as_str(), sr.attempt), ("failed", 1));
    assert_eq!(sr.error.as_deref(), Some("oops"));
}

#[test]
fn step_failure_schedules_a_retry() {
    let def = order_pipeline();
    let (mut run, mut steps) = start(&def, 1);
    assert!(step_failure(&def, &mut run, &mut steps, &"charge".to_string(), None, 10_000));
    assert_eq!(run.state, "running");
    let sr = steps.get(&"charge".to_string()).unwrap();
    assert_eq!((sr.state.as_str(), sr.attempt, sr.scheduled_at_ms), ("pending", 1, 12_000));
    // an unknown step is retried with 1 attempt and 500 ms
    assert!(!step_failure(&def, &mut run, &mut steps, &"ghost".to_string(), None, 10_000));
}

#[test]
fn retry_puts_a_step_back() {
    let def = simple_job();
    let (mut run, mut steps) = start(&def, 1);
    step_failure(&def, &mut run, &mut steps, &"run".to_string(), None, 10_000);
    assert!(retry_step(&mut steps, &"run".to_string()));
    assert_eq!(state_of(&steps, "run"), "pending");
    assert!(!retry_step(&mut steps, &"nope".to_string()));
}

#[test]
fn get_step_output_after_done() {
    let def = simple_job();
    let (run, mut steps) = start(&def, 1);
    let mut run = Some(run);
    done(&def, &mut run, &mut steps, "run", Some(output_of_numbers(&[1, 2, 3])));
    let rec = steps.get(&"run".to_string()).unwrap().clone();
    let (code, body) = step_output_reply("r", "run", &Some(Some(rec)));
    assert_eq!(code, 200);
    let v: Value = serde_json::from_str(&body).unwrap();
    assert_eq!(v["state"], "succeeded");
    assert!(!v["output"].is_null());
    assert_eq!(body, "{\"output\":[1,2,3],\"state\":\"succeeded\"}");
}

#[test]
fn step_output_that_is_json() {
    let mut rec = StepRecord {
        state: "succeeded".to_string(),
        attempt: 1,
        scheduled_at_ms: 0,
        started_at_ms: None,
        output: Some(b"{\"a\": 1}".to_vec()),
        error: None,
    };
    let (_, body) = step_output_reply("r", "s", &Some(Some(rec.clone())));
    assert_eq!(body, "{\"output\":{\"a\":1},\"state\":\"succeeded\"}");
    rec.output = None;
    let (_, body) = step_output_reply("r", "s", &Some(Some(rec)));
    assert_eq!(body, "{\"output\":null,\"state\":\"succeeded\"}");
    let (code, body) = step_output_reply("r", "s", &Some(None));
    assert_eq!((code, body.as_str()), (500, "{\"error\":\"corrupt step record\"}"));
}

#[test]
fn get_step_output_missing_returns_404() {
    let (code, _) = step_output_reply("nonexistent-run", "nope", &None);
    assert_eq!(code, 404);
}

#[test]
fn reported_outputs_keep_bytes_or_json() {
    assert_eq!(output_of_numbers(&[34, 121, 101, 115, 34]), b"\"yes\"".to_vec());
    assert_eq!(reported_output(&Value::Array(vec![Value::from(300u64)])), b"[300]".to_vec());
    assert_eq!(reported_output(&Value::String("hi".to_string())), b"\"hi\"".to_vec());
}

#[test]
fn conditions_compare_json() {
    let yes = Value::String("yes".to_string());
    assert!(condition_met(&Some(b"\"yes\"".to_vec()), &yes));
    assert!(!condition_met(&Some(b"\"no\"".to_vec()), &yes));
    assert!(!condition_met(&Some(vec![1, 2]), &yes));
    assert!(condition_met(&None, &Value::Null));
    assert!(!condition_met(&None, &yes));
}

#[test]
fn sub_workflow_step_in_ready_steps_has_kind_field() {
    let def = parent_of("child-wf");
    let (mut run, mut steps) = start(&def, 1);
    let body = ready(&def, &mut run, &mut steps);
    assert!(body.contains("sub_workflow"), "expected sub_workflow field in: {}", body);
    assert!(body.contains("child-wf"));
    assert_eq!(body, "[{\"name\":\"delegate\",\"state\":\"pending\",\"attempt\":0,\"sub_workflow\":\"child-wf\"}]");
}

#[test]
fn sub_workflow_link_and_auto_complete_when_child_succeeds() {
    let child_def = simple_job();
    let (child, mut child_steps) = start(&child_def, 1);
    let mut child = Some(child);
    done(&child_def, &mut child, &mut child_steps, "run", None);
    let child = child.unwrap();
    let parent_def = parent_of("simple-job");
    let (parent, mut steps) = start(&parent_def, 2);
    let mut parent = Some(parent);
    let verdict = advance_sub_step(&mut parent, &mut steps, &"delegate".to_string(), &child.run_id, &child.state, true);
    assert_eq!(verdict, Some(true));
    assert_eq!(parent.unwrap().state, "succeeded", "parent run status");
}

#[test]
fn sub_workflow_fail_when_child_fails() {
    let child_def = simple_job();
    let (mut child, mut child_steps) = start(&child_def, 1);
    step_failure(&child_def, &mut child, &mut child_steps, &"run".to_string(), Some("boom".to_string()), 10_000);
    let parent_def = parent_of("simple-job");
    let (parent, mut steps) = start(&parent_def, 2);
    let mut parent = Some(parent);
    let verdict = advance_sub_step(&mut parent, &mut steps, &"delegate".to_string(), &child.run_id, &child.state, true);
    assert_eq!(verdict, Some(false));
    assert_eq!(parent.unwrap().state, "failed", "parent run status");
    let sr = steps.get(&"delegate".to_string()).unwrap();
    assert_eq!(sr.error.as_deref(), Some("child run wfrun-simple-job-1 failed"));
}

#[test]
fn nested_sub_workflow_three_levels() {
    let simple = simple_job();
    let (g, mut g_steps) = start(&simple, 1);
    let mut g = Some(g);
    done(&simple, &mut g, &mut g_steps, "run", None);
    let g = g.unwrap();

    let mut sub = step("sub", &[]);
    sub.sub_workflow = Some("simple-job".to_string());
    let child_def = wf("child-wf", vec![sub]);
    let (c, mut c_steps) = start(&child_def, 2);
    let mut c = Some(c);
    advance_sub_step(&mut c, &mut c_steps, &"sub".to_string(), &g.run_id, &g.state, true);
    let c = c.unwrap();
    assert_eq!(c.state, "succeeded", "child status");

    let mut sub = step("sub", &[]);
    sub.sub_workflow = Some("child-wf".to_string());
    let parent_def = wf("parent-wf", vec![sub]);
    let (p, mut p_steps) = start(&parent_def, 3);
    let mut p = Some(p);
    advance_sub_step(&mut p, &mut p_steps, &"sub".to_string(), &c.run_id, &c.state, true);
    assert_eq!(p.unwrap().state, "succeeded", "parent status");
}

#[test]
fn a_running_child_changes_nothing() {
    let parent_def = parent_of("simple-job");
    let (parent, mut steps) = start(&parent_def, 2);
    let mut parent = Some(parent);
    let verdict = advance_sub_step(&mut parent, &mut steps, &"delegate".to_string(), "c", &"running".to_string(), true);
    assert_eq!(verdict, None);
    assert_eq!(state_of(&steps, "delegate"), "pending");
    assert_eq!(parent.unwrap().state, "running");
}

#[test]
fn if_else_true_branch_runs_false_skipped() {
    let def = if_else_wf();
    let (run, mut steps) = start(&def, 1);
    let mut run = Some(run);
    done(&def, &mut run, &mut steps, "check", Some(output_of_numbers(&[34, 121, 101, 115, 34])));
    let mut run = run.unwrap();
    let body = ready(&def, &mut run, &mut steps);
    assert!(body.contains("yes-branch"), "ready: {}", body);
    assert_eq!(state_of(&steps, "no-branch"), "skipped");
}

#[test]
fn if_else_false_branch_optional_run_still_succeeds() {
    let def = if_else_wf();
    let (run, mut steps) = start(&def, 1);
    let mut run = Some(run);
    done(&def, &mut run, &mut steps, "check", Some(output_of_numbers(&[34, 121, 101, 115, 34])));
    ready(&def, run.as_mut().unwrap(), &mut steps);
    done(&def, &mut run, &mut steps, "yes-branch", None);
    assert_eq!(run.unwrap().state, "succeeded", "run status");
}

#[test]
fn if_else_false_branch_required_run_fails() {
    let def = wf("strict-wf", vec![step("check", &[]), conditional("required-branch", "check", "yes", false)]);
    let (run, mut steps) = start(&def, 1);
    let mut run = Some(run);
    done(&def, &mut run, &mut steps, "check", Some(output_of_numbers(&[34, 110, 111, 34])));
    ready(&def, run.as_mut().unwrap(), &mut steps);
    assert_eq!(run.unwrap().state, "succeeded", "run status");
}

#[test]
fn transitive_skip_downstream_optional() {
    let mut end = step("end", &["middle"]);
    end.optional = true;
    let def = wf("transitive-wf", vec![step("check", &[]), conditional("middle", "check", "go", true), end]);
    let (run, mut steps) = start(&def, 1);
    let mut run = Some(run);
    done(&def, &mut run, &mut steps, "check", Some(output_of_numbers(&[34, 115, 116, 111, 112, 34])));
    ready(&def, run.as_mut().unwrap(), &mut steps);
    assert_eq!(state_of(&steps, "end"), "skipped");
    assert_eq!(run.unwrap().state, "succeeded", "run status");
}

#[test]
fn ready_steps_wait_for_dependencies_and_retry_time() {
    let def = order_pipeline();
    let (mut run, mut steps) = start(&def, 1);
    assert_eq!(ready(&def, &mut run, &mut steps), "[{\"name\":\"validate\",\"state\":\"pending\",\"attempt\":0}]");
    // a retry scheduled after now is not handed out
    step_failure(&def, &mut run, &mut steps, &"validate".to_string(), None, 4_900);
    assert_eq!(ready(&def, &mut run, &mut steps), "[]");
}

#[test]
fn a_run_past_its_time_limit_fails() {
    let mut def = simple_job();
    def.timeout_ms = Some(1_000);
    let (mut run, mut steps) = start(&def, 1);
    assert_eq!(ready(&def, &mut run, &mut steps), "[]");
    assert_eq!(run.state, "failed");
}

#[test]
fn steps_past_their_time_limit_are_retried_or_failed() {
    let mut s = step("s", &[]);
    s.timeout_ms = Some(100);
    s.max_attempts = 2;
    s.base_delay_ms = 10;
    let def = wf("t", vec![s]);
    let (mut run, mut steps) = start(&def, 1);
    let children: KeyedStore<(String, String)> = KeyedStore::new();
    ready_steps(&def, &mut run, &mut steps, &children, 1_000);
    expire_steps(&def, &mut run, &mut steps, 1_200);
    let sr = steps.get(&"s".to_string()).unwrap();
    assert_eq!((sr.state.as_str(), sr.attempt, sr.scheduled_at_ms, sr.started_at_ms), ("pending", 1, 1_220, None));
    assert_eq!(sr.error.as_deref(), Some("step timeout"));
    ready_steps(&def, &mut run, &mut steps, &children, 2_000);
    expire_steps(&def, &mut run, &mut steps, 2_200);
    assert_eq!(state_of(&steps, "s"), "failed");
    assert_eq!(run.state, "failed");
}

#[test]
fn finishing_needs_every_step_settled() {
    let def = order_pipeline();
    let (mut run, steps) = start(&def, 1);
    assert!(!complete_if_finished(&mut run, &steps));
    assert_eq!(run.state, "running");
    let empty: KeyedStore<StepRecord> = KeyedStore::new();
    assert!(!complete_if_finished(&mut run, &empty));
}

#[test]
fn timeout_zero_rejected() {
    let mut def = wf("bad-timeout", vec![step("s", &[])]);
    def.timeout_ms = Some(0);
    let (code, body) = validation_reply(&def).unwrap();
    assert_eq!(code, 400);
    assert!(body.contains("timeout_ms must be > 0"), "body: {}", body);
}

#[test]
fn step_timeout_zero_rejected() {
    let mut s = step("s", &[]);
    s.timeout_ms = Some(0);
    let (code, body) = validation_reply(&wf("bad-step-timeout", vec![s])).unwrap();
    assert_eq!(code, 400);
    assert!(body.contains("timeout_ms must be > 0"), "body: {}", body);
}

#[test]
fn step_timeout_accepted() {
    let mut s = step("s", &[]);
    s.timeout_ms = Some(5000);
    assert!(validation_reply(&wf("timeout-wf", vec![s])).is_none());
    assert_eq!(stored_reply("timeout-wf", &Ok(())).0, 201);
}

#[test]
fn run_level_timeout_accepted() {
    let mut def = wf("run-timeout-wf", vec![step("s", &[])]);
    def.timeout_ms = Some(10000);
    assert!(validation_reply(&def).is_none());
    let (code, body) = stored_reply("run-timeout-wf", &Ok(()));
    assert_eq!((code, body.as_str()), (201, "{\"name\":\"run-timeout-wf\",\"created\":true}"));
    let (code, body) = stored_reply("x", &Err("disk full".to_string()));
    assert_eq!((code, body.as_str()), (500, "{\"error\":\"disk full\"}"));
}

fn run_json(id: &str, state: &str) -> Vec<u8> {
    format!("{{\"run_id\":\"{}\",\"wf_name\":\"w\",\"state\":\"{}\",\"idem_key\":null,\"created_at_ms\":1}}", id, state).into_bytes()
}

#[test]
fn list_runs_for_workflow() {
    let states = vec![Some("running".to_string()), Some("running".to_string())];
    let items = vec![run_json("a", "running"), run_json("b", "running")];
    let (code, body) = list_runs_reply(&states, None, &items, 1, 0);
    assert_eq!(code, 200);
    assert!(body.contains("\"items\""), "body: {}", body);
    assert!(body.contains("\"total\":2"), "body: {}", body);
    assert!(body.ends_with("\"total\":2,\"page\":1,\"limit\":50}"));
}

#[test]
fn list_runs_returns_empty_for_fresh_workflow() {
    let (code, body) = list_runs_reply(&vec![], None, &vec![], 1, 0);
    assert_eq!(code, 200);
    assert!(body.contains("\"total\":0"), "body: {}", body);
    assert_eq!(body, "{\"items\":[],\"total\":0,\"page\":1,\"limit\":50}");
}

#[test]
fn list_runs_filter_by_state() {
    let states = vec![Some("cancelled".to_string()), Some("running".to_string()), None];
    let items = vec![run_json("a", "cancelled")];
    let (code, body) = list_runs_reply(&states, Some("cancelled"), &items, 1, 0);
    assert_eq!(code, 200);
    assert!(body.contains("cancelled"), "body: {}", body);
    assert!(body.contains("\"total\":1"), "body: {}", body);
    let (_, body_running) = list_runs_reply(&vec![Some("cancelled".to_string())], Some("running"), &vec![], 1, 0);
    assert!(body_running.contains("\"total\":0"), "body: {}", body_running);
}

#[test]
fn list_runs_pagination() {
    let states: Vec<Option<String>> = (0..5).map(|_| Some("running".to_string())).collect();
    let items = vec![run_json("a", "running"), run_json("b", "running")];
    let (code, body) = list_runs_reply(&states, None, &items, 1, 2);
    assert_eq!(code, 200);
    assert!(body.contains("\"total\":5"), "body: {}", body);
    let v: Value = serde_json::from_str(&body).unwrap();
    assert_eq!(v["items"].as_array().unwrap().len(), 2);
}

#[test]
fn list_runs_unknown_workflow() {
    let (code, body) = list_runs_reply(&vec![], None, &vec![], 0, 0);
    assert_eq!(code, 200);
    assert!(body.contains("\"total\":0"), "body: {}", body);
}

#[test]
fn list_steps_for_run() {
    let def = wf("steps-list-wf", vec![step("b", &[]), step("a", &[])]);
    let (_, steps) = start(&def, 1);
    let names = vec!["b".to_string(), "a".to_string()];
    let (code, body) = list_steps_reply("r", true, &names, &steps, 1, 0);
    assert_eq!(code, 200);
    let v: Value = serde_json::from_str(&body).unwrap();
    assert_eq!(v["total"].as_u64().unwrap(), 2);
    assert_eq!(v["items"].as_array().unwrap().len(), 2);
    assert_eq!(
        body,
        "{\"items\":[{\"name\":\"a\",\"state\":\"pending\",\"attempt\":0},{\"name\":\"b\",\"state\":\"pending\",\"attempt\":0}],\"total\":2,\"page\":1,\"limit\":50}"
    );
    let (_, body) = list_steps_reply("r", true, &names, &steps, 2, 1);
    assert_eq!(body, "{\"items\":[{\"name\":\"b\",\"state\":\"pending\",\"attempt\":0}],\"total\":2,\"page\":2,\"limit\":1}");
    let (code, body) = list_steps_reply("r", false, &names, &steps, 1, 0);
    assert_eq!((code, body.as_str()), (404, "{\"error\":\"run 'r' not found\"}"));
}

#[test]
fn not_found_returns_404() {
    assert!(matches!(route_of("GET", "/unknown"), Route::NotFound));
    assert!(matches!(route_of("POST", "/sse"), Route::NotFound));
}

#[test]
fn routes_of_the_api() {
    assert!(matches!(route_of("GET", "/sse?last_id=7"), Route::Sse(7)));
    assert!(matches!(route_of("GET", "/sse?last_id=x"), Route::Sse(0)));
    assert!(matches!(route_of("POST", "/workflows"), Route::RegisterWorkflow));
    assert!(matches!(route_of("GET", "/workflows?page=1&limit=2"), Route::ListWorkflows(1, 2)));
    assert!(matches!(route_of("GET", "/workflows?limit=2&limit=3"), Route::ListWorkflows(1, 3)));
    assert!(matches!(route_of("DELETE", "/_reset"), Route::Reset));
    assert!(matches!(route_of("POST", "/runs"), Route::StartRunFromBody));
    match route_of("POST", "/workflows/simple-job/run") {
        Route::StartRun(n) => assert_eq!(n, "simple-job"),
        r => panic!("{:?}", r),
    }
    match route_of("GET", "/workflows/filter-wf/runs?state=cancelled&page=2") {
        Route::ListRuns(n, s, p, l) => {
            assert_eq!((n.as_str(), s.as_deref(), p, l), ("filter-wf", Some("cancelled"), 2, 0));
        },
        r => panic!("{:?}", r),
    }
    assert!(matches!(route_of("GET", "/workflows/a"), Route::GetWorkflow(n) if n == "a"));
    assert!(matches!(route_of("DELETE", "/workflows/a"), Route::DeleteWorkflow(n) if n == "a"));
    assert!(matches!(route_of("PUT", "/workflows/a"), Route::NotFound));
    assert!(matches!(route_of("GET", "/runs/r1"), Route::GetRun(n) if n == "r1"));
    assert!(matches!(route_of("POST", "/runs/r1"), Route::MethodNotAllowed));
    assert!(matches!(route_of("POST", "/runs/r1/cancel"), Route::CancelRun(n) if n == "r1"));
    assert!(matches!(route_of("GET", "/runs/r1/ready-steps"), Route::ReadySteps(n) if n == "r1"));
    assert!(matches!(route_of("GET", "/runs/r1/ready"), Route::ReadySteps(n) if n == "r1"));
    assert!(matches!(route_of("GET", "/runs/r1/steps?page=3"), Route::ListSteps(n, 3, 0) if n == "r1"));
    assert!(matches!(route_of("POST", "/runs/r1/steps/s/done"), Route::StepDone(r, s) if r == "r1" && s == "s"));
    assert!(matches!(route_of("POST", "/runs/r1/steps/s/failed"), Route::StepFailed(r, s) if r == "r1" && s == "s"));
    assert!(matches!(route_of("POST", "/runs/r1/steps/s/retry"), Route::StepRetry(r, s) if r == "r1" && s == "s"));
    assert!(matches!(route_of("GET", "/runs/r1/steps/s/output"), Route::StepOutput(r, s) if r == "r1" && s == "s"));
    assert!(matches!(route_of("GET", "/runs/r1/steps/s"), Route::StepOutput(r, s) if r == "r1" && s == "s"));
    assert!(matches!(route_of("POST", "/runs/r1/steps/s/sub-run"), Route::LinkSubRun(r, s) if r == "r1" && s == "s"));
    assert!(matches!(route_of("POST", "/runs/r1/steps/s/other"), Route::NotFound));
    assert!(matches!(route_of("POST", "/events/e/subscribe"), Route::Subscribe(n) if n == "e"));
    assert!(matches!(route_of("POST", "/events/e/unsubscribe"), Route::Unsubscribe(n) if n == "e"));
    assert!(matches!(route_of("POST", "/events/e/emit"), Route::Emit(n) if n == "e"));
    assert!(matches!(route_of("GET", "/events/e/subscribers"), Route::Subscribers(n) if n == "e"));
    assert!(matches!(route_of("DELETE", "/events/order.placed/subscribe/handle-order"),
        Route::UnsubscribeNamed(e, f) if e == "order.placed" && f == "handle-order"));
    assert!(matches!(route_of("GET", "/events"), Route::ListEvents));
}

#[test]
fn failure_fits_only_where_a_retry_is_computed() {
    // The last attempt fails the step without computing a delay, so a huge base is fine.
    let mut last = step("run", &[]);
    last.base_delay_ms = u64::MAX;
    let def = wf("w", vec![last]);
    let (_, steps) = start(&def, 1);
    assert!(failure_fits(&def, &steps, &"run".to_string(), u64::MAX));
    // With attempts left, the delay must fit and so must the time it gives.
    let mut retried = step("run", &[]);
    retried.max_attempts = 3;
    retried.base_delay_ms = u64::MAX;
    let def = wf("w", vec![retried]);
    assert!(!failure_fits(&def, &steps, &"run".to_string(), 0));
    let mut small = step("run", &[]);
    small.max_attempts = 3;
    small.base_delay_ms = 100;
    let def = wf("w", vec![small]);
    assert!(failure_fits(&def, &steps, &"run".to_string(), u64::MAX - 200));
    assert!(!failure_fits(&def, &steps, &"run".to_string(), u64::MAX - 199));
    // An unknown step has no record to fail.
    assert!(failure_fits(&def, &steps, &"ghost".to_string(), u64::MAX));
}

#[test]
fn expiry_fits_only_for_timed_out_steps() {
    let mut slow = step("run", &[]);
    slow.max_attempts = 3;
    slow.base_delay_ms = u64::MAX;
    slow.timeout_ms = Some(1_000);
    let def = wf("w", vec![slow]);
    let (_, mut steps) = start(&def, 1);
    // Not started: nothing times out.
    assert!(expiry_fits(&def, &steps, 1_000_000));
    let mut rec = steps.get(&"run".to_string()).unwrap().clone();
    rec.state = "running".to_string();
    rec.started_at_ms = Some(0);
    steps.insert("run".to_string(), rec);
    assert!(expiry_fits(&def, &steps, 1_000));
    assert!(!expiry_fits(&def, &steps, 1_001));
    let children: KeyedStore<(String, String)> = KeyedStore::new();
    assert!(children_fit(&steps, &children));
    assert!(sub_step_fits(&steps, &"run".to_string(), &"succeeded".to_string()));
}

#[test]
fn sse_frame_layout() {
    assert_eq!(wasmcloud_utils::workflow::sse_frame(7, "{\"a\":1}"), "id: 7\ndata: {\"a\":1}\n\n");
    assert_eq!(wasmcloud_utils::workflow::sse_frame(0, ""), "id: 0\ndata: \n\n");
}
