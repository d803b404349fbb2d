use wasmcloud_utils::workflow::{
    events_since, is_yaml_content_type, sse_push, validate_workflow, Condition, SseRing, StepDef,
    WorkflowDef,
};

fn step(name: &str, deps: &[&str], max_attempts: u32) -> StepDef {
    StepDef {
        name: name.to_string(),
        depends_on: deps.iter().map(|d| d.to_string()).collect(),
        max_attempts,
        base_delay_ms: 0,
        timeout_ms: None,
        sub_workflow: None,
        optional: false,
        condition: None,
    }
}

fn wf(name: &str, steps: Vec<StepDef>) -> WorkflowDef {
    WorkflowDef { name: name.to_string(), description: None, timeout_ms: None, triggers: vec![], steps }
}

#[test]
fn content_type_detection() {
    assert!(is_yaml_content_type("application/yaml"));
    assert!(is_yaml_content_type("application/x-yaml"));
    assert!(is_yaml_content_type("text/yaml"));
    assert!(is_yaml_content_type("text/x-yaml"));
    assert!(is_yaml_content_type("application/yaml; charset=utf-8"));
    assert!(!is_yaml_content_type("application/json"));
    assert!(!is_yaml_content_type("text/plain"));
    assert!(!is_yaml_content_type(""));
}

#[test]
fn validate_ok_minimal() {
    assert!(validate_workflow(&wf("simple-job", vec![step("run", &[], 1)])).is_ok());
}

#[test]
fn validate_empty_name() {
    let e = validate_workflow(&wf("", vec![step("s", &[], 1)])).unwrap_err();
    assert_eq!(e, "name must not be empty");
}

#[test]
fn validate_invalid_name_chars() {
    let e = validate_workflow(&wf("bad name!", vec![step("s", &[], 1)])).unwrap_err();
    assert_eq!(e, "name 'bad name!' contains invalid characters (only alphanumeric, '-', '_' allowed)");
}

#[test]
fn validate_duplicate_step() {
    let e = validate_workflow(&wf("wf", vec![step("a", &[], 1), step("a", &[], 1)])).unwrap_err();
    assert_eq!(e, "duplicate step name 'a'");
}

#[test]
fn validate_unknown_dep() {
    let e = validate_workflow(&wf("wf", vec![step("a", &["ghost"], 1)])).unwrap_err();
    assert_eq!(e, "step 'a' depends on unknown step 'ghost'");
}

#[test]
fn validate_cycle() {
    let e = validate_workflow(&wf("wf", vec![step("a", &["b"], 1), step("b", &["a"], 1)])).unwrap_err();
    assert_eq!(e, "dependency cycle detected involving step 'a'");
}

#[test]
fn validate_max_attempts_zero() {
    let e = validate_workflow(&wf("wf", vec![step("a", &[], 0)])).unwrap_err();
    assert_eq!(e, "step 'a' max_attempts must be >= 1");
}

#[test]
fn workflow_validation_order_and_other_rules() {
    assert_eq!(validate_workflow(&wf("wf", vec![])).unwrap_err(), "workflow must have at least one step");
    assert_eq!(validate_workflow(&wf("wf", vec![step("", &[], 1)])).unwrap_err(), "step name must not be empty");

    let mut s = step("a", &[], 1);
    s.timeout_ms = Some(0);
    assert_eq!(validate_workflow(&wf("wf", vec![s])).unwrap_err(), "step 'a' timeout_ms must be > 0");

    let mut w = wf("wf", vec![step("a", &[], 1)]);
    w.timeout_ms = Some(0);
    assert_eq!(validate_workflow(&w).unwrap_err(), "timeout_ms must be > 0");

    let mut s = step("a", &[], 1);
    s.sub_workflow = Some(String::new());
    assert_eq!(validate_workflow(&wf("wf", vec![s])).unwrap_err(), "step 'a' sub_workflow must not be empty");

    let mut s = step("a", &[], 1);
    s.sub_workflow = Some("x y".to_string());
    assert_eq!(validate_workflow(&wf("wf", vec![s])).unwrap_err(), "step 'a' sub_workflow 'x y' contains invalid characters");

    let mut s = step("a", &[], 1);
    s.condition = Some(Condition { on_step: "nope".to_string(), equals: serde_json::Value::Null });
    assert_eq!(validate_workflow(&wf("wf", vec![s])).unwrap_err(), "step 'a' condition references unknown step 'nope'");

    // An unknown dependency is reported before a zero attempt count.
    let e = validate_workflow(&wf("wf", vec![step("a", &[], 0), step("b", &["zz"], 1)])).unwrap_err();
    assert_eq!(e, "step 'b' depends on unknown step 'zz'");

    // A longer chain with a back edge: the step closing the cycle is named.
    let e = validate_workflow(&wf(
        "wf",
        vec![step("a", &[], 1), step("b", &["a", "d"], 1), step("c", &["b"], 1), step("d", &["c"], 1)],
    ))
    .unwrap_err();
    assert_eq!(e, "dependency cycle detected involving step 'b'");

    // A diamond has no cycle.
    assert!(validate_workflow(&wf(
        "order-pipeline",
        vec![step("v", &[], 3), step("l", &["v"], 1), step("r", &["v"], 1), step("j", &["l", "r"], 1)],
    ))
    .is_ok());
}

#[test]
fn workflow_sse_ring() {
    let mut ring = SseRing::new();
    for i in 0..205u64 {
        sse_push(&mut ring, "run.state", "r1", Some("wf"), None, "running", i);
    }
    assert_eq!(ring.events.len(), 200);
    assert_eq!(ring.events[0].seq, 6);
    assert_eq!(ring.seq, 205);
    let recent = events_since(&ring, 203);
    assert_eq!(recent.len(), 2);
    assert_eq!(recent[0].seq, 204);
    assert_eq!(recent[1].wf_name.as_deref(), Some("wf"));
}
