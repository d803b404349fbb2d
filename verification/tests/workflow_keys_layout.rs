use wasmcloud_utils::workflow_keys::{
    def_key, event_key, names_under, page_of, run_key, step_key, step_prefix, sub_run_key,
};

#[test]
fn record_keys_follow_the_layout() {
    assert_eq!(def_key("order"), "wf-def.order");
    assert_eq!(run_key("r1"), "wf-run.r1");
    assert_eq!(step_key("r1", "charge"), "step.r1.charge");
    assert_eq!(event_key("paid"), "evt.paid");
    assert_eq!(sub_run_key("r1", "child"), "sub-run.r1.child");
    assert_eq!(step_prefix("r1"), "step.r1.");
}

#[test]
fn names_under_prefix_are_stripped_and_sorted() {
    let keys = vec![
        "wf-def.zeta".to_string(),
        "wf-run.r1".to_string(),
        "wf-def.alpha".to_string(),
        "wf-def.mid".to_string(),
    ];
    assert_eq!(
        names_under(&keys, "wf-def."),
        vec!["alpha".to_string(), "mid".to_string(), "zeta".to_string()]
    );
    assert!(names_under(&keys, "evt.").is_empty());
}

#[test]
fn pages_split_a_listing() {
    let names: Vec<String> = (0..5).map(|i| format!("n{}", i)).collect();
    assert_eq!(page_of(names.clone(), 1, 2), vec!["n0".to_string(), "n1".to_string()]);
    assert_eq!(page_of(names.clone(), 3, 2), vec!["n4".to_string()]);
    assert!(page_of(names.clone(), 4, 2).is_empty());
    // page 0 counts as page 1, limit 0 as 50
    assert_eq!(page_of(names.clone(), 0, 0).len(), 5);
}
