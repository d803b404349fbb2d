use std::cell::RefCell;
use std::collections::HashMap;
use wasmcloud_utils::workflow_api::{
    handle_delete_workflow, handle_event_emit, handle_event_subscribe, handle_event_unsubscribe, handle_get_run,
    handle_get_workflow, handle_list_events, handle_list_workflows, handle_reset, name_array, page_body,
    with_subscriber, without_subscriber, StoreBackend,
};

struct MemStore {
    defs: RefCell<HashMap<String, Vec<u8>>>,
    runs: RefCell<HashMap<String, Vec<u8>>>,
    steps: RefCell<HashMap<(String, String), Vec<u8>>>,
    events: RefCell<HashMap<String, Vec<String>>>,
    links: RefCell<HashMap<(String, String), String>>,
}

impl MemStore {
    fn new() -> Self {
        MemStore {
            defs: RefCell::new(HashMap::new()),
            runs: RefCell::new(HashMap::new()),
            steps: RefCell::new(HashMap::new()),
            events: RefCell::new(HashMap::new()),
            links: RefCell::new(HashMap::new()),
        }
    }
}

impl StoreBackend for MemStore {
    fn put_workflow_def(&self, name: &str, json: &[u8]) -> Result<(), String> {
        self.defs.borrow_mut().insert(name.to_string(), json.to_vec());
        Ok(())
    }
    fn get_workflow_def(&self, name: &str) -> Option<Vec<u8>> {
        self.defs.borrow().get(name).cloned()
    }
    fn delete_workflow_def(&self, name: &str) {
        self.defs.borrow_mut().remove(name);
    }
    fn list_workflow_names(&self, page: u32, limit: u32) -> Vec<String> {
        let mut names: Vec<String> = self.defs.borrow().keys().cloned().collect();
        names.sort();
        let limit = if limit == 0 || limit == u32::MAX { names.len() } else { limit as usize };
        let start = ((page.max(1) - 1) as usize) * limit;
        names.into_iter().skip(start).take(limit).collect()
    }
    fn put_run(&self, run_id: &str, json: &[u8]) -> Result<(), String> {
        self.runs.borrow_mut().insert(run_id.to_string(), json.to_vec());
        Ok(())
    }
    fn get_run(&self, run_id: &str) -> Option<Vec<u8>> {
        self.runs.borrow().get(run_id).cloned()
    }
    fn list_runs(&self, _wf_name: &str, _state_filter: Option<&str>, _page: u32, _limit: u32) -> Vec<Vec<u8>> {
        self.runs.borrow().values().cloned().collect()
    }
    fn put_step(&self, run_id: &str, step_name: &str, json: &[u8]) -> Result<(), String> {
        self.steps.borrow_mut().insert((run_id.to_string(), step_name.to_string()), json.to_vec());
        Ok(())
    }
    fn get_step(&self, run_id: &str, step_name: &str) -> Option<Vec<u8>> {
        self.steps.borrow().get(&(run_id.to_string(), step_name.to_string())).cloned()
    }
    fn list_step_names(&self, run_id: &str) -> Vec<String> {
        let mut names: Vec<String> =
            self.steps.borrow().keys().filter(|(r, _)| r == run_id).map(|(_, s)| s.clone()).collect();
        names.sort();
        names
    }
    fn put_event_subs(&self, event_name: &str, subs: Vec<String>) {
        self.events.borrow_mut().insert(event_name.to_string(), subs);
    }
    fn get_event_subs(&self, event_name: &str) -> Vec<String> {
        self.events.borrow().get(event_name).cloned().unwrap_or_default()
    }
    fn list_event_names(&self) -> Vec<String> {
        let mut names: Vec<String> = self.events.borrow().keys().cloned().collect();
        names.sort();
        names
    }
    fn put_sub_run_link(&self, parent_run_id: &str, step_name: &str, child_run_id: &str) {
        self.links.borrow_mut().insert((parent_run_id.to_string(), step_name.to_string()), child_run_id.to_string());
    }
    fn get_sub_run_link(&self, parent_run_id: &str, step_name: &str) -> Option<String> {
        self.links.borrow().get(&(parent_run_id.to_string(), step_name.to_string())).cloned()
    }
}

#[test]
fn get_missing_workflow() {
    let store = MemStore::new();
    let (s, body) = handle_get_workflow("nope", &store);
    assert_eq!(s, 404);
    assert_eq!(body, r#"{"error":"workflow 'nope' not found"}"#);
}

#[test]
fn delete_workflow() {
    let store = MemStore::new();
    store.put_workflow_def("simple-job", br#"{"name":"simple-job"}"#).unwrap();
    let (s, body) = handle_get_workflow("simple-job", &store);
    assert_eq!(s, 200);
    assert!(body.contains("simple-job"));
    let (s, body) = handle_delete_workflow("simple-job", &store);
    assert_eq!((s, body.as_str()), (204, ""));
    let (s, _) = handle_get_workflow("simple-job", &store);
    assert_eq!(s, 404);
}

#[test]
fn list_workflows_paginated() {
    let store = MemStore::new();
    for i in 1..=5 {
        store.put_workflow_def(&format!("pag-wf-{}", i), b"{}").unwrap();
    }
    let (status, body) = handle_list_workflows(1, 2, &store);
    assert_eq!(status, 200);
    assert_eq!(body, r#"{"items":["pag-wf-1","pag-wf-2"],"total":5,"page":1,"limit":2}"#);
    let (_, body) = handle_list_workflows(0, 0, &store);
    assert!(body.contains("\"page\":1"));
    assert!(body.contains("\"limit\":50"));
    assert!(body.contains("\"total\":5"));
}

#[test]
fn event_subscribe_emit_unsubscribe() {
    let store = MemStore::new();
    let (s, _) = handle_event_subscribe("order.placed", Ok("handle-order".to_string()), &store);
    assert_eq!(s, 204);
    let (s, body) = handle_event_emit("order.placed", br#"{"payload":[]}"#, "application/json", &store);
    assert_eq!(s, 200);
    assert!(body.contains("handle-order"));
    let (s, _) = handle_event_unsubscribe("order.placed", "handle-order", &store);
    assert_eq!(s, 204);
    let (_, body) = handle_event_emit("order.placed", &[], "application/json", &store);
    assert!(!body.contains("handle-order"));
}

#[test]
fn list_events() {
    let store = MemStore::new();
    handle_event_subscribe("order.placed", Ok("f".to_string()), &store);
    handle_event_subscribe("order.shipped", Ok("g".to_string()), &store);
    let (s, body) = handle_list_events(&store);
    assert_eq!(s, 200);
    assert_eq!(body, r#"["order.placed","order.shipped"]"#);
}

#[test]
fn event_subscribe_twice_and_bad_body() {
    let store = MemStore::new();
    handle_event_subscribe("e", Ok("f".to_string()), &store);
    handle_event_subscribe("e", Ok("f".to_string()), &store);
    assert_eq!(store.get_event_subs("e"), vec!["f".to_string()]);
    let (s, body) = handle_event_subscribe("e", Err("missing field `fn_name`".to_string()), &store);
    assert_eq!(s, 400);
    assert_eq!(body, r#"{"error":"missing field `fn_name`"}"#);
}

#[test]
fn get_run_and_reset() {
    let store = MemStore::new();
    let (s, body) = handle_get_run("r1", &store);
    assert_eq!((s, body.as_str()), (404, r#"{"error":"run 'r1' not found"}"#));
    store.put_run("r1", br#"{"state":"running"}"#).unwrap();
    let (s, body) = handle_get_run("r1", &store);
    assert_eq!((s, body.as_str()), (200, r#"{"state":"running"}"#));
    store.put_workflow_def("a", b"{}").unwrap();
    handle_event_subscribe("e", Ok("f".to_string()), &store);
    let (s, _) = handle_reset(&store);
    assert_eq!(s, 204);
    assert!(store.get_workflow_def("a").is_none());
    assert!(store.get_event_subs("e").is_empty());
    assert!(store.get_run("r1").is_some());
}

#[test]
fn json_helpers() {
    assert_eq!(name_array(&vec![]), "[]");
    assert_eq!(name_array(&vec!["a".to_string(), "b".to_string()]), r#"["a","b"]"#);
    assert_eq!(page_body(&vec![], 0, 1, 50), r#"{"items":[],"total":0,"page":1,"limit":50}"#);
    assert_eq!(with_subscriber(vec!["a".to_string()], &"a".to_string()), None);
    assert_eq!(
        with_subscriber(vec!["a".to_string()], &"b".to_string()),
        Some(vec!["a".to_string(), "b".to_string()])
    );
    assert_eq!(
        without_subscriber(&vec!["a".to_string(), "b".to_string(), "a".to_string()], "a"),
        vec!["b".to_string()]
    );
}
