use wasmcloud_utils::batch::{
    self, BatchError, BatchItem, BatchState, BatchWindow, ItemResult, WindowState,
};

fn item(id: &str, at: u64) -> BatchItem {
    BatchItem { id: id.to_string(), payload: id.as_bytes().to_vec(), enqueued_at_ms: at }
}

#[test]
fn test_open_and_enqueue() {
    let mut s = BatchState::new();
    batch::open(&mut s, "q1", 10, 0).unwrap();
    batch::enqueue(&mut s, "q1", item("a", 1000)).unwrap();
    batch::enqueue(&mut s, "q1", item("b", 1001)).unwrap();
    assert_eq!(batch::pending_count(&s, "q1").unwrap(), 2);
}

#[test]
fn test_flush_returns_items_in_order() {
    let mut s = BatchState::new();
    batch::open(&mut s, "q2", 0, 0).unwrap();
    batch::enqueue(&mut s, "q2", item("x", 0)).unwrap();
    batch::enqueue(&mut s, "q2", item("y", 0)).unwrap();
    let items = batch::flush(&mut s, "q2", 5000).unwrap();
    assert_eq!(items.len(), 2);
    assert_eq!(items[0].id, "x");
    assert_eq!(items[1].id, "y");
}

#[test]
fn test_flush_closes_window() {
    let mut s = BatchState::new();
    batch::open(&mut s, "q3", 0, 0).unwrap();
    batch::enqueue(&mut s, "q3", item("a", 0)).unwrap();
    batch::flush(&mut s, "q3", 0).unwrap();
    assert_eq!(batch::flush(&mut s, "q3", 0).unwrap_err(), BatchError::BatchClosed);
}

#[test]
fn test_flush_empty_batch_fails() {
    let mut s = BatchState::new();
    batch::open(&mut s, "q4", 0, 0).unwrap();
    assert_eq!(batch::flush(&mut s, "q4", 0).unwrap_err(), BatchError::EmptyBatch);
}

#[test]
fn test_size_trigger() {
    let mut s = BatchState::new();
    batch::open(&mut s, "q5", 3, 0).unwrap();
    assert!(!batch::is_due(&s, "q5", 0).unwrap());
    batch::enqueue(&mut s, "q5", item("a", 0)).unwrap();
    batch::enqueue(&mut s, "q5", item("b", 0)).unwrap();
    assert!(!batch::is_due(&s, "q5", 0).unwrap());
    batch::enqueue(&mut s, "q5", item("c", 0)).unwrap();
    assert!(batch::is_due(&s, "q5", 0).unwrap());
}

#[test]
fn test_age_trigger() {
    let mut s = BatchState::new();
    batch::open(&mut s, "q6", 0, 500).unwrap();
    batch::enqueue(&mut s, "q6", item("a", 1000)).unwrap();
    assert!(!batch::is_due(&s, "q6", 1000).unwrap());
    assert!(!batch::is_due(&s, "q6", 1499).unwrap());
    assert!(batch::is_due(&s, "q6", 1500).unwrap());
}

#[test]
fn test_due_batches() {
    let mut s = BatchState::new();
    batch::open(&mut s, "qa", 2, 0).unwrap();
    batch::open(&mut s, "qb", 2, 0).unwrap();
    batch::enqueue(&mut s, "qa", item("1", 0)).unwrap();
    batch::enqueue(&mut s, "qa", item("2", 0)).unwrap();
    batch::enqueue(&mut s, "qb", item("1", 0)).unwrap();
    let due = batch::due_batches(&s, 0).unwrap();
    assert!(due.contains(&"qa".to_string()));
    assert!(!due.contains(&"qb".to_string()));
}

#[test]
fn test_record_results_summary() {
    let mut s = BatchState::new();
    batch::open(&mut s, "qr", 0, 0).unwrap();
    batch::enqueue(&mut s, "qr", item("a", 0)).unwrap();
    batch::enqueue(&mut s, "qr", item("b", 0)).unwrap();
    batch::enqueue(&mut s, "qr", item("c", 0)).unwrap();
    batch::flush(&mut s, "qr", 9000).unwrap();
    let summary = batch::record_results(
        &mut s,
        "qr",
        vec![
            ItemResult { id: "a".into(), ok: true, detail: None },
            ItemResult { id: "b".into(), ok: false, detail: Some("timeout".into()) },
            ItemResult { id: "c".into(), ok: true, detail: None },
        ],
    )
    .unwrap();
    assert_eq!(summary.total, 3);
    assert_eq!(summary.succeeded, 2);
    assert_eq!(summary.failed, 1);
    assert_eq!(summary.flushed_at_ms, 9000);
}

#[test]
fn test_discard() {
    let mut s = BatchState::new();
    batch::open(&mut s, "qd", 0, 0).unwrap();
    batch::enqueue(&mut s, "qd", item("a", 0)).unwrap();
    batch::discard(&mut s, "qd").unwrap();
    assert_eq!(batch::pending_count(&s, "qd").unwrap(), 0);
    assert_eq!(batch::flush(&mut s, "qd", 0).unwrap_err(), BatchError::BatchClosed);
}

#[test]
fn test_enqueue_after_flush_fails() {
    let mut s = BatchState::new();
    batch::open(&mut s, "qe", 0, 0).unwrap();
    batch::enqueue(&mut s, "qe", item("a", 0)).unwrap();
    batch::flush(&mut s, "qe", 0).unwrap();
    assert_eq!(batch::enqueue(&mut s, "qe", item("b", 0)).unwrap_err(), BatchError::BatchClosed);
}

#[test]
fn test_duplicate_open() {
    let mut s = BatchState::new();
    batch::open(&mut s, "qdupe", 0, 0).unwrap();
    assert_eq!(batch::open(&mut s, "qdupe", 0, 0).unwrap_err(), BatchError::DuplicateBatch);
}

#[test]
fn test_close_removes_batch() {
    let mut s = BatchState::new();
    batch::open(&mut s, "qclose", 0, 0).unwrap();
    batch::close(&mut s, "qclose").unwrap();
    assert_eq!(batch::pending_count(&s, "qclose").unwrap_err(), BatchError::NotFound);
}

#[test]
fn test_invalid_item_id() {
    let mut s = BatchState::new();
    batch::open(&mut s, "qinv", 0, 0).unwrap();
    assert_eq!(
        batch::enqueue(&mut s, "qinv", BatchItem { id: "".into(), payload: vec![], enqueued_at_ms: 0 })
            .unwrap_err(),
        BatchError::InvalidId
    );
}

#[test]
fn batch_names_are_trimmed_and_blank_refused() {
    let mut s = BatchState::new();
    batch::open(&mut s, "  padded  ", 1, 0).unwrap();
    assert_eq!(batch::pending_count(&s, "padded").unwrap(), 0);
    assert_eq!(batch::open(&mut s, "   ", 1, 0).unwrap_err(), BatchError::InvalidId);
    assert_eq!(batch::open(&mut s, "padded", 1, 0).unwrap_err(), BatchError::DuplicateBatch);
    assert_eq!(batch::enqueue(&mut s, "missing", item("a", 0)).unwrap_err(), BatchError::NotFound);
    assert_eq!(batch::flush(&mut s, "missing", 0).unwrap_err(), BatchError::NotFound);
    assert_eq!(batch::discard(&mut s, "missing").unwrap_err(), BatchError::NotFound);
    assert_eq!(batch::close(&mut s, "missing").unwrap_err(), BatchError::NotFound);
    assert_eq!(batch::is_due(&s, "missing", 0).unwrap_err(), BatchError::NotFound);
    assert_eq!(batch::record_results(&mut s, "missing", vec![]).unwrap_err(), BatchError::NotFound);
}

#[test]
fn batch_window_due_rules() {
    // a flushed window is never due, whatever its size or age
    let mut w = BatchWindow::new(1, 10);
    w.first_enqueue_ms = Some(0);
    w.items.push(item("a", 0));
    assert!(w.is_due(0));
    w.state = WindowState::Flushed;
    assert!(!w.is_due(1_000_000));
    // a clock that runs behind the first item never makes it due by age
    let mut w2 = BatchWindow::new(0, 10);
    w2.first_enqueue_ms = Some(100);
    assert!(!w2.is_due(50));
    assert!(w2.is_due(110));
    // both limits off: never due
    let mut w3 = BatchWindow::new(0, 0);
    w3.first_enqueue_ms = Some(0);
    w3.items.push(item("a", 0));
    assert!(!w3.is_due(u64::MAX));
}

#[test]
fn batch_first_enqueue_time_is_kept() {
    let mut s = BatchState::new();
    batch::open(&mut s, "qt", 0, 100).unwrap();
    batch::enqueue(&mut s, "qt", item("a", 1000)).unwrap();
    batch::enqueue(&mut s, "qt", item("b", 1090)).unwrap();
    assert!(batch::is_due(&s, "qt", 1100).unwrap());
    let summary = batch::record_results(&mut s, "qt", vec![]).unwrap();
    assert_eq!((summary.total, summary.succeeded, summary.failed, summary.flushed_at_ms), (0, 0, 0, 0));
}
