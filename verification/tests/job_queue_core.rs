use wasmcloud_utils::job_queue::next_delay_ms;

#[test]
fn test_backoff_exponential() {
    assert_eq!(next_delay_ms(100, 1), 100);
    assert_eq!(next_delay_ms(100, 2), 200);
    assert_eq!(next_delay_ms(100, 3), 400);
    assert_eq!(next_delay_ms(100, 10), 51_200);
    assert_eq!(next_delay_ms(100, 20), 60_000);
}
