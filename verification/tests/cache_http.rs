use wasmcloud_utils::cache;
use wasmcloud_utils::cache::{build_cache_key, get, has_cache_control, http_lookup, CacheAnswer, CacheState};

#[test]
fn test_build_cache_key_get() {
    assert_eq!(build_cache_key("GET", "/api/items", None), Some("get:/api/items".to_string()));
}

#[test]
fn test_build_cache_key_with_query_sorted() {
    let key = build_cache_key("GET", "/search", Some("b=2&a=1")).unwrap();
    assert!(key.contains("a=1&b=2"), "query params should be sorted: {}", key);
}

#[test]
fn test_build_cache_key_non_get_returns_none() {
    assert!(build_cache_key("POST", "/api", None).is_none());
    assert!(build_cache_key("DELETE", "/api", None).is_none());
}

#[test]
fn test_has_cache_control() {
    let headers = vec![("cache-control".to_string(), b"no-cache, max-age=0".to_vec())];
    assert!(has_cache_control(&headers, "no-cache"));
    assert!(!has_cache_control(&headers, "no-store"));
}

#[test]
fn cache_key_exact_forms() {
    assert_eq!(build_cache_key("get", "/p", Some("")), Some("get:/p".to_string()));
    assert_eq!(build_cache_key("Get", "/p", Some("z=1&y=2&x")), Some("get:/p?x&y=2&z=1".to_string()));
}

#[test]
fn cache_control_case_and_spacing() {
    let headers = vec![
        ("X-Other".to_string(), b"no-store".to_vec()),
        ("Cache-Control".to_string(), b"max-age=0 ,  NO-STORE".to_vec()),
    ];
    assert!(has_cache_control(&headers, "no-store"));
    assert!(!has_cache_control(&headers, "no-cache"));
}

#[test]
fn test_http_miss_then_hit_logic() {
    let mut c = CacheState::new();
    let key = build_cache_key("GET", "/v1/data", None).unwrap();
    assert!(get(&mut c, &key, 0).unwrap().is_none());
    cache::set(&mut c, &key, b"response body".to_vec(), Some(60_000), 0).unwrap();
    let hit = get(&mut c, &key, 0).unwrap();
    assert!(hit.is_some());
    assert_eq!(hit.unwrap().value, b"response body");
}

#[test]
fn http_lookup_hit_miss_and_no_cache() {
    let mut s = CacheState::new();
    // nothing cached yet
    assert!(matches!(http_lookup(&mut s, "Get", "/items?b=2&a=1", &[], 0), CacheAnswer::Miss));
    cache::set(&mut s, "get:/items?a=1&b=2", b"cached".to_vec(), None, 1_000).unwrap();
    match http_lookup(&mut s, "Get", "/items?b=2&a=1", &[], 4_500) {
        CacheAnswer::Hit { body, age_secs } => {
            assert_eq!(body, b"cached");
            assert_eq!(age_secs, 3);
        }
        other => panic!("expected a hit, got {:?}", other),
    }
    let no_cache = vec![("Cache-Control".to_string(), b"no-cache".to_vec())];
    assert!(matches!(http_lookup(&mut s, "GET", "/items?a=1&b=2", &no_cache, 4_500), CacheAnswer::Miss));
    assert!(matches!(http_lookup(&mut s, "Post", "/items?a=1&b=2", &[], 4_500), CacheAnswer::Miss));
    // a clock behind the entry gives age 0
    match http_lookup(&mut s, "GET", "/items?a=1&b=2", &[], 10) {
        CacheAnswer::Hit { age_secs, .. } => assert_eq!(age_secs, 0),
        other => panic!("expected a hit, got {:?}", other),
    }
    // two hits counted
    assert_eq!(cache::get(&mut s, "get:/items?a=1&b=2", 5_000).unwrap().unwrap().hit_count, 3);
}
