use wasmcloud_utils::cache;
use wasmcloud_utils::cache::{delete, flush, get, key_exists, CacheError, CacheState};

#[test]
fn test_set_and_get() {
    let mut c = CacheState::new();
    cache::set(&mut c, "hello", b"world".to_vec(), None, 1000).unwrap();
    let entry = get(&mut c, "hello", 2000).unwrap().unwrap();
    assert_eq!(entry.value, b"world");
    assert_eq!(entry.hit_count, 1);
}

#[test]
fn test_key_normalisation() {
    let mut c = CacheState::new();
    cache::set(&mut c, "  UPPER  ", b"v".to_vec(), None, 0).unwrap();
    assert!(get(&mut c, "upper", 0).unwrap().is_some());
}

#[test]
fn test_invalid_key() {
    let mut c = CacheState::new();
    assert_eq!(cache::set(&mut c, "", b"v".to_vec(), None, 0).unwrap_err(), CacheError::InvalidKey);
    assert_eq!(cache::set(&mut c, "   ", b"v".to_vec(), None, 0).unwrap_err(), CacheError::InvalidKey);
    assert_eq!(get(&mut c, "", 0).unwrap_err(), CacheError::InvalidKey);
}

#[test]
fn test_ttl_expiry() {
    let mut c = CacheState::new();
    cache::set(&mut c, "ttl_key", b"data".to_vec(), Some(100), 1000).unwrap();
    assert!(get(&mut c, "ttl_key", 1050).unwrap().is_some());
    assert!(get(&mut c, "ttl_key", 1100).unwrap().is_none());
}

#[test]
fn test_delete() {
    let mut c = CacheState::new();
    cache::set(&mut c, "del_key", b"bye".to_vec(), None, 0).unwrap();
    assert!(get(&mut c, "del_key", 0).unwrap().is_some());
    delete(&mut c, "del_key").unwrap();
    assert!(get(&mut c, "del_key", 0).unwrap().is_none());
}

#[test]
fn test_exists() {
    let mut c = CacheState::new();
    cache::set(&mut c, "exists_key", b"yes".to_vec(), None, 0).unwrap();
    assert!(key_exists(&mut c, "exists_key", 0).unwrap());
    assert!(!key_exists(&mut c, "nonexistent_key", 0).unwrap());
}

#[test]
fn test_flush_evicts_expired() {
    let mut c = CacheState::new();
    cache::set(&mut c, "flush_a", b"1".to_vec(), Some(50), 0).unwrap();
    cache::set(&mut c, "flush_b", b"2".to_vec(), Some(50), 0).unwrap();
    cache::set(&mut c, "flush_c", b"3".to_vec(), None, 0).unwrap();
    let evicted = flush(&mut c, 100).unwrap();
    assert_eq!(evicted, 2);
    assert!(get(&mut c, "flush_c", 100).unwrap().is_some());
}

#[test]
fn test_overwrite() {
    let mut c = CacheState::new();
    cache::set(&mut c, "ow_key", b"first".to_vec(), None, 0).unwrap();
    cache::set(&mut c, "ow_key", b"second".to_vec(), None, 0).unwrap();
    let entry = get(&mut c, "ow_key", 0).unwrap().unwrap();
    assert_eq!(entry.value, b"second");
}

#[test]
fn hit_count_grows_with_each_lookup() {
    let mut c = CacheState::new();
    cache::set(&mut c, "hits", b"x".to_vec(), None, 0).unwrap();
    get(&mut c, "hits", 0).unwrap();
    get(&mut c, "hits", 0).unwrap();
    assert_eq!(get(&mut c, "hits", 0).unwrap().unwrap().hit_count, 3);
}

#[test]
fn expired_entry_is_evicted_by_lookup() {
    let mut c = CacheState::new();
    cache::set(&mut c, "gone", b"x".to_vec(), Some(10), 0).unwrap();
    assert!(get(&mut c, "gone", 10).unwrap().is_none());
    assert_eq!(flush(&mut c, 1000).unwrap(), 0);
}
