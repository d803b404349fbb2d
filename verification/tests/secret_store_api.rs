use base64::Engine;
use wasmcloud_utils::secret_store::{
    self, admin_get, admin_rotate, admin_set, core_delete, core_get, core_init, core_list_names, core_metadata,
    core_rotate, core_set, dispatch, init_state, parse_path, secret_err_to_status, secret_keys, Reply, SecretsState,
};
use wasmcloud_utils::secrets::{kv_data_key, kv_meta_key, SecretError, SecretMetadata, SecretValue, SecretsConfig};

fn key_b64(b: u8) -> String {
    base64::engine::general_purpose::STANDARD.encode([b; 32])
}

fn kv_config(ns: Option<&str>, key: Option<String>) -> SecretsConfig {
    SecretsConfig { backend: "kv".to_string(), namespace: ns.map(|s| s.to_string()), encryption_key: key }
}

fn ready(ns: Option<&str>) -> SecretsState {
    let mut s = SecretsState::new();
    core_init(&mut s, kv_config(ns, Some(key_b64(0)))).unwrap();
    s
}

#[test]
fn init_invalid_backend_rejected() {
    let mut s = SecretsState::new();
    assert_eq!(
        core_init(&mut s, SecretsConfig { backend: "invalid".to_string(), namespace: None, encryption_key: None }),
        Err(SecretError::InvalidConfig)
    );
    assert!(s.config.is_none());
}

#[test]
fn init_kv_accepted() {
    let mut s = SecretsState::new();
    assert!(core_init(&mut s, kv_config(Some("test"), Some(key_b64(0)))).is_ok());
    assert!(s.config.is_some());
}

#[test]
fn init_needs_a_key_for_the_component_only() {
    let mut s = SecretsState::new();
    assert_eq!(core_init(&mut s, kv_config(None, None)), Err(SecretError::InvalidConfig));
    assert!(init_state(&mut s, kv_config(None, None)).is_ok());
    assert_eq!(
        init_state(&mut s, SecretsConfig { backend: "vault".to_string(), namespace: None, encryption_key: None }),
        Err(SecretError::InvalidConfig)
    );
}

#[test]
fn parse_path_list() {
    let (name, action) = parse_path("/secrets");
    assert!(name.is_none());
    assert_eq!(action, "list");
}

#[test]
fn parse_path_resource() {
    let (name, action) = parse_path("/secrets/my-db-pass");
    assert_eq!(name.as_deref(), Some("my-db-pass"));
    assert_eq!(action, "resource");
}

#[test]
fn parse_path_rotate() {
    let (name, action) = parse_path("/secrets/my-db-pass/rotate");
    assert_eq!(name.as_deref(), Some("my-db-pass"));
    assert_eq!(action, "rotate");
}

#[test]
fn parse_path_other_forms() {
    assert_eq!(parse_path("///secrets").1, "list");
    assert_eq!(parse_path("secrets/x").0.as_deref(), Some("x"));
    assert_eq!(parse_path("/secrets/").0.as_deref(), Some(""));
    assert_eq!(parse_path("/secrets/x/other").1, "not_found");
    assert_eq!(parse_path("/secrets/x/rotate/more").1, "not_found");
    assert_eq!(parse_path("/secretsx").1, "not_found");
    assert_eq!(parse_path("/other/x").1, "not_found");
    assert_eq!(parse_path("").1, "not_found");
}

#[test]
fn dispatch_not_initialized_returns_503() {
    let s = SecretsState::new();
    let (status, _) = dispatch(&s, "GET", "/secrets", None);
    assert_eq!(status, 503);
}

#[test]
fn dispatch_404_on_unknown_path() {
    let s = SecretsState::new();
    let (status, _) = dispatch(&s, "GET", "/unknown/path", None);
    assert_eq!(status, 404);
}

#[test]
fn dispatch_list_with_init() {
    let mut s = SecretsState::new();
    init_state(&mut s, kv_config(Some("test"), Some(key_b64(0)))).unwrap();
    let (status, body) = dispatch(&s, "GET", "/secrets", None);
    assert_eq!(status, 200);
    match body {
        Reply::Names(names) => assert!(names.is_empty()),
        other => panic!("unexpected reply {:?}", other),
    }
}

fn error_of(r: (u16, Reply)) -> (u16, String) {
    match r {
        (st, Reply::Error(m)) => (st, m),
        (st, other) => panic!("expected an error, got {} {:?}", st, other),
    }
}

#[test]
fn dispatch_routes_and_errors() {
    let s = ready(None);
    assert_eq!(error_of(dispatch(&s, "GET", "/secrets/a", None)), (404, "not found".to_string()));
    assert_eq!(error_of(dispatch(&s, "POST", "/secrets/a", None)), (400, "invalid JSON body".to_string()));
    assert!(matches!(dispatch(&s, "POST", "/secrets/a", Some(key_b64(3))), (200, Reply::Done)));
    assert_eq!(error_of(dispatch(&s, "POST", "/secrets/a", Some("!!".to_string()))), (400, "invalid config".to_string()));
    assert!(matches!(dispatch(&s, "DELETE", "/secrets/a", None), (200, Reply::Done)));
    assert_eq!(error_of(dispatch(&s, "POST", "/secrets/a/rotate", Some("QQ==".to_string()))), (404, "not found".to_string()));
    assert_eq!(error_of(dispatch(&s, "PUT", "/secrets/a", None)), (404, "not found".to_string()));
    let empty = SecretsState::new();
    assert_eq!(error_of(dispatch(&empty, "DELETE", "/secrets/a", None)), (503, "not initialized".to_string()));
    assert_eq!(error_of(dispatch(&empty, "POST", "/secrets/a", Some("QQ==".to_string()))), (503, "not initialized".to_string()));
    assert_eq!(secret_err_to_status(&SecretError::AlreadyExists), 409);
    assert_eq!(secret_err_to_status(&SecretError::PermissionDenied), 403);
    assert_eq!(secret_err_to_status(&SecretError::StorageError), 500);
}

#[test]
fn rotate_bumps_version() {
    let s = ready(Some("test"));
    let name = "my-secret";
    let first = core_set(&s, name, &SecretValue { data: b"initial".to_vec() }, Ok(None), 1000).unwrap();
    assert_eq!(first.keys.data_key, kv_data_key("test", name));
    assert_eq!(first.keys.meta_key, kv_meta_key("test", name));
    assert_eq!(first.meta.version, 1);
    assert_eq!((first.meta.created_at_ms, first.meta.updated_at_ms), (1000, 1000));
    let rotated = core_rotate(&s, name, &SecretValue { data: b"rotated".to_vec() }, Ok(Some(first.meta.clone())), 2000).unwrap();
    assert_eq!(rotated.meta.version, 2);
    assert_eq!((rotated.meta.created_at_ms, rotated.meta.updated_at_ms), (1000, 2000));
    let value = core_get(&s, Some(rotated.sealed.clone().into_bytes())).unwrap();
    assert_eq!(value.data, b"rotated");
}

#[test]
fn set_keeps_creation_time_and_counts_versions() {
    let s = ready(None);
    let prev = SecretMetadata { name: "db".to_string(), version: 4, created_at_ms: 10, updated_at_ms: 20 };
    let w = core_set(&s, "db", &SecretValue { data: vec![1, 2] }, Ok(Some(prev)), 30).unwrap();
    assert_eq!(w.keys.namespace, "secrets");
    assert_eq!(w.keys.data_key, "secrets:db");
    assert_eq!((w.meta.version, w.meta.created_at_ms, w.meta.updated_at_ms), (5, 10, 30));
    assert_eq!(core_get(&s, Some(w.sealed.into_bytes())).unwrap().data, vec![1, 2]);
    assert_eq!(
        core_set(&s, "db", &SecretValue { data: vec![] }, Err(SecretError::StorageError), 0).unwrap_err(),
        SecretError::StorageError
    );
}

#[test]
fn component_errors() {
    let empty = SecretsState::new();
    let v = SecretValue { data: vec![1] };
    assert_eq!(core_set(&empty, "a", &v, Ok(None), 0).unwrap_err(), SecretError::NotInitialized);
    assert_eq!(core_get(&empty, None).unwrap_err(), SecretError::NotInitialized);
    assert_eq!(core_delete(&empty, "a").unwrap_err(), SecretError::NotInitialized);
    assert_eq!(core_metadata(&empty, None).unwrap_err(), SecretError::NotInitialized);
    assert_eq!(core_list_names(&empty, vec![]).unwrap_err(), SecretError::NotInitialized);
    let s = ready(None);
    assert_eq!(core_get(&s, None).unwrap_err(), SecretError::NotFound);
    assert_eq!(core_get(&s, Some(vec![0xff, 0xfe])).unwrap_err(), SecretError::StorageError);
    assert_eq!(core_get(&s, Some(b"AAAA".to_vec())).unwrap_err(), SecretError::EncryptionError);
    assert_eq!(core_rotate(&s, "a", &v, Ok(None), 0).unwrap_err(), SecretError::NotFound);
    assert_eq!(core_metadata(&s, None).unwrap_err(), SecretError::NotFound);
    let mut no_key = SecretsState::new();
    init_state(&mut no_key, kv_config(None, None)).unwrap();
    assert_eq!(core_set(&no_key, "a", &v, Ok(None), 0).unwrap_err(), SecretError::InvalidConfig);
    let bad_key = ready_with_key("not-base64");
    assert_eq!(core_set(&bad_key, "a", &v, Ok(None), 0).unwrap_err(), SecretError::InvalidConfig);
    assert_eq!(admin_get().unwrap_err(), SecretError::PermissionDenied);
}

fn ready_with_key(k: &str) -> SecretsState {
    let mut s = SecretsState::new();
    core_init(&mut s, kv_config(None, Some(k.to_string()))).unwrap();
    s
}

#[test]
fn list_keys_and_deletes() {
    let s = ready(Some("app"));
    let keys = vec![
        "app:alpha".to_string(),
        "app:alpha:meta".to_string(),
        "other:beta".to_string(),
        "app:gamma".to_string(),
    ];
    assert_eq!(core_list_names(&s, keys).unwrap(), vec!["alpha", "gamma"]);
    let k = core_delete(&s, "alpha").unwrap();
    assert_eq!((k.data_key.as_str(), k.meta_key.as_str()), ("app:alpha", "app:alpha:meta"));
    let k2 = secret_keys(&s, "x").unwrap();
    assert_eq!(k2.namespace, "app");
}

#[test]
fn admin_writes_leave_times_at_zero() {
    let s = ready(None);
    let prev = SecretMetadata { name: "db".to_string(), version: 1, created_at_ms: 7, updated_at_ms: 8 };
    let w = admin_set(&s, "db", &SecretValue { data: vec![9] }, Ok(Some(prev.clone()))).unwrap();
    assert_eq!((w.meta.version, w.meta.created_at_ms, w.meta.updated_at_ms), (2, 0, 0));
    let r = admin_rotate(&s, "db", &SecretValue { data: vec![9] }, Ok(Some(prev))).unwrap();
    assert_eq!((r.meta.version, r.meta.created_at_ms, r.meta.updated_at_ms), (2, 7, 0));
    let _ = secret_store::handle_get_meta("db");
}
