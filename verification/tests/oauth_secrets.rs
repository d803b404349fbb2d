use base64::Engine;
use wasmcloud_utils::auth::{AuthConfig, TokenType, ValidateRequest};
use wasmcloud_utils::oauth::{self, build_token_exchange_body, token_response_to_auth_token, url_encode, TokenResponse};
use wasmcloud_utils::secrets::{
    decrypt, encrypt, encrypt_with_nonce, is_meta_key, kv_data_key, kv_meta_key, name_from_data_key, SecretError,
};

fn test_key() -> String {
    base64::engine::general_purpose::STANDARD.encode([0u8; 32])
}

#[test]
fn test_build_token_exchange_body() {
    let body = build_token_exchange_body("mycode", "https://example.com/cb", "client1", "secret1");
    assert!(body.contains("grant_type=authorization_code"));
    assert!(body.contains("code=mycode"));
    assert!(body.contains("client_id=client1"));
}

#[test]
fn exchange_body_is_correct() {
    let body = oauth::prepare_token_exchange("code123", "https://app.example/cb", "cid", "csec");
    assert!(body.contains("grant_type=authorization_code"));
    assert!(body.contains("code=code123"));
}

#[test]
fn oauth_body_exact_and_encoding() {
    assert_eq!(
        build_token_exchange_body("a b", "https://x/cb?y=1", "c&d", "é"),
        "grant_type=authorization_code&code=a%20b&redirect_uri=https%3A%2F%2Fx%2Fcb%3Fy%3D1&client_id=c%26d&client_secret=%C3%A9"
    );
    assert_eq!(url_encode("AZaz09-_.~"), "AZaz09-_.~");
}

#[test]
fn oauth_token_response_and_validate() {
    let t = token_response_to_auth_token(TokenResponse {
        access_token: "tok".to_string(),
        token_type: "Bearer".to_string(),
        expires_in: Some(60),
        scope: Some("read".to_string()),
        sub: Some("u1".to_string()),
    });
    assert_eq!(t.token, "tok");
    assert_eq!(t.expires_at_ms, Some(60_000));
    assert_eq!(t.subject, "u1");
    assert_eq!(t.claims, vec![("scope".to_string(), "read".to_string())]);
    let t2 = token_response_to_auth_token(TokenResponse {
        access_token: "tok2".to_string(),
        token_type: "Bearer".to_string(),
        expires_in: None,
        scope: None,
        sub: None,
    });
    assert_eq!(t2.expires_at_ms, None);
    let cfg = AuthConfig {
        token_type: TokenType::OauthAccess,
        session_ttl_ms: None,
        jwt_secret: None,
        oauth_token_url: None,
        oauth_client_id: None,
        oauth_client_secret: None,
    };
    assert!(oauth::validate(ValidateRequest { token: "".to_string(), required_claims: vec![] }, &cfg).is_err());
    assert!(oauth::validate(ValidateRequest { token: "x".to_string(), required_claims: vec![] }, &cfg).unwrap().valid);
}

#[test]
fn kv_keys_are_correct() {
    assert_eq!(kv_data_key("ns", "db-pass"), "ns:db-pass");
    assert_eq!(kv_meta_key("ns", "db-pass"), "ns:db-pass:meta");
    assert!(is_meta_key("ns:db-pass:meta"));
    assert!(!is_meta_key("ns:db-pass"));
}

#[test]
fn list_names_excludes_meta_keys() {
    let ns = "app";
    let keys = vec![
        kv_data_key(ns, "alpha"),
        kv_meta_key(ns, "alpha"),
        kv_data_key(ns, "beta"),
        kv_meta_key(ns, "beta"),
    ];
    let prefix = format!("{ns}:");
    let mut names: Vec<String> = keys
        .into_iter()
        .filter(|k| k.starts_with(&prefix) && !is_meta_key(k))
        .filter_map(|k| name_from_data_key(ns, &k))
        .collect();
    names.sort();
    assert_eq!(names, vec!["alpha", "beta"]);
}

#[test]
fn encrypt_decrypt_roundtrip() {
    let key = test_key();
    let plaintext = b"super secret value";
    let enc = encrypt(&key, plaintext).unwrap();
    let dec = decrypt(&key, &enc).unwrap();
    assert_eq!(dec, plaintext);
}

#[test]
fn different_nonces_each_encrypt() {
    let key = test_key();
    let enc1 = encrypt(&key, b"value").unwrap();
    let enc2 = encrypt(&key, b"value").unwrap();
    assert_ne!(enc1, enc2);
}

#[test]
fn wrong_key_fails_decrypt() {
    let key1 = test_key();
    let key2 = base64::engine::general_purpose::STANDARD.encode([1u8; 32]);
    let enc = encrypt(&key1, b"value").unwrap();
    assert_eq!(decrypt(&key2, &enc), Err(SecretError::EncryptionError));
}

#[test]
fn secrets_error_cases() {
    let key = test_key();
    assert_eq!(encrypt("not base64!", b"x"), Err(SecretError::InvalidConfig));
    assert_eq!(encrypt("AAAA", b"x"), Err(SecretError::InvalidConfig));
    assert_eq!(decrypt(&key, "AAAA"), Err(SecretError::EncryptionError));
    assert_eq!(decrypt(&key, "***"), Err(SecretError::EncryptionError));
    let a = encrypt_with_nonce(&key, b"same", &[7u8; 12]).unwrap();
    let b = encrypt_with_nonce(&key, b"same", &[7u8; 12]).unwrap();
    assert_eq!(a, b);
    assert_eq!(decrypt(&key, &a).unwrap(), b"same");
    assert_eq!(SecretError::NotFound.message(), "not found");
    assert_eq!(name_from_data_key("ns", "other:x"), None);
}
