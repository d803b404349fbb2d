use hmac::Mac;
use wasmcloud_utils::auth::{AuthConfig, AuthError, Credentials, TokenType, ValidateRequest};
use wasmcloud_utils::jwt::{
    self, base64_decode, base64_encode, base64url_decode, base64url_encode, build_jwt,
    extract_json_str, extract_json_u64, verify_jwt,
};

fn default_config() -> AuthConfig {
    AuthConfig {
        token_type: TokenType::Jwt,
        session_ttl_ms: Some(3_600_000),
        jwt_secret: Some("test-secret-key".to_string()),
        oauth_token_url: None,
        oauth_client_id: None,
        oauth_client_secret: None,
    }
}

fn user(u: &str, p: &str) -> Credentials {
    Credentials::UsernamePassword { username: u.to_string(), password: p.to_string() }
}

#[test]
fn lib_test_authenticate_and_validate() {
    let config = default_config();
    let token = jwt::authenticate(user("alice", "secret"), &config).unwrap();
    assert!(!token.token.is_empty());
    assert_eq!(token.subject, "alice");
    let resp = jwt::validate(ValidateRequest { token: token.token, required_claims: vec![] }, &config).unwrap();
    assert!(resp.valid);
    assert_eq!(resp.subject, "alice");
}

#[test]
fn test_invalid_secret_fails_validation() {
    let config = default_config();
    let token = jwt::authenticate(user("bob", "pw"), &config).unwrap();
    let bad_config = AuthConfig { jwt_secret: Some("wrong-secret".to_string()), ..config };
    let result = jwt::validate(ValidateRequest { token: token.token, required_claims: vec![] }, &bad_config);
    assert!(result.is_err());
}

#[test]
fn roundtrip() {
    let token = jwt::jwt_authenticate("alice", "pw", "test-secret").unwrap();
    let subject = jwt::jwt_validate(&token, "test-secret").unwrap();
    assert_eq!(subject, "alice");
}

#[test]
fn wrong_secret_rejected() {
    let token = jwt::jwt_authenticate("bob", "pw", "good-secret").unwrap();
    assert!(jwt::jwt_validate(&token, "bad-secret").is_err());
}

#[test]
fn test_auth_jwt_sign_and_verify() {
    let secret = "supersecret";
    let token = build_jwt("alice", &[], None, secret);
    assert_eq!(verify_jwt(&token, secret).unwrap().0, "alice");
    assert!(verify_jwt(&token, "wrongsecret").is_none());
    let mut tampered = token.clone();
    tampered.push('x');
    assert!(verify_jwt(&tampered, secret).is_none());
    let token_bob = build_jwt("bob", &[], None, secret);
    assert_ne!(token, token_bob);
    assert_eq!(verify_jwt(&token_bob, secret).unwrap().0, "bob");
}

#[test]
fn jwt_token_layout_and_signature() {
    let token = build_jwt("alice", &[("role".to_string(), "admin".to_string())], Some(3_600_000), "k");
    let parts: Vec<&str> = token.splitn(3, '.').collect();
    assert_eq!(parts.len(), 3);
    assert_eq!(parts[0], "eyJhbGciOiJIUzI1NiIsInR5cCI6IkpXVCJ9");
    let payload = base64url_decode(parts[1]).unwrap();
    assert_eq!(String::from_utf8(payload).unwrap(), r#"{"sub":"alice","exp":3600,"role":"admin"}"#);
    let mut mac = hmac::Hmac::<sha2::Sha256>::new_from_slice(b"k").unwrap();
    mac.update(format!("{}.{}", parts[0], parts[1]).as_bytes());
    let expected = base64url_encode(&mac.finalize().into_bytes());
    assert_eq!(parts[2], expected);
    let (sub, exp, claims) = verify_jwt(&token, "k").unwrap();
    assert_eq!(sub, "alice");
    assert_eq!(exp, Some(3_600_000));
    assert!(claims.is_empty());
}

#[test]
fn jwt_expiry_is_rounded_to_seconds() {
    let token = build_jwt("carol", &[], Some(1_999), "s");
    assert_eq!(verify_jwt(&token, "s").unwrap().1, Some(1_000));
    let token = build_jwt("carol", &[], None, "s");
    assert_eq!(verify_jwt(&token, "s").unwrap().1, None);
}

#[test]
fn tokens_without_expiry_verify_with_their_claims() {
    let claims = vec![("exp".to_string(), "123".to_string()), ("role".to_string(), "admin".to_string())];
    let token = build_jwt("dave", &claims, None, "k");
    let (sub, exp, _) = verify_jwt(&token, "k").unwrap();
    assert_eq!(sub, "dave");
    assert_eq!(exp, None);
}

#[test]
fn jwt_authenticator_errors() {
    let config = default_config();
    let no_secret = AuthConfig { jwt_secret: None, ..default_config() };
    assert_eq!(jwt::authenticate(user("a", "b"), &no_secret).unwrap_err(), AuthError::InvalidConfig);
    assert_eq!(jwt::authenticate(user("", "b"), &config).unwrap_err(), AuthError::InvalidCredentials);
    assert_eq!(jwt::authenticate(user("a", ""), &config).unwrap_err(), AuthError::InvalidCredentials);
    assert_eq!(
        jwt::authenticate(Credentials::BearerToken("x.y.z".to_string()), &config).unwrap_err(),
        AuthError::InvalidToken
    );
    assert_eq!(
        jwt::validate(ValidateRequest { token: "nodots".to_string(), required_claims: vec![] }, &config).unwrap_err(),
        AuthError::InvalidToken
    );
    assert_eq!(jwt::refresh("a.b", &config).unwrap_err(), AuthError::InvalidToken);
    assert!(jwt::revoke("anything").is_ok());
}

#[test]
fn jwt_bearer_and_refresh() {
    let config = default_config();
    let t = jwt::authenticate(user("dave", "pw"), &config).unwrap();
    assert_eq!(t.expires_at_ms, Some(3_600_000));
    assert_eq!(t.claims, vec![("sub".to_string(), "dave".to_string())]);
    let b = jwt::authenticate(Credentials::BearerToken(t.token.clone()), &config).unwrap();
    assert_eq!(b.subject, "dave");
    assert_eq!(b.token, t.token);
    let r = jwt::refresh(&t.token, &config).unwrap();
    assert_eq!(r.subject, "dave");
    assert_eq!(jwt::validate(ValidateRequest { token: r.token, required_claims: vec![] }, &config).unwrap().subject, "dave");
}

#[test]
fn base64_known_values() {
    assert_eq!(base64_encode(b""), "");
    assert_eq!(base64_encode(b"f"), "Zg==");
    assert_eq!(base64_encode(b"fo"), "Zm8=");
    assert_eq!(base64_encode(b"foo"), "Zm9v");
    assert_eq!(base64_encode(b"foobar"), "Zm9vYmFy");
    assert_eq!(base64_encode(&[0xfb, 0xff]), "+/8=");
    assert_eq!(base64url_encode(&[0xfb, 0xff]), "-_8");
    assert_eq!(base64_decode("Zm9vYmE=").unwrap(), b"fooba");
    assert_eq!(base64url_decode("-_8").unwrap(), vec![0xfb, 0xff]);
    assert!(base64_decode("Z").is_none());
    assert!(base64_decode("Zm9v!").is_none());
}

#[test]
fn json_field_extraction() {
    assert_eq!(extract_json_str(r#"{"sub":"x","exp":5}"#, "sub").as_deref(), Some("x"));
    assert_eq!(extract_json_str(r#"{"exp":5}"#, "sub"), None);
    assert_eq!(extract_json_u64(r#"{"sub":"x","exp":5}"#, "exp"), Some(5));
    assert_eq!(extract_json_u64(r#"{"exp":"5"}"#, "exp"), None);
    assert_eq!(extract_json_u64(r#"{"exp":99999999999999999999}"#, "exp"), None);
}

#[test]
fn jwt_refresh_without_lifetime_validates() {
    let config = AuthConfig { session_ttl_ms: None, ..default_config() };
    let t = jwt::authenticate(user("erin", "pw"), &config).unwrap();
    let r = jwt::refresh(&t.token, &config).unwrap();
    assert_eq!(r.expires_at_ms, None);
    let v = jwt::validate(ValidateRequest { token: r.token, required_claims: vec![] }, &config).unwrap();
    assert_eq!(v.subject, "erin");
    assert_eq!(v.expires_at_ms, None);
}
