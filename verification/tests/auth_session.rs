use wasmcloud_utils::auth::{
    self, AuthConfig, AuthError, Credentials, SessionState, TokenType, ValidateRequest,
};

fn default_config() -> AuthConfig {
    AuthConfig {
        token_type: TokenType::Session,
        session_ttl_ms: Some(3_600_000),
        jwt_secret: None,
        oauth_token_url: None,
        oauth_client_id: None,
        oauth_client_secret: None,
    }
}

fn creds(u: &str, p: &str) -> Credentials {
    Credentials::UsernamePassword { username: u.to_string(), password: p.to_string() }
}

fn check(s: &SessionState, token: &str) -> Result<String, AuthError> {
    auth::validate(s, ValidateRequest { token: token.to_string(), required_claims: vec![] }, &default_config())
        .map(|r| r.subject)
}

#[test]
fn test_auth_session_authenticate_and_validate() {
    let mut s = SessionState::new();
    let cfg = default_config();

    let token = auth::authenticate(&mut s, creds("alice", "secret"), &cfg).unwrap().token;
    assert!(!token.is_empty());
    assert_eq!(check(&s, &token).unwrap(), "alice");

    assert_eq!(auth::authenticate(&mut s, creds("", "secret"), &cfg).unwrap_err(), AuthError::InvalidCredentials);
    assert_eq!(auth::authenticate(&mut s, creds("alice", ""), &cfg).unwrap_err(), AuthError::InvalidCredentials);

    let token2 = auth::authenticate(&mut s, creds("bob", "pw"), &cfg).unwrap().token;
    assert_ne!(token, token2);

    let refreshed = auth::refresh(&mut s, &token, &cfg).unwrap().token;
    assert_ne!(refreshed, token);
    assert_eq!(check(&s, &refreshed).unwrap(), "alice");
    assert_eq!(check(&s, &token).unwrap_err(), AuthError::InvalidToken);

    auth::revoke(&mut s, &refreshed).unwrap();
    assert_eq!(check(&s, &refreshed).unwrap_err(), AuthError::InvalidToken);
    assert_eq!(check(&s, "nonexistent").unwrap_err(), AuthError::InvalidToken);
}

#[test]
fn session_token_shape_and_claims() {
    let mut s = SessionState::new();
    let t = auth::authenticate(&mut s, creds("carol", "pw"), &default_config()).unwrap();
    assert_eq!(t.token.len(), 32);
    assert!(t.token.chars().all(|c| c.is_ascii_hexdigit() && !c.is_ascii_uppercase()));
    assert_eq!(t.claims, vec![("sub".to_string(), "carol".to_string())]);
    assert_eq!(t.expires_at_ms, Some(3_600_000));
    assert_eq!(t.token_type, TokenType::Session);
    // The id for counter 1 follows the documented generator.
    let mut state = 1u64.wrapping_add(0x9e3779b97f4a7c15);
    let mut expected = String::new();
    for _ in 0..2 {
        state = state.wrapping_mul(6364136223846793005).wrapping_add(1442695040888963407);
        for b in state.to_le_bytes() {
            expected.push_str(&format!("{:02x}", b));
        }
    }
    assert_eq!(t.token, expected);
    // Bearer tokens are not accepted by the session authenticator.
    assert_eq!(
        auth::authenticate(&mut s, Credentials::BearerToken("x".to_string()), &default_config()).unwrap_err(),
        AuthError::InvalidCredentials
    );
    assert_eq!(auth::refresh(&mut s, "nope", &default_config()).unwrap_err(), AuthError::InvalidToken);
}

#[test]
fn test_authenticate_and_validate() {
    let mut s = SessionState::new();
    let config = default_config();
    let token = auth::authenticate(&mut s, creds("alice", "secret"), &config).unwrap();
    assert!(!token.token.is_empty());
    let resp = auth::validate(&s, ValidateRequest { token: token.token.clone(), required_claims: vec![] }, &config).unwrap();
    assert!(resp.valid);
    assert_eq!(resp.subject, "alice");
}

#[test]
fn test_revoke() {
    let mut s = SessionState::new();
    let config = default_config();
    let token = auth::authenticate(&mut s, creds("bob", "pw"), &config).unwrap();
    auth::revoke(&mut s, &token.token).unwrap();
    let result = auth::validate(&s, ValidateRequest { token: token.token, required_claims: vec![] }, &config);
    assert!(result.is_err());
}

#[test]
fn lib_roundtrip() {
    let mut s = SessionState::new();
    let token = auth::session_authenticate(&mut s, "alice", "pw").unwrap();
    let subject = auth::session_validate(&s, &token).unwrap();
    assert_eq!(subject, "alice");
    auth::session_revoke(&mut s, &token).unwrap();
    assert!(auth::session_validate(&s, &token).is_err());
}
