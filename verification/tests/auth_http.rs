use wasmcloud_utils::auth::{extract_bearer, extract_session_cookie, token_from_headers};

#[test]
fn bearer_extracted() {
    assert_eq!(extract_bearer("Bearer mytoken").as_deref(), Some("mytoken"));
    assert_eq!(extract_bearer("bearer  spaced ").as_deref(), Some("spaced"));
    assert_eq!(extract_bearer(""), None);
}

#[test]
fn cookie_extracted() {
    assert_eq!(extract_session_cookie("session=abc123").as_deref(), Some("abc123"));
    assert_eq!(extract_session_cookie("other=x; session=tok; foo=bar").as_deref(), Some("tok"));
    assert_eq!(extract_session_cookie("no-session=1"), None);
}

#[test]
fn auth_header_takes_priority() {
    let headers = [("authorization", "Bearer jwt_token"), ("cookie", "session=sess_token")];
    assert_eq!(token_from_headers(&headers).as_deref(), Some("jwt_token"));
}

#[test]
fn fallback_to_cookie() {
    let headers = [("cookie", "session=sess_token")];
    assert_eq!(token_from_headers(&headers).as_deref(), Some("sess_token"));
}

#[test]
fn no_token_returns_none() {
    let headers: [(&str, &str); 0] = [];
    assert_eq!(token_from_headers(&headers), None);
}

#[test]
fn auth_http_edge_cases() {
    // A raw value without the Bearer prefix is taken whole.
    assert_eq!(extract_bearer("  raw-token  ").as_deref(), Some("raw-token"));
    assert_eq!(extract_bearer("BEARER x").as_deref(), Some("x"));
    // Header names are matched ignoring ASCII case; the first cookie with a session wins.
    let headers = [("Cookie", "a=1"), ("COOKIE", "session=second"), ("Authorization", "   ")];
    assert_eq!(token_from_headers(&headers).as_deref(), Some("second"));
    // An authorization header later in the list still wins over a cookie.
    let headers = [("cookie", "session=c"), ("Authorization", "Bearer t")];
    assert_eq!(token_from_headers(&headers).as_deref(), Some("t"));
}
