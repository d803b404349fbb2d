//! Authentication: the shared credential and token types, token extraction
//! from HTTP headers, and the session-token store.
use vstd::prelude::*;
use crate::store::KeyedStore;
use crate::strings::{ascii_lower_seq, split_on, first_index};
use crate::text::{trim, hex_digits};
use crate::retry::lcg_spec;

verus! {

// ── Types ───────────────────────────────────────────────────────────────────

/// What a caller presents to authenticate.
#[derive(Debug, Clone)]
pub enum Credentials {
    UsernamePassword { username: String, password: String },
    BearerToken(String),
    OauthCode { code: String, redirect_uri: String, state: Option<String> },
}

/// The kind of token issued.
#[derive(Debug, Clone, Copy, PartialEq, Eq, Structural)]
pub enum TokenType {
    Session,
    Jwt,
    OauthAccess,
}

/// An issued token.
#[derive(Debug, Clone)]
pub struct AuthToken {
    pub token: String,
    pub token_type: TokenType,
    pub expires_at_ms: Option<u64>,
    pub subject: String,
    pub claims: Vec<(String, String)>,
}

/// Settings of the authenticators.
#[derive(Debug, Clone)]
pub struct AuthConfig {
    pub token_type: TokenType,
    pub session_ttl_ms: Option<u64>,
    pub jwt_secret: Option<String>,
    pub oauth_token_url: Option<String>,
    pub oauth_client_id: Option<String>,
    pub oauth_client_secret: Option<String>,
}

/// A token to check.
#[derive(Debug, Clone)]
pub struct ValidateRequest {
    pub token: String,
    pub required_claims: Vec<String>,
}

/// What a successful check reports.
#[derive(Debug, Clone)]
pub struct ValidateResponse {
    pub valid: bool,
    pub subject: String,
    pub claims: Vec<(String, String)>,
    pub expires_at_ms: Option<u64>,
}

/// Errors of the authenticators.
#[derive(Debug, Clone, Copy, PartialEq, Eq, Structural)]
pub enum AuthError {
    NotInitialized,
    InvalidCredentials,
    ExpiredToken,
    InvalidToken,
    RevokedToken,
    InsufficientPermissions,
    StorageError,
    UpstreamError,
    InvalidConfig,
}

/// The characters of a list of claim pairs.
pub open spec fn claim_views(c: Seq<(String, String)>) -> Seq<(Seq<char>, Seq<char>)> {
    c.map_values(|p: (String, String)| (p.0@, p.1@))
}

// ── Tokens in HTTP headers ──────────────────────────────────────────────────

/// The token an `Authorization` header value carries: after a leading
/// `Bearer ` (any case) when there is one, else the whole trimmed value.
pub open spec fn bearer_of(h: Seq<char>) -> Option<Seq<char>> {
    let v = trim(h);
    if v.len() >= 7 && ascii_lower_seq(v.take(7)) == "bearer "@ {
        Some(trim(v.skip(7)))
    } else if v.len() > 0 {
        Some(v)
    } else {
        None
    }
}

/// Whether part `i` of a cookie header is a `session=` part.
pub open spec fn is_session_part(parts: Seq<Seq<char>>, i: int) -> bool {
    crate::strings::has_prefix(trim(parts[i]), "session="@)
}

/// The value of the first `session=` part of a cookie header, trimmed.
pub open spec fn session_cookie_of(h: Seq<char>) -> Option<Seq<char>> {
    let parts = split_on(h, ';');
    match crate::workflow::first_where(parts.len() as int, |i: int| is_session_part(parts, i), 0) {
        Some(i) => Some(trim(trim(parts[i]).skip(8))),
        None => None,
    }
}

/// Whether `a` and `b` hold the same characters.
fn same_chars(a: &Vec<char>, b: &Vec<char>) -> (r: bool)
    ensures
        r == (a@ == b@),
{
    if a.len() != b.len() {
        return false;
    }
    let mut i: usize = 0;
    while i < a.len()
        invariant
            a@.len() == b@.len(),
            i <= a@.len(),
            forall|k: int| 0 <= k < i ==> a@[k] == b@[k],
        decreases a@.len() - i,
    {
        if a[i] != b[i] {
            return false;
        }
        i = i + 1;
    }
    assert(a@ =~= b@);
    true
}

/// Whether `v` begins with the characters of `p`.
fn begins_with(v: &Vec<char>, p: &str) -> (r: bool)
    ensures
        r == crate::strings::has_prefix(v@, p@),
{
    let pv = crate::text::chars_of(p);
    crate::strings::starts_with(v, &pv)
}

/// The token of an `Authorization: Bearer <token>` header value, or the raw
/// trimmed value when it has no `Bearer ` prefix; `None` when blank.
pub fn extract_bearer(header_value: &str) -> (r: Option<String>)
    ensures
        crate::text::opt_view(r) == bearer_of(header_value@),
{
    let v = crate::text::trimmed(header_value);
    let n = v.len();
    if n >= 7 {
        let head = crate::text::slice_vec(&v, 0, 7);
        let lower = crate::strings::ascii_lowercase(&head);
        let pat = crate::text::chars_of("bearer ");
        proof {
            assert(head@ =~= v@.take(7));
        }
        if same_chars(&lower, &pat) {
            let rest = crate::text::slice_vec(&v, 7, n);
            let t = crate::text::trim_chars(&rest);
            proof {
                assert(rest@ =~= v@.skip(7));
            }
            return Some(crate::text::string_from_chars(t.as_slice()));
        }
    }
    if n > 0 {
        Some(crate::text::string_from_chars(v.as_slice()))
    } else {
        None
    }
}

/// The session token of a `Cookie` header value (`session=<token>`).
pub fn extract_session_cookie(cookie_header: &str) -> (r: Option<String>)
    ensures
        crate::text::opt_view(r) == session_cookie_of(cookie_header@),
{
    let v = crate::text::chars_of(cookie_header);
    let parts = crate::strings::split_char(&v, ';');
    let ghost ps = split_on(cookie_header@, ';');
    let ghost p = |i: int| is_session_part(ps, i);
    let mut i: usize = 0;
    while i < parts.len()
        invariant
            parts@.len() == ps.len(),
            ps == split_on(cookie_header@, ';'),
            forall|j: int| 0 <= j < parts@.len() ==> #[trigger] parts@[j]@ == ps[j],
            i <= parts@.len(),
            p == (|i: int| is_session_part(ps, i)),
            crate::workflow::first_where(ps.len() as int, p, 0) == crate::workflow::first_where(ps.len() as int, p, i as int),
        decreases parts@.len() - i,
    {
        let part = crate::text::trim_chars(&parts[i]);
        if begins_with(&part, "session=") {
            proof {
                reveal_strlit("session=");
            }
            let rest = crate::text::slice_vec(&part, 8, part.len());
            let t = crate::text::trim_chars(&rest);
            proof {
                assert(rest@ =~= trim(ps[i as int]).skip(8));
            }
            return Some(crate::text::string_from_chars(t.as_slice()));
        }
        i = i + 1;
    }
    None
}

/// Whether header `i` is named `name` (ASCII case-insensitively), given in lower case.
pub open spec fn header_named(headers: Seq<(&str, &str)>, i: int, name: Seq<char>) -> bool {
    ascii_lower_seq(headers[i].0@) == name
}

/// The token of a request: from the first `Authorization` header that carries
/// one, else from the first `Cookie` header that carries a session token.
pub open spec fn token_of(headers: Seq<(&str, &str)>) -> Option<Seq<char>> {
    let n = headers.len() as int;
    let auth = crate::workflow::first_where(n, |i: int| header_named(headers, i, "authorization"@)
        && bearer_of(headers[i].1@) is Some, 0);
    let cookie = crate::workflow::first_where(n, |i: int| header_named(headers, i, "cookie"@)
        && session_cookie_of(headers[i].1@) is Some, 0);
    match auth {
        Some(i) => bearer_of(headers[i].1@),
        None => match cookie {
            Some(i) => session_cookie_of(headers[i].1@),
            None => None,
        },
    }
}

/// Whether `v`, lowercased in ASCII, is `name`.
fn lower_is(v: &str, name: &str) -> (r: bool)
    ensures
        r == (ascii_lower_seq(v@) == name@),
{
    let c = crate::text::chars_of(v);
    let l = crate::strings::ascii_lowercase(&c);
    let n = crate::text::chars_of(name);
    same_chars(&l, &n)
}

/// The auth token of a request's headers; `Authorization` wins over `Cookie`.
pub fn token_from_headers(headers: &[(&str, &str)]) -> (r: Option<String>)
    ensures
        crate::text::opt_view(r) == token_of(headers@),
{
    let ghost hs = headers@;
    let ghost n = hs.len() as int;
    let ghost pa = |i: int| header_named(hs, i, "authorization"@) && bearer_of(hs[i].1@) is Some;
    let ghost pc = |i: int| header_named(hs, i, "cookie"@) && session_cookie_of(hs[i].1@) is Some;
    let mut cookie_token: Option<String> = None;
    let ghost mut cookie_at: Option<int> = None;
    let mut i: usize = 0;
    proof {
        reveal_strlit("authorization");
        reveal_strlit("cookie");
        assert("authorization"@ != "cookie"@) by {
            assert("authorization"@.len() != "cookie"@.len());
        }
    }
    while i < headers.len()
        invariant
            "authorization"@ != "cookie"@,
            hs == headers@,
            n == hs.len(),
            i <= n,
            pa == (|i: int| header_named(hs, i, "authorization"@) && bearer_of(hs[i].1@) is Some),
            pc == (|i: int| header_named(hs, i, "cookie"@) && session_cookie_of(hs[i].1@) is Some),
            crate::workflow::first_where(n, pa, 0) == crate::workflow::first_where(n, pa, i as int),
            cookie_token is None ==> crate::workflow::first_where(n, pc, 0) == crate::workflow::first_where(n, pc, i as int),
            cookie_token is Some ==> (cookie_at matches Some(c) && crate::workflow::first_where(n, pc, 0) == Some(c)
                && crate::text::opt_view(cookie_token) == session_cookie_of(hs[c].1@)),
        decreases n - i,
    {
        let (name, value) = headers[i];
        if lower_is(name, "authorization") {
            match extract_bearer(value) {
                Some(t) => {
                    return Some(t);
                },
                None => {},
            }
        } else if cookie_token.is_none() && lower_is(name, "cookie") {
            cookie_token = extract_session_cookie(value);
            proof {
                if cookie_token is Some {
                    cookie_at = Some(i as int);
                }
            }
        }
        i = i + 1;
    }
    cookie_token
}

// ── Session tokens ──────────────────────────────────────────────────────────

/// The 8 bytes of `x`, least significant first, each as two lower-case hex digits.
pub open spec fn le_hex(x: nat, k: nat) -> Seq<char>
    decreases k,
{
    if k == 0 {
        Seq::empty()
    } else {
        hex_digits(x % 256, 2) + le_hex(x / 256, (k - 1) as nat)
    }
}

/// The session id generated from counter value `seed`: two linear congruential
/// steps from `seed + 0x9e3779b97f4a7c15`, as 16 little-endian bytes in hex.
pub open spec fn session_id(seed: u64) -> Seq<char> {
    let s0 = seed.wrapping_add(0x9e3779b97f4a7c15u64);
    let s1 = lcg_spec(s0);
    let s2 = lcg_spec(s1);
    le_hex(s1 as nat, 8) + le_hex(s2 as nat, 8)
}

/// The bytes of `x`, least significant first, in hex.
fn push_le_hex(v: &mut Vec<char>, x: u64)
    ensures
        final(v)@ == old(v)@ + le_hex(x as nat, 8),
{
    let mut y = x;
    let mut k: u32 = 0;
    let ghost v0 = v@;
    while k < 8
        invariant
            k <= 8,
            le_hex(x as nat, 8) == v@.subrange(v0.len() as int, v@.len() as int) + le_hex(y as nat, (8 - k) as nat),
            v@.len() >= v0.len(),
            v@.subrange(0, v0.len() as int) == v0,
        decreases 8 - k,
    {
        let h = crate::text::u64_to_hex(y % 256, 2);
        let ghost before = v@;
        crate::text::push_chars(v, &h);
        proof {
            assert(le_hex(y as nat, (8 - k) as nat) == hex_digits((y % 256) as nat, 2) + le_hex((y / 256) as nat, (8 - k - 1) as nat));
            assert(v@.subrange(v0.len() as int, v@.len() as int) =~= before.subrange(v0.len() as int, before.len() as int) + h@);
            assert(v@.subrange(0, v0.len() as int) =~= before.subrange(0, v0.len() as int));
        }
        y = y / 256;
        k = k + 1;
    }
    proof {
        assert(v@ =~= v0 + v@.subrange(v0.len() as int, v@.len() as int));
    }
}

/// The session id for counter value `seed`.
fn generate_session_id(seed: u64) -> (r: String)
    ensures
        r@ == session_id(seed),
{
    let s0 = seed.wrapping_add(0x9e3779b97f4a7c15u64);
    let s1 = crate::retry::lcg(s0);
    let s2 = crate::retry::lcg(s1);
    let mut v: Vec<char> = Vec::new();
    push_le_hex(&mut v, s1);
    push_le_hex(&mut v, s2);
    crate::text::string_from_chars(v.as_slice())
}

/// What a session token stands for.
#[derive(Debug, Clone)]
pub struct SessionEntry {
    pub subject: String,
    pub expires_at_ms: Option<u64>,
    pub claims: Vec<(String, String)>,
}

/// Every live session by token, and the counter that seeds new ids.
pub struct SessionState {
    pub store: KeyedStore<SessionEntry>,
    pub counter: u64,
}

/// Whether every token of `dom` is the session id of a counter value from 1
/// to `counter`.
pub open spec fn ids_issued(dom: Set<Seq<char>>, counter: u64) -> bool {
    forall|k: Seq<char>| #[trigger] dom.contains(k) ==> exists|c: u64| 1 <= c <= counter && k == #[trigger] session_id(c)
}

/// Stepping the counter by one and adding at most the new id keeps every
/// token an issued one.
proof fn lemma_issued_step(d0: Set<Seq<char>>, c0: u64, d1: Set<Seq<char>>)
    requires
        ids_issued(d0, c0),
        c0 < u64::MAX,
        forall|k: Seq<char>| #[trigger] d1.contains(k) ==> d0.contains(k) || k == session_id((c0 + 1) as u64),
    ensures
        ids_issued(d1, (c0 + 1) as u64),
{
    assert forall|k: Seq<char>| #[trigger] d1.contains(k) implies exists|c: u64| 1 <= c <= c0 + 1 && k == #[trigger] session_id(c) by {
        if k == session_id((c0 + 1) as u64) {
            assert(1 <= c0 + 1 <= c0 + 1);
        } else {
            assert(d0.contains(k));
            let c = choose|c: u64| 1 <= c <= c0 && k == #[trigger] session_id(c);
            assert(1 <= c <= c0 + 1 && k == session_id(c));
        }
    }
}

impl SessionState {
    /// The store is well formed and every live token is one the counter has
    /// issued.
    pub open spec fn wf(&self) -> bool {
        &&& self.store.wf()
        &&& self.issued()
    }

    /// Every live token is one the counter has issued.
    pub open spec fn issued(&self) -> bool {
        ids_issued(self.store@.dom(), self.counter)
    }

    /// No sessions, counter 0.
    pub fn new() -> (r: Self)
        ensures
            r.wf(),
            r.store@ == Map::<Seq<char>, SessionEntry>::empty(),
            r.counter == 0,
    {
        SessionState { store: KeyedStore::new(), counter: 0 }
    }
}

/// A copy of a list of claims.
fn copy_claims(c: &Vec<(String, String)>) -> (r: Vec<(String, String)>)
    ensures
        r@ == c@,
{
    crate::text::copy_pairs(c)
}

/// Open a session for a username and a password, both non-empty; any other
/// credentials are refused.  A new session needs a counter value not yet
/// used: the counter must be below `u64::MAX`, else it wraps and later tokens
/// could be ones that live sessions hold.
pub fn authenticate(state: &mut SessionState, creds: Credentials, config: &AuthConfig) -> (r: Result<AuthToken, AuthError>)
    requires
        old(state).wf(),
        creds matches Credentials::UsernamePassword { username, password } && username@.len() != 0 && password@.len() != 0
            ==> old(state).counter < u64::MAX,
    ensures
        final(state).wf(),
        match creds {
            Credentials::UsernamePassword { username, password } => if username@.len() == 0 || password@.len() == 0 {
                r == Err::<AuthToken, AuthError>(AuthError::InvalidCredentials) && final(state).store@ == old(state).store@
                    && final(state).counter == old(state).counter
            } else {
                let id = session_id(old(state).counter.wrapping_add(1));
                &&& final(state).counter == old(state).counter.wrapping_add(1)
                &&& r matches Ok(t) && t.token@ == id && t.token_type == TokenType::Session
                    && t.expires_at_ms == config.session_ttl_ms && t.subject@ == username@
                    && claim_views(t.claims@) == seq![("sub"@, username@)]
                &&& final(state).store@.dom() == old(state).store@.dom().insert(id)
                &&& forall|k: Seq<char>| k != id && #[trigger] old(state).store@.contains_key(k)
                    ==> final(state).store@[k] == old(state).store@[k]
                &&& final(state).store@[id].subject@ == username@
                &&& final(state).store@[id].expires_at_ms == config.session_ttl_ms
                &&& claim_views(final(state).store@[id].claims@) == seq![("sub"@, username@)]
            },
            _ => r == Err::<AuthToken, AuthError>(AuthError::InvalidCredentials) && final(state).store@ == old(state).store@
                && final(state).counter == old(state).counter,
        },
{
    match creds {
        Credentials::UsernamePassword { username, password } => {
            if username.as_str().unicode_len() == 0 || password.as_str().unicode_len() == 0 {
                return Err(AuthError::InvalidCredentials);
            }
            state.counter = state.counter.wrapping_add(1);
            let token = generate_session_id(state.counter);
            let expires_at_ms = config.session_ttl_ms;
            let mut claims: Vec<(String, String)> = Vec::new();
            claims.push((crate::text::owned("sub"), username.clone()));
            let entry = SessionEntry { subject: username.clone(), expires_at_ms, claims: copy_claims(&claims) };
            state.store.insert(token.clone(), entry);
            proof {
                assert(claim_views(claims@) =~= seq![("sub"@, username@)]);
                lemma_issued_step(old(state).store@.dom(), old(state).counter, state.store@.dom());
            }
            Ok(AuthToken { token, token_type: TokenType::Session, expires_at_ms, subject: username, claims })
        },
        _ => Err(AuthError::InvalidCredentials),
    }
}

/// The session behind `req.token`.
pub fn validate(state: &SessionState, req: ValidateRequest, _config: &AuthConfig) -> (r: Result<ValidateResponse, AuthError>)
    requires
        state.wf(),
    ensures
        !state.store@.contains_key(req.token@) ==> r == Err::<ValidateResponse, AuthError>(AuthError::InvalidToken),
        state.store@.contains_key(req.token@) ==> (r matches Ok(v) && v.valid
            && v.subject@ == state.store@[req.token@].subject@
            && v.claims@ == state.store@[req.token@].claims@
            && v.expires_at_ms == state.store@[req.token@].expires_at_ms),
{
    match state.store.get(&req.token) {
        Some(e) => Ok(ValidateResponse {
            valid: true,
            subject: e.subject.clone(),
            claims: copy_claims(&e.claims),
            expires_at_ms: e.expires_at_ms,
        }),
        None => Err(AuthError::InvalidToken),
    }
}

/// Replace the session `token` by a new one with the configured lifetime
/// (the counter must be below `u64::MAX`, as for `authenticate`).
pub fn refresh(state: &mut SessionState, token: &str, config: &AuthConfig) -> (r: Result<AuthToken, AuthError>)
    requires
        old(state).wf(),
        old(state).store@.contains_key(token@) ==> old(state).counter < u64::MAX,
    ensures
        final(state).wf(),
        !old(state).store@.contains_key(token@) ==> r == Err::<AuthToken, AuthError>(AuthError::InvalidToken)
            && final(state).store@ == old(state).store@ && final(state).counter == old(state).counter,
        old(state).store@.contains_key(token@) ==> {
            let e = old(state).store@[token@];
            let id = session_id(old(state).counter.wrapping_add(1));
            &&& final(state).counter == old(state).counter.wrapping_add(1)
            &&& r matches Ok(t) && t.token@ == id && t.token_type == TokenType::Session
                && t.expires_at_ms == config.session_ttl_ms && t.subject@ == e.subject@ && t.claims@ == e.claims@
            &&& final(state).store@.dom() == old(state).store@.dom().remove(token@).insert(id)
            &&& forall|k: Seq<char>| k != id && k != token@ && #[trigger] old(state).store@.contains_key(k)
                ==> final(state).store@[k] == old(state).store@[k]
            &&& final(state).store@[id].subject@ == e.subject@
            &&& final(state).store@[id].claims@ == e.claims@
            &&& final(state).store@[id].expires_at_ms == config.session_ttl_ms
        },
{
    let key = crate::text::owned(token);
    let (subject, claims) = match state.store.get(&key) {
        Some(e) => (e.subject.clone(), copy_claims(&e.claims)),
        None => return Err(AuthError::InvalidToken),
    };
    state.counter = state.counter.wrapping_add(1);
    let new_token = generate_session_id(state.counter);
    let expires_at_ms = config.session_ttl_ms;
    let _ = state.store.remove(&key);
    let entry = SessionEntry { subject: subject.clone(), expires_at_ms, claims: copy_claims(&claims) };
    state.store.insert(new_token.clone(), entry);
    proof {
        lemma_issued_step(old(state).store@.dom(), old(state).counter, state.store@.dom());
    }
    Ok(AuthToken { token: new_token, token_type: TokenType::Session, expires_at_ms, subject, claims })
}

/// End the session `token`; ending an unknown session succeeds too.
pub fn revoke(state: &mut SessionState, token: &str) -> (r: Result<(), AuthError>)
    requires
        old(state).wf(),
    ensures
        final(state).wf(),
        r is Ok,
        final(state).store@ == old(state).store@.remove(token@),
        final(state).counter == old(state).counter,
{
    let key = crate::text::owned(token);
    let _ = state.store.remove(&key);
    Ok(())
}

/// The session authenticator's configuration: sessions live for an hour.
fn session_config() -> (r: AuthConfig)
    ensures
        r.token_type == TokenType::Session,
        r.session_ttl_ms == Some(3_600_000u64),
        r.jwt_secret is None,
{
    AuthConfig {
        token_type: TokenType::Session,
        session_ttl_ms: Some(3_600_000),
        jwt_secret: None,
        oauth_token_url: None,
        oauth_client_id: None,
        oauth_client_secret: None,
    }
}

/// Open an hour-long session for `username` and hand out its token.
pub fn session_authenticate(state: &mut SessionState, username: &str, password: &str) -> (r: Result<String, AuthError>)
    requires
        old(state).wf(),
        username@.len() != 0 && password@.len() != 0 ==> old(state).counter < u64::MAX,
    ensures
        final(state).wf(),
        username@.len() == 0 || password@.len() == 0 ==> r == Err::<String, AuthError>(AuthError::InvalidCredentials)
            && final(state).store@ == old(state).store@ && final(state).counter == old(state).counter,
        username@.len() != 0 && password@.len() != 0 ==> {
            let id = session_id(old(state).counter.wrapping_add(1));
            &&& r matches Ok(t) && t@ == id
            &&& final(state).counter == old(state).counter.wrapping_add(1)
            &&& final(state).store@.dom() == old(state).store@.dom().insert(id)
            &&& forall|k: Seq<char>| k != id && #[trigger] old(state).store@.contains_key(k)
                ==> final(state).store@[k] == old(state).store@[k]
            &&& final(state).store@[id].subject@ == username@
            &&& final(state).store@[id].expires_at_ms == Some(3_600_000u64)
            &&& claim_views(final(state).store@[id].claims@) == seq![("sub"@, username@)]
        },
{
    let creds = Credentials::UsernamePassword { username: crate::text::owned(username), password: crate::text::owned(password) };
    let config = session_config();
    match authenticate(state, creds, &config) {
        Ok(t) => Ok(t.token),
        Err(e) => Err(e),
    }
}

/// The subject of the session `token`.
pub fn session_validate(state: &SessionState, token: &str) -> (r: Result<String, AuthError>)
    requires
        state.wf(),
    ensures
        !state.store@.contains_key(token@) ==> r == Err::<String, AuthError>(AuthError::InvalidToken),
        state.store@.contains_key(token@) ==> (r matches Ok(s) && s@ == state.store@[token@].subject@),
{
    let config = session_config();
    match validate(state, ValidateRequest { token: crate::text::owned(token), required_claims: Vec::new() }, &config) {
        Ok(v) => Ok(v.subject),
        Err(e) => Err(e),
    }
}

/// End the session `token`.
pub fn session_revoke(state: &mut SessionState, token: &str) -> (r: Result<(), AuthError>)
    requires
        old(state).wf(),
    ensures
        final(state).wf(),
        r is Ok,
        final(state).store@ == old(state).store@.remove(token@),
        final(state).counter == old(state).counter,
{
    revoke(state, token)
}

// ── Laws ────────────────────────────────────────────────────────────────────

/// Multiplying by the inverse of the generator's multiplier undoes it, modulo 2^64.
proof fn lemma_mul_inverse(x: u64)
    ensures
        ((x * 6364136223846793005int) % 0x1_0000_0000_0000_0000int) * 13877824140714322085int
            % 0x1_0000_0000_0000_0000int == x,
{
    let m: int = 0x1_0000_0000_0000_0000;
    let a: int = 6364136223846793005;
    let inv: int = 13877824140714322085;
    let k: int = 4787856489426250814;
    assert(a * inv == 1 + k * m);
    vstd::arithmetic::div_mod::lemma_mul_mod_noop_left(x * a, inv, m);
    assert(x * a * inv == m * (x * k) + x) by (nonlinear_arith)
        requires
            a * inv == 1 + k * m,
    ;
    vstd::arithmetic::div_mod::lemma_mod_multiples_vanish(x * k, x as int, m);
    vstd::arithmetic::div_mod::lemma_small_mod(x as nat, m as nat);
}

/// One linear congruential step is one-to-one: its multiplier is odd, so it
/// has an inverse modulo 2^64.
proof fn lemma_lcg_injective(x: u64, y: u64)
    requires
        lcg_spec(x) == lcg_spec(y),
    ensures
        x == y,
{
    let px = x.wrapping_mul(6364136223846793005u64);
    let py = y.wrapping_mul(6364136223846793005u64);
    assert(px == py);
    lemma_mul_inverse(x);
    lemma_mul_inverse(y);
}

/// 256 to the power `k`.
pub open spec fn pow256(k: nat) -> nat
    decreases k,
{
    if k == 0 {
        1
    } else {
        256 * pow256((k - 1) as nat)
    }
}

/// `le_hex` writes two characters per byte.
proof fn lemma_le_hex_len(x: nat, k: nat)
    ensures
        le_hex(x, k).len() == 2 * k,
    decreases k,
{
    if k > 0 {
        crate::tracing::lemma_hex_digits_len(x % 256, 2);
        lemma_le_hex_len(x / 256, (k - 1) as nat);
    }
}

/// Two numbers below `256^k` with the same `k` bytes in hex are equal.
proof fn lemma_le_hex_injective(a: nat, b: nat, k: nat)
    requires
        a < pow256(k),
        b < pow256(k),
        a != b,
    ensures
        le_hex(a, k) != le_hex(b, k),
    decreases k,
{
    if k == 0 {
        assert(a == 0 && b == 0);
    } else {
        let k1 = (k - 1) as nat;
        let ha = hex_digits(a % 256, 2);
        let hb = hex_digits(b % 256, 2);
        crate::tracing::lemma_hex_digits_len(a % 256, 2);
        crate::tracing::lemma_hex_digits_len(b % 256, 2);
        let la = le_hex(a, k);
        let lb = le_hex(b, k);
        assert(la == ha + le_hex(a / 256, k1));
        assert(lb == hb + le_hex(b / 256, k1));
        if a % 256 != b % 256 {
            assert(crate::tracing::pow16(2) == 256) by {
                reveal_with_fuel(crate::tracing::pow16, 3);
            }
            crate::tracing::lemma_hex_digits_injective(a % 256, b % 256, 2);
            if la == lb {
                assert(la.take(2) =~= ha);
                assert(lb.take(2) =~= hb);
            }
        } else {
            assert(a / 256 != b / 256);
            assert(a / 256 < pow256(k1));
            assert(b / 256 < pow256(k1));
            lemma_le_hex_injective(a / 256, b / 256, k1);
            if la == lb {
                assert(la.skip(2) =~= le_hex(a / 256, k1));
                assert(lb.skip(2) =~= le_hex(b / 256, k1));
            }
        }
    }
}

/// Different counter values give different session tokens, so every
/// session opened between two wrap-arounds of the counter has a token of
/// its own.
pub proof fn law_session_ids_distinct(a: u64, b: u64)
    requires
        a != b,
    ensures
        session_id(a) != session_id(b),
{
    let c: u64 = 0x9e3779b97f4a7c15u64;
    let sa = lcg_spec(a.wrapping_add(c));
    let sb = lcg_spec(b.wrapping_add(c));
    assert(a.wrapping_add(c) != b.wrapping_add(c));
    if sa == sb {
        lemma_lcg_injective(a.wrapping_add(c), b.wrapping_add(c));
    }
    assert(pow256(8) == 0x1_0000_0000_0000_0000) by {
        reveal_with_fuel(pow256, 9);
    }
    lemma_le_hex_injective(sa as nat, sb as nat, 8);
    lemma_le_hex_len(sa as nat, 8);
    lemma_le_hex_len(sb as nat, 8);
    let ia = session_id(a);
    let ib = session_id(b);
    if ia == ib {
        assert(ia.take(16) =~= le_hex(sa as nat, 8));
        assert(ib.take(16) =~= le_hex(sb as nat, 8));
    }
}

/// A session opened next gets a token that no live session holds: every live
/// token was issued for a counter value from 1 to the current one, and the
/// next value (0 once the counter wraps) is none of them.
pub proof fn law_next_token_unused(s: SessionState)
    requires
        s.wf(),
    ensures
        !s.store@.contains_key(session_id(s.counter.wrapping_add(1))),
{
    let n = s.counter.wrapping_add(1);
    assert(n == s.counter + 1 || n == 0);
    if s.store@.contains_key(session_id(n)) {
        assert(s.store@.dom().contains(session_id(n)));
        let c = choose|c: u64| 1 <= c <= s.counter && session_id(n) == #[trigger] session_id(c);
        law_session_ids_distinct(c, n);
    }
}

/// A refresh replaces a session's token by a different one.
pub proof fn law_refresh_changes_token(s: SessionState, token: Seq<char>)
    requires
        s.wf(),
        s.store@.contains_key(token),
    ensures
        session_id(s.counter.wrapping_add(1)) != token,
{
    law_next_token_unused(s);
}

} // verus!
