//! OAuth 2.0 authorisation-code flow: the token-exchange request body, the
//! conversion of a token response, and the opaque-token authenticator.
use vstd::prelude::*;
use crate::auth::{AuthConfig, AuthError, AuthToken, TokenType, ValidateRequest, ValidateResponse, claim_views};
use crate::text::hex_digits;
use vstd::utf8::encode_utf8;

verus! {

/// What the token endpoint answers.
#[derive(Debug)]
pub struct TokenResponse {
    pub access_token: String,
    pub token_type: String,
    pub expires_in: Option<u64>,
    pub scope: Option<String>,
    pub sub: Option<String>,
}

/// Whether byte `b` stays as it is in a form-encoded value: ASCII letters,
/// digits and `- _ . ~`.
pub open spec fn unreserved(b: u8) -> bool {
    (65 <= b <= 90) || (97 <= b <= 122) || (48 <= b <= 57) || b == 45 || b == 95 || b == 46 || b == 126
}

/// The upper-case hexadecimal digit `d` (0–15).
pub open spec fn hex_upper(d: nat) -> char {
    if d < 10 {
        (48 + d) as char
    } else {
        (65 + d - 10) as char
    }
}

/// The percent-encoding of the bytes `b`.
pub open spec fn percent_encode(b: Seq<u8>) -> Seq<char>
    decreases b.len(),
{
    if b.len() == 0 {
        Seq::empty()
    } else {
        let x = b.last();
        percent_encode(b.drop_last()) + if unreserved(x) {
            seq![x as char]
        } else {
            seq!['%', hex_upper((x / 16) as nat), hex_upper((x % 16) as nat)]
        }
    }
}

/// The percent-encoding of the UTF-8 bytes of `s`.
pub fn url_encode(s: &str) -> (r: String)
    ensures
        r@ == percent_encode(encode_utf8(s@)),
{
    let bytes = s.as_bytes();
    let mut v: Vec<char> = Vec::new();
    let mut i: usize = 0;
    proof {
        assert(bytes@.take(0) =~= Seq::<u8>::empty());
    }
    while i < bytes.len()
        invariant
            bytes@ == encode_utf8(s@),
            i <= bytes@.len(),
            v@ == percent_encode(bytes@.take(i as int)),
        decreases bytes@.len() - i,
    {
        let b = bytes[i];
        let ghost before = v@;
        if (65 <= b && b <= 90) || (97 <= b && b <= 122) || (48 <= b && b <= 57) || b == 45 || b == 95 || b == 46 || b == 126 {
            v.push(b as char);
        } else {
            v.push('%');
            let hi = b / 16;
            let lo = b % 16;
            v.push(if hi < 10 { (48u8 + hi) as char } else { (55u8 + hi) as char });
            v.push(if lo < 10 { (48u8 + lo) as char } else { (55u8 + lo) as char });
        }
        proof {
            assert(bytes@.take(i + 1).drop_last() =~= bytes@.take(i as int));
            assert(bytes@.take(i + 1).last() == b);
            assert(v@ =~= percent_encode(bytes@.take(i + 1)));
        }
        i = i + 1;
    }
    proof {
        assert(bytes@.take(bytes@.len() as int) =~= bytes@);
    }
    crate::text::string_from_chars(v.as_slice())
}

/// The form-encoded body of the authorisation-code exchange.
pub open spec fn exchange_body(code: Seq<char>, redirect_uri: Seq<char>, client_id: Seq<char>, client_secret: Seq<char>) -> Seq<char> {
    "grant_type=authorization_code&code="@ + percent_encode(encode_utf8(code))
        + "&redirect_uri="@ + percent_encode(encode_utf8(redirect_uri))
        + "&client_id="@ + percent_encode(encode_utf8(client_id))
        + "&client_secret="@ + percent_encode(encode_utf8(client_secret))
}

/// The POST body exchanging an authorisation code for a token
/// (`application/x-www-form-urlencoded`).
pub fn build_token_exchange_body(code: &str, redirect_uri: &str, client_id: &str, client_secret: &str) -> (r: String)
    ensures
        r@ == exchange_body(code@, redirect_uri@, client_id@, client_secret@),
{
    let mut v: Vec<char> = Vec::new();
    crate::text::push_str(&mut v, "grant_type=authorization_code&code=");
    crate::text::push_str(&mut v, url_encode(code).as_str());
    crate::text::push_str(&mut v, "&redirect_uri=");
    crate::text::push_str(&mut v, url_encode(redirect_uri).as_str());
    crate::text::push_str(&mut v, "&client_id=");
    crate::text::push_str(&mut v, url_encode(client_id).as_str());
    crate::text::push_str(&mut v, "&client_secret=");
    crate::text::push_str(&mut v, url_encode(client_secret).as_str());
    proof {
        assert(v@ =~= exchange_body(code@, redirect_uri@, client_id@, client_secret@));
    }
    crate::text::string_from_chars(v.as_slice())
}

/// The token a token response describes: its lifetime in milliseconds, its
/// subject (empty when absent) and its scope as the claim `scope`.
pub fn token_response_to_auth_token(resp: TokenResponse) -> (r: AuthToken)
    requires
        resp.expires_in matches Some(secs) ==> secs * 1000 <= u64::MAX,
    ensures
        r.token@ == resp.access_token@,
        r.token_type == TokenType::OauthAccess,
        r.expires_at_ms == match resp.expires_in {
            Some(secs) => Some((secs * 1000) as u64),
            None => None::<u64>,
        },
        r.subject@ == match resp.sub {
            Some(s) => s@,
            None => Seq::<char>::empty(),
        },
        claim_views(r.claims@) == match resp.scope {
            Some(s) => seq![("scope"@, s@)],
            None => Seq::<(Seq<char>, Seq<char>)>::empty(),
        },
{
    let expires_at_ms = match resp.expires_in {
        Some(secs) => Some(secs * 1000),
        None => None,
    };
    let subject = match resp.sub {
        Some(s) => s,
        None => String::new(),
    };
    let mut claims: Vec<(String, String)> = Vec::new();
    match resp.scope {
        Some(s) => {
            let ghost sv = s@;
            claims.push((crate::text::owned("scope"), s));
            proof {
                assert(claim_views(claims@) =~= seq![("scope"@, sv)]);
            }
        },
        None => {
            proof {
                assert(claim_views(claims@) =~= Seq::<(Seq<char>, Seq<char>)>::empty());
            }
        },
    }
    AuthToken { token: resp.access_token, token_type: TokenType::OauthAccess, expires_at_ms, subject, claims }
}

/// Accept any non-empty bearer token; the authorisation server alone can say more.
pub fn validate(req: ValidateRequest, _config: &AuthConfig) -> (r: Result<ValidateResponse, AuthError>)
    ensures
        req.token@.len() == 0 ==> r == Err::<ValidateResponse, AuthError>(AuthError::InvalidToken),
        req.token@.len() != 0 ==> (r matches Ok(v) && v.valid && v.subject@.len() == 0 && v.claims@.len() == 0
            && v.expires_at_ms is None),
{
    if req.token.as_str().unicode_len() == 0 {
        return Err(AuthError::InvalidToken);
    }
    Ok(ValidateResponse { valid: true, subject: String::new(), claims: Vec::new(), expires_at_ms: None })
}

/// Revocation is the authorisation server's; here it always succeeds.
pub fn revoke(_token: &str) -> (r: Result<(), AuthError>)
    ensures
        r is Ok,
{
    Ok(())
}

/// The token-exchange body, as the OAuth authenticator sends it.
pub fn prepare_token_exchange(code: &str, redirect_uri: &str, client_id: &str, client_secret: &str) -> (r: String)
    ensures
        r@ == exchange_body(code@, redirect_uri@, client_id@, client_secret@),
{
    build_token_exchange_body(code, redirect_uri, client_id, client_secret)
}

} // verus!
