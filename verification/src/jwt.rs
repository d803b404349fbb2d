//! HS256 JSON Web Tokens: base64 and base64url coding, token signing and
//! verification, and the JWT authenticator.
use vstd::prelude::*;
use crate::auth::{AuthConfig, AuthError, AuthToken, Credentials, TokenType, ValidateRequest, ValidateResponse, claim_views};
use crate::cron::{digits_value, is_digit};
use crate::strings::{find_sub, find_chars, lemma_find_sub_at, occurs_at};
use crate::text::{dec, digit_char};
use vstd::utf8::{encode_utf8, decode_utf8, valid_utf8};

verus! {

// ── Base64 ──────────────────────────────────────────────────────────────────

/// Character `i` (0–63) of the standard base64 alphabet `A–Z a–z 0–9 + /`.
pub open spec fn b64_char(i: int) -> char {
    if i < 26 {
        (65 + i) as char
    } else if i < 52 {
        (97 + i - 26) as char
    } else if i < 62 {
        (48 + i - 52) as char
    } else if i == 62 {
        '+'
    } else {
        '/'
    }
}

/// The position of `c` in the standard base64 alphabet.
pub open spec fn b64_value(c: char) -> Option<u8> {
    if 'A' <= c && c <= 'Z' {
        Some((c as int - 65) as u8)
    } else if 'a' <= c && c <= 'z' {
        Some((c as int - 97 + 26) as u8)
    } else if '0' <= c && c <= '9' {
        Some((c as int - 48 + 52) as u8)
    } else if c == '+' {
        Some(62u8)
    } else if c == '/' {
        Some(63u8)
    } else {
        None
    }
}

/// The four characters encoding up to three bytes, padded with `=`.
pub open spec fn b64_group(d: Seq<u8>) -> Seq<char> {
    let b0 = d[0] as int;
    let b1 = if d.len() > 1 { d[1] as int } else { 0 };
    let b2 = if d.len() > 2 { d[2] as int } else { 0 };
    seq![
        b64_char(b0 / 4),
        b64_char((b0 % 4) * 16 + b1 / 16),
        if d.len() > 1 { b64_char((b1 % 16) * 4 + b2 / 64) } else { '=' },
        if d.len() > 2 { b64_char(b2 % 64) } else { '=' },
    ]
}

/// Standard padded base64 of `d`.
pub open spec fn b64(d: Seq<u8>) -> Seq<char>
    decreases d.len(),
{
    if d.len() == 0 {
        Seq::empty()
    } else if d.len() <= 3 {
        b64_group(d)
    } else {
        b64_group(d.take(3)) + b64(d.skip(3))
    }
}

/// The URL-safe form of a base64 character.
pub open spec fn url_char(c: char) -> char {
    if c == '+' {
        '-'
    } else if c == '/' {
        '_'
    } else {
        c
    }
}

/// The standard form of a URL-safe base64 character.
pub open spec fn std_char(c: char) -> char {
    if c == '-' {
        '+'
    } else if c == '_' {
        '/'
    } else {
        c
    }
}

/// `s` without its trailing `=` characters.
pub open spec fn trim_pad(s: Seq<char>) -> Seq<char>
    decreases s.len(),
{
    if s.len() > 0 && s.last() == '=' {
        trim_pad(s.drop_last())
    } else {
        s
    }
}

/// URL-safe base64 of `d` without padding.
pub open spec fn b64url(d: Seq<u8>) -> Seq<char> {
    trim_pad(b64(d).map_values(|c: char| url_char(c)))
}

/// The bytes that a group of two to four base64 characters encodes.
pub open spec fn unb64_group(g: Seq<char>) -> Option<Seq<u8>> {
    match (b64_value(g[0]), b64_value(g[1])) {
        (Some(v0), Some(v1)) => {
            let o0 = (v0 * 4 + v1 / 16) as u8;
            if g.len() > 2 {
                match b64_value(g[2]) {
                    Some(v2) => {
                        let o1 = ((v1 % 16) * 16 + v2 / 4) as u8;
                        if g.len() > 3 {
                            match b64_value(g[3]) {
                                Some(v3) => Some(seq![o0, o1, ((v2 % 4) * 64 + v3) as u8]),
                                None => None,
                            }
                        } else {
                            Some(seq![o0, o1])
                        }
                    },
                    None => None,
                }
            } else {
                Some(seq![o0])
            }
        },
        _ => None,
    }
}

/// The bytes that unpadded base64 `s` encodes, four characters at a time;
/// `None` when a character is outside the alphabet or one character is left over.
pub open spec fn unb64(s: Seq<char>) -> Option<Seq<u8>>
    decreases s.len(),
{
    if s.len() == 0 {
        Some(Seq::empty())
    } else if s.len() == 1 {
        None
    } else if s.len() <= 4 {
        unb64_group(s)
    } else {
        match (unb64_group(s.take(4)), unb64(s.skip(4))) {
            (Some(a), Some(b)) => Some(a + b),
            _ => None,
        }
    }
}

/// Character `i` of the standard base64 alphabet.
fn alphabet(i: u8) -> (r: char)
    requires
        i < 64,
    ensures
        r == b64_char(i as int),
{
    if i < 26 {
        (65u8 + i) as char
    } else if i < 52 {
        (97u8 + i - 26) as char
    } else if i < 62 {
        (48u8 + i - 52) as char
    } else if i == 62 {
        '+'
    } else {
        '/'
    }
}

/// Standard padded base64 of `data`.
pub fn base64_encode(data: &[u8]) -> (r: String)
    ensures
        r@ == b64(data@),
{
    let v = base64_chars(data);
    crate::text::string_from_chars(v.as_slice())
}

/// Standard padded base64 of `data`, as characters.
fn base64_chars(data: &[u8]) -> (r: Vec<char>)
    ensures
        r@ == b64(data@),
{
    let n = data.len();
    let mut out: Vec<char> = Vec::new();
    let mut i: usize = 0;
    proof {
        assert(data@.skip(0) =~= data@);
    }
    while i < n
        invariant
            n == data@.len(),
            i <= n,
            b64(data@) == out@ + b64(data@.skip(i as int)),
        decreases n - i,
    {
        let len = if n - i >= 3 { 3 } else { n - i };
        let b0 = data[i];
        let b1: u8 = if len > 1 { data[i + 1] } else { 0 };
        let b2: u8 = if len > 2 { data[i + 2] } else { 0 };
        let ghost rest = data@.skip(i as int);
        let ghost g = rest.take(len as int);
        let ghost before = out@;
        out.push(alphabet(b0 / 4));
        out.push(alphabet((b0 % 4) * 16 + b1 / 16));
        if len > 1 {
            out.push(alphabet((b1 % 16) * 4 + b2 / 64));
        } else {
            out.push('=');
        }
        if len > 2 {
            out.push(alphabet(b2 % 64));
        } else {
            out.push('=');
        }
        proof {
            assert(g.len() == len);
            assert(g[0] == b0);
            if len > 1 {
                assert(g[1] == b1);
            }
            if len > 2 {
                assert(g[2] == b2);
            }
            assert(out@ =~= before + b64_group(g));
            if rest.len() <= 3 {
                assert(g =~= rest);
                assert(data@.skip(i + len) =~= Seq::<u8>::empty());
            } else {
                assert(rest.skip(3) =~= data@.skip(i + 3));
            }
        }
        i = i + len;
    }
    proof {
        assert(data@.skip(n as int) =~= Seq::<u8>::empty());
        assert(out@ + Seq::<char>::empty() =~= out@);
    }
    out
}

/// `v` without its trailing `=` characters.
fn trim_pad_chars(v: &mut Vec<char>)
    ensures
        final(v)@ == trim_pad(old(v)@),
{
    while v.len() > 0 && v[v.len() - 1] == '='
        invariant
            trim_pad(v@) == trim_pad(old(v)@),
        decreases v@.len(),
    {
        v.pop();
    }
}

/// URL-safe base64 of `data` without padding.
pub fn base64url_encode(data: &[u8]) -> (r: String)
    ensures
        r@ == b64url(data@),
{
    let v = base64_chars(data);
    let mut u: Vec<char> = Vec::new();
    let mut i: usize = 0;
    while i < v.len()
        invariant
            i <= v@.len(),
            u@ == v@.take(i as int).map_values(|c: char| url_char(c)),
        decreases v@.len() - i,
    {
        let c = v[i];
        let d = if c == '+' {
            '-'
        } else if c == '/' {
            '_'
        } else {
            c
        };
        u.push(d);
        proof {
            assert(v@.take(i + 1).map_values(|c: char| url_char(c)) =~= v@.take(i as int).map_values(|c: char| url_char(c)).push(url_char(c)));
        }
        i = i + 1;
    }
    proof {
        assert(v@.take(v@.len() as int) =~= v@);
    }
    trim_pad_chars(&mut u);
    crate::text::string_from_chars(u.as_slice())
}

/// The position of `c` in the standard base64 alphabet.
fn alphabet_value(c: char) -> (r: Option<u8>)
    ensures
        r == b64_value(c),
{
    if 'A' <= c && c <= 'Z' {
        Some((c as u32 - 65) as u8)
    } else if 'a' <= c && c <= 'z' {
        Some((c as u32 - 97 + 26) as u8)
    } else if '0' <= c && c <= '9' {
        Some((c as u32 - 48 + 52) as u8)
    } else if c == '+' {
        Some(62)
    } else if c == '/' {
        Some(63)
    } else {
        None
    }
}

/// The bytes that unpadded base64 characters `s` encode.
fn unbase64_chars(s: &Vec<char>) -> (r: Option<Vec<u8>>)
    ensures
        match unb64(s@) {
            Some(b) => r matches Some(v) && v@ == b,
            None => r is None,
        },
{
    let n = s.len();
    let mut out: Vec<u8> = Vec::new();
    let mut i: usize = 0;
    proof {
        assert(s@.skip(0) =~= s@);
    }
    while i < n
        invariant
            n == s@.len(),
            i <= n,
            unb64(s@) == match unb64(s@.skip(i as int)) {
                Some(b) => Some(out@ + b),
                None => None::<Seq<u8>>,
            },
        decreases n - i,
    {
        let ghost rest = s@.skip(i as int);
        let len = if n - i >= 4 { 4 } else { n - i };
        if len == 1 {
            return None;
        }
        let ghost g = rest.take(len as int);
        proof {
            assert(g.len() == len);
            if rest.len() <= 4 {
                assert(g =~= rest);
            }
            assert(g[0] == s@[i as int]);
            assert(g[1] == s@[i + 1]);
            if len > 2 {
                assert(g[2] == s@[i + 2]);
            }
            if len > 3 {
                assert(g[3] == s@[i + 3]);
            }
        }
        let v0 = match alphabet_value(s[i]) {
            Some(x) => x,
            None => return None,
        };
        let v1 = match alphabet_value(s[i + 1]) {
            Some(x) => x,
            None => return None,
        };
        let ghost before = out@;
        out.push(v0 * 4 + v1 / 16);
        if len > 2 {
            let v2 = match alphabet_value(s[i + 2]) {
                Some(x) => x,
                None => return None,
            };
            out.push((v1 % 16) * 16 + v2 / 4);
            if len > 3 {
                let v3 = match alphabet_value(s[i + 3]) {
                    Some(x) => x,
                    None => return None,
                };
                out.push((v2 % 4) * 64 + v3);
            }
        }
        proof {
            assert(unb64_group(g) == Some(out@.subrange(before.len() as int, out@.len() as int)));
            assert(out@ =~= before + out@.subrange(before.len() as int, out@.len() as int));
            if rest.len() > 4 {
                assert(rest.skip(4) =~= s@.skip(i + 4));
            } else {
                assert(s@.skip(i + len) =~= Seq::<char>::empty());
            }
        }
        i = i + len;
    }
    proof {
        assert(s@.skip(n as int) =~= Seq::<char>::empty());
        assert(out@ + Seq::<u8>::empty() =~= out@);
    }
    Some(out)
}

/// The bytes that padded standard base64 `s` encodes.
pub fn base64_decode(s: &str) -> (r: Option<Vec<u8>>)
    ensures
        match unb64(trim_pad(s@)) {
            Some(b) => r matches Some(v) && v@ == b,
            None => r is None,
        },
{
    let mut v = crate::text::chars_of(s);
    trim_pad_chars(&mut v);
    unbase64_chars(&v)
}

/// The bytes that URL-safe base64 `s` encodes, with or without padding.
pub fn base64url_decode(s: &str) -> (r: Option<Vec<u8>>)
    ensures
        match unb64(trim_pad(s@.map_values(|c: char| std_char(c)))) {
            Some(b) => r matches Some(v) && v@ == b,
            None => r is None,
        },
{
    let v = crate::text::chars_of(s);
    let mut w: Vec<char> = Vec::new();
    let mut i: usize = 0;
    while i < v.len()
        invariant
            v@ == s@,
            i <= v@.len(),
            w@ == v@.take(i as int).map_values(|c: char| std_char(c)),
        decreases v@.len() - i,
    {
        let c = v[i];
        let d = if c == '-' {
            '+'
        } else if c == '_' {
            '/'
        } else {
            c
        };
        w.push(d);
        proof {
            assert(v@.take(i + 1).map_values(|c: char| std_char(c)) =~= v@.take(i as int).map_values(|c: char| std_char(c)).push(std_char(c)));
        }
        i = i + 1;
    }
    proof {
        assert(v@.take(v@.len() as int) =~= v@);
    }
    trim_pad_chars(&mut w);
    unbase64_chars(&w)
}

// ── Outside functions ───────────────────────────────────────────────────────

/// The HMAC-SHA256 tag of `msg` under `key`.
pub uninterp spec fn hmac_sha256(key: Seq<u8>, msg: Seq<u8>) -> Seq<u8>;

/// Wraps `Hmac::<Sha256>::new_from_slice`, `Mac::update` and
/// `Mac::finalize` of the `hmac` and `sha2` crates: the 32-byte HMAC-SHA256
/// tag of `msg` under `key`. `new_from_slice` accepts keys of every length.
#[verifier::external_body]
fn hmac_sha256_tag(key: &[u8], msg: &[u8]) -> (r: Vec<u8>)
    ensures
        r@ == hmac_sha256(key@, msg@),
        r@.len() == 32,
{
    match <hmac::Hmac<sha2::Sha256> as hmac::Mac>::new_from_slice(key) {
        Ok(mut mac) => {
            hmac::Mac::update(&mut mac, msg);
            hmac::Mac::finalize(mac).into_bytes().to_vec()
        },
        Err(_) => Vec::new(),
    }
}

// ── Tokens ──────────────────────────────────────────────────────────────────

/// The header of every token: `{"alg":"HS256","typ":"JWT"}`.
pub open spec fn header_json() -> Seq<char> {
    "{\"alg\":\"HS256\",\"typ\":\"JWT\"}"@
}

/// `,"k":"v"` for each claim.
pub open spec fn claims_json(claims: Seq<(Seq<char>, Seq<char>)>) -> Seq<char>
    decreases claims.len(),
{
    if claims.len() == 0 {
        Seq::empty()
    } else {
        claims_json(claims.drop_last()) + ",\""@ + claims.last().0 + "\":\""@ + claims.last().1 + "\""@
    }
}

/// The payload JSON: the subject, the expiry in whole seconds when there is
/// one, then the claims.
pub open spec fn payload_json(subject: Seq<char>, claims: Seq<(Seq<char>, Seq<char>)>, expires_at_ms: Option<u64>) -> Seq<char> {
    "{\"sub\":\""@ + subject + "\""@
        + match expires_at_ms {
            Some(exp) => ",\"exp\":"@ + dec((exp / 1000) as nat),
            None => Seq::empty(),
        }
        + claims_json(claims) + "}"@
}

/// The token signed with `secret`: header, payload and HMAC-SHA256 signature,
/// each URL-safe base64, joined by `.`.
pub open spec fn jwt_of(subject: Seq<char>, claims: Seq<(Seq<char>, Seq<char>)>, expires_at_ms: Option<u64>, secret: Seq<char>) -> Seq<char> {
    let header = b64url(encode_utf8(header_json()));
    let payload = b64url(encode_utf8(payload_json(subject, claims, expires_at_ms)));
    let input = header + "."@ + payload;
    input + "."@ + b64url(hmac_sha256(encode_utf8(secret), encode_utf8(input)))
}

/// The characters of `v`.
fn push_string(v: &mut Vec<char>, s: &String)
    ensures
        final(v)@ == old(v)@ + s@,
{
    crate::text::push_str(v, s.as_str());
}

/// Sign a token for `subject` with `claims` and an optional expiry.
pub fn build_jwt(subject: &str, claims: &[(String, String)], expires_at_ms: Option<u64>, secret: &str) -> (r: String)
    ensures
        r@ == jwt_of(subject@, claim_views(claims@), expires_at_ms, secret@),
{
    let header = base64url_encode("{\"alg\":\"HS256\",\"typ\":\"JWT\"}".as_bytes());
    let mut p: Vec<char> = Vec::new();
    crate::text::push_str(&mut p, "{\"sub\":\"");
    crate::text::push_str(&mut p, subject);
    crate::text::push_str(&mut p, "\"");
    match expires_at_ms {
        Some(exp) => {
            crate::text::push_str(&mut p, ",\"exp\":");
            let d = crate::text::u64_to_dec(exp / 1000);
            crate::text::push_chars(&mut p, &d);
        },
        None => {},
    }
    let ghost head = p@;
    let mut i: usize = 0;
    proof {
        assert(claim_views(claims@).take(0) =~= Seq::<(Seq<char>, Seq<char>)>::empty());
        assert(p@ =~= head + claims_json(claim_views(claims@).take(0)));
    }
    while i < claims.len()
        invariant
            i <= claims@.len(),
            p@ == head + claims_json(claim_views(claims@).take(i as int)),
        decreases claims@.len() - i,
    {
        crate::text::push_str(&mut p, ",\"");
        push_string(&mut p, &claims[i].0);
        crate::text::push_str(&mut p, "\":\"");
        push_string(&mut p, &claims[i].1);
        crate::text::push_str(&mut p, "\"");
        proof {
            let cv = claim_views(claims@);
            assert(cv.take(i + 1).drop_last() =~= cv.take(i as int));
            assert(cv.take(i + 1).last() == (claims@[i as int].0@, claims@[i as int].1@));
            assert(p@ =~= head + claims_json(cv.take(i + 1)));
        }
        i = i + 1;
    }
    crate::text::push_str(&mut p, "}");
    proof {
        assert(claim_views(claims@).take(claims@.len() as int) =~= claim_views(claims@));
        assert(p@ =~= payload_json(subject@, claim_views(claims@), expires_at_ms));
    }
    let payload_str = crate::text::string_from_chars(p.as_slice());
    let payload = base64url_encode(payload_str.as_str().as_bytes());
    let mut input: Vec<char> = Vec::new();
    push_string(&mut input, &header);
    crate::text::push_str(&mut input, ".");
    push_string(&mut input, &payload);
    let input_str = crate::text::string_from_chars(input.as_slice());
    let tag = hmac_sha256_tag(secret.as_bytes(), input_str.as_str().as_bytes());
    let sig = base64url_encode(tag.as_slice());
    let mut out: Vec<char> = Vec::new();
    push_string(&mut out, &input_str);
    crate::text::push_str(&mut out, ".");
    push_string(&mut out, &sig);
    crate::text::string_from_chars(out.as_slice())
}

// ── Reading tokens ──────────────────────────────────────────────────────────

/// The three `.`-separated parts of a token, the last taking the rest
/// (what `splitn(3, '.')` yields), when there are three.
pub open spec fn split3(t: Seq<char>) -> Option<(Seq<char>, Seq<char>, Seq<char>)> {
    match crate::strings::first_index(t, '.') {
        None => None,
        Some(i) => {
            let r = t.skip(i + 1);
            match crate::strings::first_index(r, '.') {
                None => None,
                Some(j) => Some((t.take(i), r.take(j), r.skip(j + 1))),
            }
        },
    }
}

/// The string value of `"key":"…"` at its first occurrence in `json`.
pub open spec fn json_str(json: Seq<char>, key: Seq<char>) -> Option<Seq<char>> {
    let pat = "\""@ + key + "\":\""@;
    match find_sub(json, pat, 0) {
        None => None,
        Some(i) => {
            let rest = json.skip(i + pat.len());
            match crate::strings::first_index(rest, '"') {
                None => None,
                Some(e) => Some(rest.take(e)),
            }
        },
    }
}

/// The number of ASCII digits at the start of `s`.
pub open spec fn digit_run(s: Seq<char>) -> nat
    decreases s.len(),
{
    if s.len() > 0 && is_digit(s[0]) {
        1 + digit_run(s.drop_first())
    } else {
        0
    }
}

/// The number value of `"key":…` at its first occurrence in `json`: the
/// digits that follow, when there are some and they fit in 64 bits.
pub open spec fn json_u64(json: Seq<char>, key: Seq<char>) -> Option<u64> {
    let pat = "\""@ + key + "\":"@;
    match find_sub(json, pat, 0) {
        None => None,
        Some(i) => {
            let rest = json.skip(i + pat.len());
            let d = rest.take(digit_run(rest) as int);
            if d.len() > 0 && digits_value(d) <= u64::MAX {
                Some(digits_value(d) as u64)
            } else {
                None
            }
        },
    }
}

/// What a token signed with `secret` says: its subject and its expiry in
/// milliseconds; `None` when it is malformed, its signature does not match,
/// its payload is not UTF-8 base64 JSON with a `sub`, or its expiry in
/// milliseconds does not fit in 64 bits.
pub open spec fn verified(token: Seq<char>, secret: Seq<char>) -> Option<(Seq<char>, Option<u64>)> {
    match split3(token) {
        None => None,
        Some((p0, p1, p2)) => if b64url(hmac_sha256(encode_utf8(secret), encode_utf8(p0 + "."@ + p1))) != p2 {
            None
        } else {
            match unb64(trim_pad(p1.map_values(|c: char| std_char(c)))) {
                None => None,
                Some(bytes) => if !valid_utf8(bytes) {
                    None
                } else {
                    let js = decode_utf8(bytes);
                    match json_str(js, "sub"@) {
                        None => None,
                        Some(sub) => match json_u64(js, "exp"@) {
                            Some(e) => if e * 1000 > u64::MAX {
                                None
                            } else {
                                Some((sub, Some((e * 1000) as u64)))
                            },
                            None => Some((sub, None)),
                        },
                    }
                },
            }
        },
    }
}

/// The string value of `"key":"…"` in `json`.
pub fn extract_json_str(json: &str, key: &str) -> (r: Option<String>)
    ensures
        crate::text::opt_view(r) == json_str(json@, key@),
{
    let h = crate::text::chars_of(json);
    let mut pat: Vec<char> = Vec::new();
    crate::text::push_str(&mut pat, "\"");
    crate::text::push_str(&mut pat, key);
    crate::text::push_str(&mut pat, "\":\"");
    proof {
        reveal_strlit("\"");
        assert(pat@ =~= "\""@ + key@ + "\":\""@);
    }
    match find_chars(&h, &pat) {
        None => None,
        Some(i) => {
            let pl = pat.len();
            let hl = h.len();
            let rest = crate::text::slice_vec(&h, i + pl, hl);
            proof {
                assert(rest@ =~= json@.skip(i + pat@.len()));
            }
            match crate::strings::find_char(&rest, '"') {
                None => None,
                Some(e) => {
                    let v = crate::text::slice_vec(&rest, 0, e);
                    proof {
                        assert(v@ =~= rest@.take(e as int));
                    }
                    Some(crate::text::string_from_chars(v.as_slice()))
                },
            }
        },
    }
}

/// The number value of `"key":…` in `json`.
pub fn extract_json_u64(json: &str, key: &str) -> (r: Option<u64>)
    ensures
        r == json_u64(json@, key@),
{
    let h = crate::text::chars_of(json);
    let mut pat: Vec<char> = Vec::new();
    crate::text::push_str(&mut pat, "\"");
    crate::text::push_str(&mut pat, key);
    crate::text::push_str(&mut pat, "\":");
    proof {
        reveal_strlit("\"");
        assert(pat@ =~= "\""@ + key@ + "\":"@);
    }
    match find_chars(&h, &pat) {
        None => None,
        Some(i) => {
            let pl = pat.len();
            let hl = h.len();
            let start = i + pl;
            let ghost rest = json@.skip(start as int);
            let mut j: usize = start;
            let mut acc: u128 = 0;
            let mut overflow = false;
            proof {
                assert(rest.skip(0) =~= rest);
                assert(rest.take(0) =~= Seq::<char>::empty());
            }
            while j < h.len() && '0' <= h[j] && h[j] <= '9'
                invariant
                    h@ == json@,
                    start <= j <= h@.len(),
                    rest == json@.skip(start as int),
                    digit_run(rest) == (j - start) + digit_run(rest.skip(j - start)),
                    all_digits_of(rest.take(j - start)),
                    !overflow ==> acc == digits_value(rest.take(j - start)) && acc <= u64::MAX,
                    overflow ==> digits_value(rest.take(j - start)) > u64::MAX,
                decreases h@.len() - j,
            {
                let ghost k = j - start;
                proof {
                    assert(rest.skip(k)[0] == h@[j as int]);
                    assert(rest.skip(k).drop_first() =~= rest.skip(k + 1));
                    assert(rest.take(k + 1).drop_last() =~= rest.take(k));
                    assert(rest.take(k + 1).last() == h@[j as int]);
                    assert(all_digits_of(rest.take(k + 1))) by {
                        assert forall|q: int| 0 <= q < k + 1 implies is_digit(#[trigger] rest.take(k + 1)[q]) by {
                            if q < k {
                                assert(rest.take(k + 1)[q] == rest.take(k)[q]);
                            }
                        }
                    }
                }
                if !overflow {
                    acc = acc * 10 + (h[j] as u32 - 48) as u128;
                    if acc > 0xffff_ffff_ffff_ffff {
                        overflow = true;
                    }
                } else {
                    proof {
                        assert(digits_value(rest.take(k + 1)) == digits_value(rest.take(k)) * 10 + ((h@[j as int] as u32) - 48) as nat);
                    }
                }
                j = j + 1;
            }
            proof {
                let k = j - start;
                if j < h@.len() {
                    assert(rest.skip(k)[0] == h@[j as int]);
                }
                assert(digit_run(rest) == k);
            }
            if j == start || overflow {
                return None;
            }
            Some(acc as u64)
        },
    }
}

/// Whether every character of `s` is an ASCII digit.
pub open spec fn all_digits_of(s: Seq<char>) -> bool {
    forall|q: int| 0 <= q < s.len() ==> is_digit(#[trigger] s[q])
}

/// Check a token signed with `secret`: its subject, its expiry in
/// milliseconds, and (always empty) claims.
pub fn verify_jwt(token: &str, secret: &str) -> (r: Option<(String, Option<u64>, Vec<(String, String)>)>)
    ensures
        match verified(token@, secret@) {
            Some((sub, exp)) => r matches Some(x) && x.0@ == sub && x.1 == exp && x.2@.len() == 0,
            None => r is None,
        },
{
    let t = crate::text::chars_of(token);
    let i = match crate::strings::find_char(&t, '.') {
        Some(i) => i,
        None => return None,
    };
    let r1 = crate::text::slice_vec(&t, i + 1, t.len());
    let j = match crate::strings::find_char(&r1, '.') {
        Some(j) => j,
        None => {
            proof {
                assert(r1@ =~= token@.skip(i + 1));
            }
            return None;
        },
    };
    let p0 = crate::text::slice_vec(&t, 0, i);
    let p1 = crate::text::slice_vec(&r1, 0, j);
    let p2 = crate::text::slice_vec(&r1, j + 1, r1.len());
    proof {
        assert(r1@ =~= token@.skip(i + 1));
        assert(p0@ =~= token@.take(i as int));
        assert(p1@ =~= r1@.take(j as int));
        assert(p2@ =~= r1@.skip(j + 1));
    }
    let mut input: Vec<char> = Vec::new();
    crate::text::push_chars(&mut input, &p0);
    crate::text::push_str(&mut input, ".");
    crate::text::push_chars(&mut input, &p1);
    let input_str = crate::text::string_from_chars(input.as_slice());
    let tag = hmac_sha256_tag(secret.as_bytes(), input_str.as_str().as_bytes());
    let expected = base64url_encode(tag.as_slice());
    let p2s = crate::text::string_from_chars(p2.as_slice());
    if expected != p2s {
        return None;
    }
    let p1s = crate::text::string_from_chars(p1.as_slice());
    let payload = match base64url_decode(p1s.as_str()) {
        Some(b) => b,
        None => return None,
    };
    let json = match crate::text::string_from_utf8(payload) {
        Some(j) => j,
        None => return None,
    };
    let sub = match extract_json_str(json.as_str(), "sub") {
        Some(s) => s,
        None => return None,
    };
    let exp = match extract_json_u64(json.as_str(), "exp") {
        Some(e) => {
            if e > 18_446_744_073_709_551u64 {
                return None;
            }
            Some(e * 1000)
        },
        None => None,
    };
    Some((sub, exp, Vec::new()))
}

/// The secret the JWT authenticator signs with.
fn secret_of(config: &AuthConfig) -> (r: Result<&String, AuthError>)
    ensures
        config.jwt_secret is None ==> r == Err::<&String, AuthError>(AuthError::InvalidConfig),
        config.jwt_secret matches Some(s) ==> r == Ok::<&String, AuthError>(&s),
{
    match &config.jwt_secret {
        Some(s) => Ok(s),
        None => Err(AuthError::InvalidConfig),
    }
}

/// Issue a signed token for a username and a password (both non-empty), or
/// check a presented bearer token; needs the configured secret.
pub fn authenticate(creds: Credentials, config: &AuthConfig) -> (r: Result<AuthToken, AuthError>)
    ensures
        config.jwt_secret is None ==> r == Err::<AuthToken, AuthError>(AuthError::InvalidConfig),
        config.jwt_secret matches Some(secret) ==> match creds {
            Credentials::UsernamePassword { username, password } => if username@.len() == 0 || password@.len() == 0 {
                r == Err::<AuthToken, AuthError>(AuthError::InvalidCredentials)
            } else {
                r matches Ok(t) && t.token@ == jwt_of(username@, seq![("sub"@, username@)], config.session_ttl_ms, secret@)
                    && t.token_type == TokenType::Jwt && t.expires_at_ms == config.session_ttl_ms
                    && t.subject@ == username@ && claim_views(t.claims@) == seq![("sub"@, username@)]
            },
            Credentials::BearerToken(tok) => match verified(tok@, secret@) {
                Some((sub, exp)) => r matches Ok(t) && t.token@ == tok@ && t.token_type == TokenType::Jwt
                    && t.expires_at_ms == exp && t.subject@ == sub && t.claims@.len() == 0,
                None => r == Err::<AuthToken, AuthError>(AuthError::InvalidToken),
            },
            _ => r == Err::<AuthToken, AuthError>(AuthError::InvalidCredentials),
        },
{
    let secret = secret_of(config)?;
    match creds {
        Credentials::UsernamePassword { username, password } => {
            if username.as_str().unicode_len() == 0 || password.as_str().unicode_len() == 0 {
                return Err(AuthError::InvalidCredentials);
            }
            let mut claims: Vec<(String, String)> = Vec::new();
            claims.push((crate::text::owned("sub"), username.clone()));
            proof {
                assert(claim_views(claims@) =~= seq![("sub"@, username@)]);
            }
            let expires_at_ms = config.session_ttl_ms;
            let token = build_jwt(username.as_str(), claims.as_slice(), expires_at_ms, secret.as_str());
            Ok(AuthToken { token, token_type: TokenType::Jwt, expires_at_ms, subject: username, claims })
        },
        Credentials::BearerToken(token) => {
            match verify_jwt(token.as_str(), secret.as_str()) {
                Some((sub, exp, claims)) => Ok(AuthToken { token, token_type: TokenType::Jwt, expires_at_ms: exp, subject: sub, claims }),
                None => Err(AuthError::InvalidToken),
            }
        },
        _ => Err(AuthError::InvalidCredentials),
    }
}

/// Check a token against the configured secret.
pub fn validate(req: ValidateRequest, config: &AuthConfig) -> (r: Result<ValidateResponse, AuthError>)
    ensures
        config.jwt_secret is None ==> r == Err::<ValidateResponse, AuthError>(AuthError::InvalidConfig),
        config.jwt_secret matches Some(secret) ==> match verified(req.token@, secret@) {
            Some((sub, exp)) => r matches Ok(v) && v.valid && v.subject@ == sub && v.claims@.len() == 0 && v.expires_at_ms == exp,
            None => r == Err::<ValidateResponse, AuthError>(AuthError::InvalidToken),
        },
{
    let secret = secret_of(config)?;
    match verify_jwt(req.token.as_str(), secret.as_str()) {
        Some((sub, exp, claims)) => Ok(ValidateResponse { valid: true, subject: sub, claims, expires_at_ms: exp }),
        None => Err(AuthError::InvalidToken),
    }
}

/// Re-issue a valid token with the configured lifetime.
pub fn refresh(token: &str, config: &AuthConfig) -> (r: Result<AuthToken, AuthError>)
    ensures
        config.jwt_secret is None ==> r == Err::<AuthToken, AuthError>(AuthError::InvalidConfig),
        config.jwt_secret matches Some(secret) ==> match verified(token@, secret@) {
            Some((sub, exp)) => r matches Ok(t) && t.token@ == jwt_of(sub, Seq::empty(), config.session_ttl_ms, secret@)
                && t.token_type == TokenType::Jwt && t.expires_at_ms == config.session_ttl_ms
                && t.subject@ == sub && t.claims@.len() == 0,
            None => r == Err::<AuthToken, AuthError>(AuthError::InvalidToken),
        },
{
    let secret = secret_of(config)?;
    let (sub, _, claims) = match verify_jwt(token, secret.as_str()) {
        Some(x) => x,
        None => return Err(AuthError::InvalidToken),
    };
    let expires_at_ms = config.session_ttl_ms;
    proof {
        assert(claim_views(claims@) =~= Seq::<(Seq<char>, Seq<char>)>::empty());
    }
    let new_token = build_jwt(sub.as_str(), claims.as_slice(), expires_at_ms, secret.as_str());
    Ok(AuthToken { token: new_token, token_type: TokenType::Jwt, expires_at_ms, subject: sub, claims })
}

/// Revoking a signed token needs a block list kept elsewhere; here it always succeeds.
pub fn revoke(_token: &str) -> (r: Result<(), AuthError>)
    ensures
        r is Ok,
{
    Ok(())
}

/// The JWT authenticator's configuration: tokens live for an hour and are
/// signed with `secret`.
fn component_config(secret: &str) -> (r: AuthConfig)
    ensures
        r.token_type == TokenType::Jwt,
        r.session_ttl_ms == Some(3_600_000u64),
        r.jwt_secret matches Some(s) && s@ == secret@,
{
    AuthConfig {
        token_type: TokenType::Jwt,
        session_ttl_ms: Some(3_600_000),
        jwt_secret: Some(crate::text::owned(secret)),
        oauth_token_url: None,
        oauth_client_id: None,
        oauth_client_secret: None,
    }
}

/// Sign a token for `username` with `secret`, valid for an hour.
pub fn jwt_authenticate(username: &str, password: &str, secret: &str) -> (r: Result<String, AuthError>)
    ensures
        username@.len() == 0 || password@.len() == 0 ==> r == Err::<String, AuthError>(AuthError::InvalidCredentials),
        username@.len() != 0 && password@.len() != 0 ==> (r matches Ok(t)
            && t@ == jwt_of(username@, seq![("sub"@, username@)], Some(3_600_000u64), secret@)),
{
    let creds = Credentials::UsernamePassword { username: crate::text::owned(username), password: crate::text::owned(password) };
    let config = component_config(secret);
    match authenticate(creds, &config) {
        Ok(t) => Ok(t.token),
        Err(e) => Err(e),
    }
}

/// The subject of a token signed with `secret`.
pub fn jwt_validate(token: &str, secret: &str) -> (r: Result<String, AuthError>)
    ensures
        match verified(token@, secret@) {
            Some((sub, _)) => r matches Ok(s) && s@ == sub,
            None => r == Err::<String, AuthError>(AuthError::InvalidToken),
        },
{
    let config = component_config(secret);
    match validate(ValidateRequest { token: crate::text::owned(token), required_claims: Vec::new() }, &config) {
        Ok(v) => Ok(v.subject),
        Err(e) => Err(e),
    }
}

// ── Laws ────────────────────────────────────────────────────────────────────

/// Each base64 character reads back as its position; none is `=` or `.`,
/// and the URL-safe form maps back to it.
proof fn lemma_b64_char(i: int)
    requires
        0 <= i < 64,
    ensures
        b64_value(b64_char(i)) == Some(i as u8),
        b64_char(i) != '=',
        url_char(b64_char(i)) != '.',
        url_char(b64_char(i)) != '=',
        std_char(url_char(b64_char(i))) == b64_char(i),
{
}

/// Whether every character of `s` is in the base64 alphabet.
pub open spec fn all_b64(s: Seq<char>) -> bool {
    forall|q: int| 0 <= q < s.len() ==> (#[trigger] b64_value(s[q])) is Some
}

/// A padded group of one to three bytes, stripped of its padding, reads back
/// as those bytes; it has two to four characters, all in the alphabet.
proof fn lemma_group_roundtrip(d: Seq<u8>)
    requires
        1 <= d.len() <= 3,
    ensures
        trim_pad(b64_group(d)).len() == d.len() + 1,
        trim_pad(b64_group(d)) == b64_group(d).take(d.len() + 1int),
        all_b64(trim_pad(b64_group(d))),
        unb64_group(trim_pad(b64_group(d))) == Some(d),
{
    let g = b64_group(d);
    let b0 = d[0] as int;
    let b1 = if d.len() > 1 { d[1] as int } else { 0 };
    let b2 = if d.len() > 2 { d[2] as int } else { 0 };
    lemma_b64_char(b0 / 4);
    lemma_b64_char((b0 % 4) * 16 + b1 / 16);
    lemma_b64_char((b1 % 16) * 4 + b2 / 64);
    lemma_b64_char(b2 % 64);
    let t = g.take(d.len() + 1int);
    if d.len() == 1 {
        assert(g.drop_last().drop_last() =~= t);
        assert(trim_pad(g.drop_last()) == trim_pad(t));
        assert(trim_pad(t) == t);
    } else if d.len() == 2 {
        assert(g.drop_last() =~= t);
        assert(trim_pad(t) == t);
    } else {
        assert(g =~= t);
    }
    let o0 = ((b0 / 4) * 4 + ((b0 % 4) * 16 + b1 / 16) / 16) as u8;
    assert(o0 == d[0]);
    if d.len() > 1 {
        assert((((b0 % 4) * 16 + b1 / 16) % 16) * 16 + ((b1 % 16) * 4 + b2 / 64) / 4 == b1);
    }
    if d.len() > 2 {
        assert((((b1 % 16) * 4 + b2 / 64) % 4) * 64 + b2 % 64 == b2);
    }
    assert(all_b64(t));
    if d.len() == 1 {
        assert(unb64_group(t) == Some(seq![o0]));
        assert(seq![o0] =~= d);
    } else if d.len() == 2 {
        assert(unb64_group(t) == Some(seq![o0, d[1]]));
        assert(seq![o0, d[1]] =~= d);
    } else {
        assert(unb64_group(t) == Some(seq![o0, d[1], d[2]]));
        assert(seq![o0, d[1], d[2]] =~= d);
    }
}

/// Stripping padding from `a + b` strips it from `b` alone, when `b` keeps
/// something after stripping.
proof fn lemma_trim_pad_concat(a: Seq<char>, b: Seq<char>)
    requires
        trim_pad(b).len() > 0,
    ensures
        trim_pad(a + b) == a + trim_pad(b),
    decreases b.len(),
{
    if b.len() > 0 && b.last() == '=' {
        assert((a + b).drop_last() =~= a + b.drop_last());
        lemma_trim_pad_concat(a, b.drop_last());
    } else {
        assert(b.len() > 0);
        assert((a + b).last() == b.last());
    }
}

/// Standard base64, stripped of padding, reads back as the bytes; it is made
/// of alphabet characters only and is empty exactly for no bytes.
proof fn lemma_b64_roundtrip(d: Seq<u8>)
    ensures
        unb64(trim_pad(b64(d))) == Some(d),
        all_b64(trim_pad(b64(d))),
        d.len() > 0 ==> trim_pad(b64(d)).len() >= 2,
        d.len() == 0 ==> trim_pad(b64(d)).len() == 0,
    decreases d.len(),
{
    if d.len() == 0 {
        assert(b64(d) =~= Seq::<char>::empty());
    } else if d.len() <= 3 {
        lemma_group_roundtrip(d);
    } else {
        let g = b64_group(d.take(3));
        let rest = d.skip(3);
        lemma_group_roundtrip(d.take(3));
        lemma_b64_roundtrip(rest);
        let t = trim_pad(b64(rest));
        lemma_trim_pad_concat(g, b64(rest));
        assert(trim_pad(g) == g);
        let s = g + t;
        assert(s.len() > 4);
        assert(s.take(4) =~= g);
        assert(s.skip(4) =~= t);
        assert(d.take(3) + rest =~= d);
        assert(all_b64(s)) by {
            assert forall|q: int| 0 <= q < s.len() implies (#[trigger] b64_value(s[q])) is Some by {
                if q < 4 {
                    assert(s[q] == g[q]);
                } else {
                    assert(s[q] == t[q - 4]);
                }
            }
        }
    }
}

/// Mapping each character to its URL-safe form commutes with stripping
/// padding.
proof fn lemma_trim_pad_url(s: Seq<char>)
    requires
        all_b64(trim_pad(s)),
    ensures
        trim_pad(s.map_values(|c: char| url_char(c))) == trim_pad(s).map_values(|c: char| url_char(c)),
    decreases s.len(),
{
    let m = s.map_values(|c: char| url_char(c));
    if s.len() > 0 && s.last() == '=' {
        assert(m.drop_last() =~= s.drop_last().map_values(|c: char| url_char(c)));
        lemma_trim_pad_url(s.drop_last());
    } else if s.len() > 0 {
        let q = s.len() - 1;
        assert(b64_value(s[q]) is Some);
        assert(m.last() == url_char(s.last()));
    }
}

/// URL-safe base64 reads back as the bytes, and holds no `.`.
proof fn lemma_b64url_roundtrip(d: Seq<u8>)
    ensures
        unb64(trim_pad(b64url(d).map_values(|c: char| std_char(c)))) == Some(d),
        !b64url(d).contains('.'),
{
    lemma_b64_roundtrip(d);
    let t = trim_pad(b64(d));
    lemma_trim_pad_url(b64(d));
    let u = t.map_values(|c: char| url_char(c));
    assert(b64url(d) == u);
    assert forall|q: int| 0 <= q < t.len() implies url_char(#[trigger] t[q]) != '.'
        && url_char(t[q]) != '=' && std_char(url_char(t[q])) == t[q] by {
        assert(b64_value(t[q]) is Some);
        let v = b64_value(t[q])->0;
        lemma_b64_char(v as int);
        assert(b64_char(v as int) == t[q]);
    }
    assert(u.map_values(|c: char| std_char(c)) =~= t);
    if u.contains('.') {
        let q = choose|q: int| 0 <= q < u.len() && u[q] == '.';
        assert(u[q] == url_char(t[q]));
    }
    if t.len() > 0 {
        assert(t.last() == t[t.len() - 1]);
        assert(b64_value(t.last()) is Some);
    }
    assert(trim_pad(t) == t);
}

/// The first `c` of `s` is at `i` when `s[i]` is `c` and nothing before is.
proof fn lemma_first_index_at(s: Seq<char>, c: char, i: int)
    requires
        0 <= i < s.len(),
        s[i] == c,
        forall|j: int| 0 <= j < i ==> s[j] != c,
    ensures
        crate::strings::first_index(s, c) == Some(i),
{
    assert(s.contains(c));
    let k = crate::strings::first_index(s, c)->0;
    if k < i {
        assert(s[k] != c);
    }
    if k > i {
        assert(s[i] != c);
    }
}

/// A token made of three parts, the first two without `.`, splits back into them.
#[verifier::spinoff_prover]
#[verifier::rlimit(30)]
proof fn lemma_split3(a: Seq<char>, b: Seq<char>, c: Seq<char>)
    requires
        !a.contains('.'),
        !b.contains('.'),
    ensures
        split3(a + "."@ + b + "."@ + c) == Some((a, b, c)),
{
    reveal_strlit(".");
    let t = a + "."@ + b + "."@ + c;
    assert forall|j: int| 0 <= j < a.len() implies t[j] != '.' by {
        assert(t[j] == a[j]);
    }
    lemma_first_index_at(t, '.', a.len() as int);
    let r = t.skip(a.len() + 1int);
    assert(r =~= b + "."@ + c);
    assert forall|j: int| 0 <= j < b.len() implies r[j] != '.' by {
        assert(r[j] == b[j]);
    }
    lemma_first_index_at(r, '.', b.len() as int);
    assert(t.take(a.len() as int) =~= a);
    assert(r.take(b.len() as int) =~= b);
    assert(r.skip(b.len() + 1int) =~= c);
}

/// The decimal rendering of `n` is digits only, reads back as `n`, and is not empty.
proof fn lemma_dec_digits(n: nat)
    ensures
        all_digits_of(dec(n)),
        digits_value(dec(n)) == n,
        dec(n).len() >= 1,
    decreases n,
{
    let d = dec(n);
    assert((digit_char(n % 10) as u32) == 48 + n % 10);
    if n < 10 {
        assert(d.drop_last() =~= Seq::<char>::empty());
        assert(d.last() == digit_char(n));
        assert(n % 10 == n);
        assert(digits_value(d) == digits_value(d.drop_last()) * 10 + ((d.last() as u32) - 48) as nat);
    } else {
        lemma_dec_digits(n / 10);
        assert(d.drop_last() =~= dec(n / 10));
        assert(d.last() == digit_char(n % 10));
        assert(n == (n / 10) * 10 + n % 10);
        assert(digits_value(d) == digits_value(d.drop_last()) * 10 + ((d.last() as u32) - 48) as nat);
        assert(digits_value(d) == (n / 10) * 10 + n % 10);
        assert forall|q: int| 0 <= q < d.len() implies is_digit(#[trigger] d[q]) by {
            if q < d.len() - 1 {
                assert(d[q] == dec(n / 10)[q]);
            }
        }
    }
}

/// The digit run at the start of `d + rest` is `d`, when `d` is digits only
/// and `rest` does not start with a digit.
proof fn lemma_digit_run(d: Seq<char>, rest: Seq<char>)
    requires
        all_digits_of(d),
        rest.len() == 0 || !is_digit(rest[0]),
    ensures
        digit_run(d + rest) == d.len(),
    decreases d.len(),
{
    if d.len() > 0 {
        assert((d + rest)[0] == d[0]);
        assert((d + rest).drop_first() =~= d.drop_first() + rest);
        assert(all_digits_of(d.drop_first())) by {
            assert forall|q: int| 0 <= q < d.drop_first().len() implies is_digit(#[trigger] d.drop_first()[q]) by {
                assert(d.drop_first()[q] == d[q + 1]);
            }
        }
        lemma_digit_run(d.drop_first(), rest);
    } else {
        assert(d + rest =~= rest);
    }
}

/// Claims render as nothing or start with `,`.
proof fn lemma_claims_json_start(claims: Seq<(Seq<char>, Seq<char>)>)
    ensures
        claims_json(claims).len() == 0 || claims_json(claims)[0] == ',',
    decreases claims.len(),
{
    reveal_strlit(",\"");
    if claims.len() > 0 {
        lemma_claims_json_start(claims.drop_last());
        let a = claims_json(claims.drop_last());
        let l = claims.last();
        assert(claims_json(claims) == a + ",\""@ + l.0 + "\":\""@ + l.1 + "\""@);
        if a.len() == 0 {
            assert((a + ",\""@ + l.0 + "\":\""@ + l.1 + "\""@)[0] == ",\""@[0]);
        } else {
            assert((a + ",\""@ + l.0 + "\":\""@ + l.1 + "\""@)[0] == a[0]);
        }
    }
}

/// The subject field is read back from a payload whose subject holds no `"`.
proof fn lemma_payload_sub(u: Seq<char>, rest: Seq<char>)
    requires
        !u.contains('"'),
    ensures
        json_str("{\"sub\":\""@ + u + "\""@ + rest, "sub"@) == Some(u),
{
    reveal_strlit("{\"sub\":\"");
    reveal_strlit("\"");
    reveal_strlit("sub");
    reveal_strlit("\":\"");
    let h = "{\"sub\":\""@ + u + "\""@ + rest;
    let pat = "\""@ + "sub"@ + "\":\""@;
    assert(pat =~= seq!['"', 's', 'u', 'b', '"', ':', '"']);
    assert(h.subrange(1, 8) =~= pat);
    assert(!occurs_at(h, pat, 0)) by {
        assert(h.subrange(0, 7)[0] == '{');
    }
    lemma_find_sub_at(h, pat, 0, 1);
    let r = h.skip(8);
    assert(r =~= u + "\""@ + rest);
    assert forall|j: int| 0 <= j < u.len() implies r[j] != '"' by {
        assert(r[j] == u[j]);
        if u[j] == '"' {
            assert(u.contains('"'));
        }
    }
    assert(r[u.len() as int] == '"');
    lemma_first_index_at(r, '"', u.len() as int);
    assert(r.take(u.len() as int) =~= u);
}

/// The text before the expiry digits: no `"exp":` starts before the one that ends it.
proof fn lemma_no_early_exp(u: Seq<char>)
    requires
        !u.contains('"'),
    ensures
        forall|j: int| 0 <= j < 10 + u.len() ==>
            !#[trigger] occurs_at("{\"sub\":\""@ + u + "\",\"exp\":"@, "\"exp\":"@, j),
{
    reveal_strlit("{\"sub\":\"");
    reveal_strlit("\",\"exp\":");
    reveal_strlit("\"exp\":");
    let l1 = "{\"sub\":\""@;
    let l2 = "\",\"exp\":"@;
    let h = l1 + u + l2;
    let pat = "\"exp\":"@;
    let m = u.len() as int;
    assert(l1 =~= seq!['{', '"', 's', 'u', 'b', '"', ':', '"']);
    assert(l2 =~= seq!['"', ',', '"', 'e', 'x', 'p', '"', ':']);
    assert(pat =~= seq!['"', 'e', 'x', 'p', '"', ':']);
    assert forall|j: int| 0 <= j < 10 + u.len() implies !#[trigger] occurs_at(h, pat, j) by {
        if occurs_at(h, pat, j) {
            let w = h.subrange(j, j + 6);
            assert(w[0] == h[j] && w[1] == h[j + 1] && w[4] == h[j + 4] && w[5] == h[j + 5]);
            assert(h[j] == '"' && h[j + 1] == 'e' && h[j + 4] == '"' && h[j + 5] == ':');
            if 8 <= j < 8 + m {
                assert(h[j] == u[j - 8]);
                assert(u.contains('"'));
            } else if j < 8 {
                assert(h[j] == l1[j]);
                if j == 7 {
                    if m == 0 {
                        assert(h[8] == l2[0]);
                    } else if m >= 4 {
                        assert(h[11] == u[3]);
                        assert(u.contains('"'));
                    } else if m == 3 {
                        assert(h[12] == l2[1]);
                    } else if m == 2 {
                        assert(h[11] == l2[1]);
                    } else {
                        assert(h[12] == l2[3]);
                    }
                } else {
                    assert(h[j + 1] == l1[j + 1]);
                }
            } else {
                assert(h[j] == l2[j - 8 - m]);
                assert(h[j + 1] == l2[j + 1 - 8 - m]);
            }
        }
    }
}

/// The expiry field is read back, in seconds, from a payload whose subject
/// holds no `"`.
proof fn lemma_payload_exp(u: Seq<char>, n: nat, rest: Seq<char>)
    requires
        !u.contains('"'),
        n <= u64::MAX,
        rest.len() == 0 || !is_digit(rest[0]),
    ensures
        json_u64("{\"sub\":\""@ + u + "\""@ + ",\"exp\":"@ + dec(n) + rest, "exp"@) == Some(n as u64),
{
    reveal_strlit("{\"sub\":\"");
    reveal_strlit("\",\"exp\":");
    reveal_strlit("\"exp\":");
    reveal_strlit("\"");
    reveal_strlit(",\"exp\":");
    reveal_strlit("exp");
    reveal_strlit("\":");
    let head = "{\"sub\":\""@ + u + "\",\"exp\":"@;
    let h = "{\"sub\":\""@ + u + "\""@ + ",\"exp\":"@ + dec(n) + rest;
    assert(h =~= head + dec(n) + rest);
    let pat = "\""@ + "exp"@ + "\":"@;
    assert(pat =~= "\"exp\":"@);
    let k: int = 10 + u.len() as int;
    assert(head.len() == k + 6);
    lemma_no_early_exp(u);
    assert forall|j: int| 0 <= j < k implies !#[trigger] occurs_at(h, pat, j) by {
        assert(h.subrange(j, j + 6) =~= head.subrange(j, j + 6));
        assert(!occurs_at(head, "\"exp\":"@, j));
    }
    assert(h.subrange(k, k + 6) =~= pat) by {
        assert(head.subrange(k, k + 6) =~= pat);
        assert(h.subrange(k, k + 6) =~= head.subrange(k, k + 6));
    }
    lemma_find_sub_at(h, pat, 0, k);
    let r = h.skip(k + 6);
    assert(r =~= dec(n) + rest);
    lemma_dec_digits(n);
    lemma_digit_run(dec(n), rest);
    assert(r.take(dec(n).len() as int) =~= dec(n));
}

/// A token signed with `secret` for `subject` (holding no `"`), with any
/// claims and an expiry of `exp_ms`, is verified under the same secret: it
/// gives back the subject, and the expiry rounded down to whole seconds.
#[verifier::spinoff_prover]
#[verifier::rlimit(40)]
pub proof fn law_signed_token_verifies(
    subject: Seq<char>,
    claims: Seq<(Seq<char>, Seq<char>)>,
    exp_ms: u64,
    secret: Seq<char>,
)
    requires
        !subject.contains('"'),
    ensures
        verified(jwt_of(subject, claims, Some(exp_ms), secret), secret)
            == Some((subject, Some(((exp_ms / 1000) * 1000) as u64))),
{
    let hb = encode_utf8(header_json());
    let pj = payload_json(subject, claims, Some(exp_ms));
    let pb = encode_utf8(pj);
    let hdr = b64url(hb);
    let pay = b64url(pb);
    let input = hdr + "."@ + pay;
    let sig = b64url(hmac_sha256(encode_utf8(secret), encode_utf8(input)));
    let tok = jwt_of(subject, claims, Some(exp_ms), secret);
    assert(tok == input + "."@ + sig);
    lemma_b64url_roundtrip(hb);
    lemma_b64url_roundtrip(pb);
    lemma_split3(hdr, pay, sig);
    vstd::utf8::encode_utf8_valid_utf8(pj);
    vstd::utf8::encode_utf8_decode_utf8(pj);
    let n = (exp_ms / 1000) as nat;
    let rest = claims_json(claims) + "}"@;
    reveal_strlit("}");
    lemma_claims_json_start(claims);
    if claims_json(claims).len() == 0 {
        assert(rest[0] == '}');
    } else {
        assert(rest[0] == claims_json(claims)[0]);
    }
    assert(pj =~= "{\"sub\":\""@ + subject + "\""@ + ",\"exp\":"@ + dec(n) + rest);
    lemma_payload_exp(subject, n, rest);
    lemma_payload_sub(subject, ",\"exp\":"@ + dec(n) + rest);
    assert("{\"sub\":\""@ + subject + "\""@ + (",\"exp\":"@ + dec(n) + rest) =~= pj);
    assert(n * 1000 <= exp_ms);
}

// ── Tokens without an expiry ────────────────────────────────────────────────

/// Whether no `"exp":` in `h` is followed by anything but `"` (so no number
/// can be read after one).
pub open spec fn exp_unreadable(h: Seq<char>) -> bool {
    forall|j: int| 0 <= j && j + 6 <= h.len() && #[trigger] occurs_at(h, "\"exp\":"@, j)
        ==> j + 6 < h.len() && h[j + 6] == '"'
}

/// Whether no claim key or value holds `"`.
pub open spec fn claims_quote_free(claims: Seq<(Seq<char>, Seq<char>)>) -> bool {
    forall|i: int| 0 <= i < claims.len() ==> !(#[trigger] claims[i]).0.contains('"') && !claims[i].1.contains('"')
}

/// The subject part of a payload without an expiry, closed: `{"sub":"u"}`.
proof fn lemma_exp_unreadable_base(u: Seq<char>)
    requires
        !u.contains('"'),
    ensures
        exp_unreadable("{\"sub\":\""@ + u + "\""@ + "}"@),
{
    reveal_strlit("{\"sub\":\"");
    reveal_strlit("\"");
    reveal_strlit("}");
    reveal_strlit("\"exp\":");
    let h = "{\"sub\":\""@ + u + "\""@ + "}"@;
    let pat = "\"exp\":"@;
    let m = u.len() as int;
    assert(pat =~= seq!['"', 'e', 'x', 'p', '"', ':']);
    assert(h.len() == m + 10);
    assert forall|j: int| 0 <= j && j + 6 <= h.len() && #[trigger] occurs_at(h, pat, j)
        implies j + 6 < h.len() && h[j + 6] == '"' by {
        let w = h.subrange(j, j + 6);
        assert(w[0] == h[j] && w[1] == h[j + 1] && w[4] == h[j + 4] && w[5] == h[j + 5]);
        if 8 <= j < 8 + m {
            assert(h[j] == u[j - 8]);
            assert(u.contains('"'));
        } else if j < 8 {
            assert(h[j] == "{\"sub\":\""@[j]);
            if j == 7 {
                if 8 + 3 < 8 + m {
                    assert(h[11] == u[3]);
                    assert(u.contains('"'));
                } else {
                    assert(h[8 + m] == '"');
                    assert(h[9 + m] == '}');
                }
            } else {
                assert(h[j + 1] == "{\"sub\":\""@[j + 1]);
            }
        } else {
            assert(j >= 8 + m);
            assert(h[8 + m] == '"' && h[9 + m] == '}');
        }
    }
}

/// Adding a claim `,"k":"v"` (both without `"`) before the closing brace
/// keeps every `"exp":` unreadable as a number.
proof fn lemma_exp_unreadable_step(x: Seq<char>, k: Seq<char>, v: Seq<char>)
    requires
        x.len() > 0,
        x.last() == '"',
        exp_unreadable(x + "}"@),
        !k.contains('"'),
        !v.contains('"'),
    ensures
        exp_unreadable(x + (",\""@ + k + "\":\""@ + v + "\""@) + "}"@),
{
    reveal_strlit(",\"");
    reveal_strlit("\":\"");
    reveal_strlit("\"");
    reveal_strlit("}");
    reveal_strlit("\"exp\":");
    let pat = "\"exp\":"@;
    assert(pat =~= seq!['"', 'e', 'x', 'p', '"', ':']);
    let q = ",\""@ + k + "\":\""@ + v + "\""@ + "}"@;
    let h = x + (",\""@ + k + "\":\""@ + v + "\""@) + "}"@;
    assert(h =~= x + q);
    let n = x.len() as int;
    let a = k.len() as int;
    let b = v.len() as int;
    assert(q.len() == a + b + 7);
    assert(q[0] == ',' && q[1] == '"' && q[2 + a] == '"' && q[3 + a] == ':' && q[4 + a] == '"'
        && q[5 + a + b] == '"' && q[6 + a + b] == '}');
    assert forall|i: int| 0 <= i < q.len() && q[i] == '"' implies i == 1 || i == 2 + a || i == 4 + a || i == 5 + a + b by {
        if 2 <= i < 2 + a {
            assert(q[i] == k[i - 2]);
            assert(k.contains('"'));
        } else if 5 + a <= i < 5 + a + b {
            assert(q[i] == v[i - 5 - a]);
            assert(v.contains('"'));
        }
    }
    assert forall|j: int| 0 <= j && j + 6 <= h.len() && #[trigger] occurs_at(h, pat, j)
        implies j + 6 < h.len() && h[j + 6] == '"' by {
        let w = h.subrange(j, j + 6);
        assert(w[0] == h[j] && w[1] == h[j + 1] && w[2] == h[j + 2] && w[3] == h[j + 3] && w[4] == h[j + 4]
            && w[5] == h[j + 5]);
        if j + 6 <= n {
            let h0 = x + "}"@;
            assert(h0.subrange(j, j + 6) =~= h.subrange(j, j + 6)) by {
                assert forall|p: int| j <= p < j + 6 implies #[trigger] h0[p] == h[p] by {
                    assert(h0[p] == x[p]);
                }
            }
            assert(occurs_at(h0, pat, j));
            if j + 6 == n {
                assert(h0[n] == '}');
            } else {
                assert(h0[j + 6] == x[j + 6]);
            }
        } else if j < n {
            assert(h[n - 1] == '"');
            assert(h[n] == ',');
            let o = n - 1 - j;
            assert(0 <= o < 5);
            if o == 0 {
                assert(h[j + 1] == ',');
            } else if o == 4 {
                assert(h[j + 5] == ',');
            } else {
                assert(h[j + o] == pat[o]);
            }
        } else {
            let r = j - n;
            assert(forall|t: int| 0 <= t < q.len() ==> h[n + t] == q[t]);
            assert(q[r] == '"' && q[r + 4] == '"' && q[r + 5] == ':');
            if r == 1 {
                if r + 4 == 2 + a {
                    assert(q[7] == '"');
                } else if r + 4 == 4 + a {
                    assert(q[3] == '"');
                } else {
                    assert(r + 4 == 5 + a + b);
                    assert(q[2] == '"');
                }
            } else if r == 2 + a {
                assert(q[3 + a] == ':');
            } else if r == 4 + a {
                assert(r + 4 == 5 + a + b);
                assert(r + 5 == 6 + a + b);
            } else {
                assert(r == 5 + a + b);
                assert(q[r + 1] == '}');
            }
        }
    }
}

/// In a payload without an expiry whose subject and claims hold no `"`, no
/// `"exp":` can be read as a number.
proof fn lemma_payload_exp_unreadable(u: Seq<char>, claims: Seq<(Seq<char>, Seq<char>)>)
    requires
        !u.contains('"'),
        claims_quote_free(claims),
    ensures
        exp_unreadable("{\"sub\":\""@ + u + "\""@ + claims_json(claims) + "}"@),
        ("{\"sub\":\""@ + u + "\""@ + claims_json(claims)).last() == '"',
    decreases claims.len(),
{
    reveal_strlit("\"");
    if claims.len() == 0 {
        lemma_exp_unreadable_base(u);
        assert("{\"sub\":\""@ + u + "\""@ + claims_json(claims) =~= "{\"sub\":\""@ + u + "\""@);
    } else {
        let c0 = claims.drop_last();
        assert(claims_quote_free(c0)) by {
            assert forall|i: int| 0 <= i < c0.len() implies !(#[trigger] c0[i]).0.contains('"') && !c0[i].1.contains('"') by {
                assert(c0[i] == claims[i]);
            }
        }
        lemma_payload_exp_unreadable(u, c0);
        let x = "{\"sub\":\""@ + u + "\""@ + claims_json(c0);
        let l = claims.last();
        assert(l == claims[claims.len() - 1]);
        lemma_exp_unreadable_step(x, l.0, l.1);
        assert("{\"sub\":\""@ + u + "\""@ + claims_json(claims) + "}"@
            =~= x + (",\""@ + l.0 + "\":\""@ + l.1 + "\""@) + "}"@);
        reveal_strlit("\":\"");
        let y = "{\"sub\":\""@ + u + "\""@ + claims_json(claims);
        assert(y =~= x + (",\""@ + l.0 + "\":\""@ + l.1 + "\""@));
    }
}

/// No expiry is read from a payload without one whose subject and claims
/// hold no `"`.
proof fn lemma_payload_no_exp(u: Seq<char>, claims: Seq<(Seq<char>, Seq<char>)>)
    requires
        !u.contains('"'),
        claims_quote_free(claims),
    ensures
        json_u64("{\"sub\":\""@ + u + "\""@ + claims_json(claims) + "}"@, "exp"@) is None,
{
    reveal_strlit("\"");
    reveal_strlit("exp");
    reveal_strlit("\":");
    reveal_strlit("\"exp\":");
    let h = "{\"sub\":\""@ + u + "\""@ + claims_json(claims) + "}"@;
    let pat = "\""@ + "exp"@ + "\":"@;
    assert(pat =~= "\"exp\":"@);
    lemma_payload_exp_unreadable(u, claims);
    crate::strings::lemma_find_sub(h, pat, 0);
    if let Some(i) = find_sub(h, pat, 0) {
        assert(occurs_at(h, "\"exp\":"@, i));
        let rest = h.skip(i + 6);
        assert(rest[0] == h[i + 6]);
        assert(!is_digit(rest[0]));
        assert(digit_run(rest) == 0);
        assert(rest.take(0).len() == 0);
    }
}

/// A token signed with `secret` for `subject` without an expiry, with claims
/// whose keys and values (like the subject) hold no `"`, is verified under
/// the same secret: it gives back the subject and no expiry.
#[verifier::spinoff_prover]
#[verifier::rlimit(40)]
pub proof fn law_signed_token_without_expiry_verifies(
    subject: Seq<char>,
    claims: Seq<(Seq<char>, Seq<char>)>,
    secret: Seq<char>,
)
    requires
        !subject.contains('"'),
        claims_quote_free(claims),
    ensures
        verified(jwt_of(subject, claims, None, secret), secret) == Some((subject, None::<u64>)),
{
    let hb = encode_utf8(header_json());
    let pj = payload_json(subject, claims, None);
    let pb = encode_utf8(pj);
    let hdr = b64url(hb);
    let pay = b64url(pb);
    let input = hdr + "."@ + pay;
    let sig = b64url(hmac_sha256(encode_utf8(secret), encode_utf8(input)));
    let tok = jwt_of(subject, claims, None, secret);
    assert(tok == input + "."@ + sig);
    lemma_b64url_roundtrip(hb);
    lemma_b64url_roundtrip(pb);
    lemma_split3(hdr, pay, sig);
    vstd::utf8::encode_utf8_valid_utf8(pj);
    vstd::utf8::encode_utf8_decode_utf8(pj);
    assert(pj =~= "{\"sub\":\""@ + subject + "\""@ + claims_json(claims) + "}"@);
    lemma_payload_no_exp(subject, claims);
    lemma_payload_sub(subject, claims_json(claims) + "}"@);
    assert("{\"sub\":\""@ + subject + "\""@ + (claims_json(claims) + "}"@) =~= pj);
}

/// The subject that `token` gives back when it verifies under `secret`.
pub open spec fn verified_subject(token: Seq<char>, secret: Seq<char>) -> Seq<char> {
    match verified(token, secret) {
        Some((sub, _)) => sub,
        None => Seq::empty(),
    }
}

/// When `c` occurs at `k` in `s`, some occurrence of `c` has none before it.
proof fn lemma_first_occurrence(s: Seq<char>, c: char, k: int)
    requires
        0 <= k < s.len(),
        s[k] == c,
    ensures
        exists|i: int| 0 <= i < s.len() && s[i] == c && forall|j: int| 0 <= j < i ==> s[j] != c,
    decreases k,
{
    if exists|j: int| 0 <= j < k && s[j] == c {
        let j = choose|j: int| 0 <= j < k && s[j] == c;
        lemma_first_occurrence(s, c, j);
    } else {
        assert(forall|j: int| 0 <= j < k ==> s[j] != c);
    }
}

/// The subject a verified token gives back holds no `"`.
proof fn lemma_verified_subject_quote_free(token: Seq<char>, secret: Seq<char>)
    requires
        verified(token, secret) is Some,
    ensures
        !verified_subject(token, secret).contains('"'),
{
    let (p0, p1, p2) = split3(token)->0;
    let bytes = unb64(trim_pad(p1.map_values(|c: char| std_char(c))))->0;
    let js = decode_utf8(bytes);
    let pat = "\""@ + "sub"@ + "\":\""@;
    let i = find_sub(js, pat, 0)->0;
    let rest = js.skip(i + pat.len());
    let k0 = choose|k: int| 0 <= k < rest.len() && rest[k] == '"';
    lemma_first_occurrence(rest, '"', k0);
    let e = crate::strings::first_index(rest, '"')->0;
    let sub = rest.take(e);
    assert(json_str(js, "sub"@) == Some(sub));
    assert(verified_subject(token, secret) == sub);
    assert(forall|j: int| 0 <= j < e ==> rest[j] != '"');
    if sub.contains('"') {
        let j = choose|j: int| 0 <= j < sub.len() && sub[j] == '"';
        assert(rest[j] == '"');
    }
}

/// A refreshed token verifies under the secret it was refreshed with,
/// whatever lifetime is configured: `refresh` signs the subject that the old
/// token gave back with no claims and the configured expiry `ttl_ms`, and that
/// token gives back the same subject and the expiry rounded down to whole
/// seconds (none when no lifetime is configured).
pub proof fn law_refreshed_token_verifies(token: Seq<char>, secret: Seq<char>, ttl_ms: Option<u64>)
    requires
        verified(token, secret) is Some,
    ensures
        verified(jwt_of(verified_subject(token, secret), Seq::empty(), ttl_ms, secret), secret) == Some((
            verified_subject(token, secret),
            match ttl_ms {
                Some(e) => Some(((e / 1000) * 1000) as u64),
                None => None::<u64>,
            },
        )),
{
    let sub = verified_subject(token, secret);
    lemma_verified_subject_quote_free(token, secret);
    match ttl_ms {
        Some(e) => law_signed_token_verifies(sub, Seq::empty(), e, secret),
        None => law_signed_token_without_expiry_verifies(sub, Seq::empty(), secret),
    }
}

} // verus!
