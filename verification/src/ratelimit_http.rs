//! The token-bucket limiter as HTTP middleware: who a request comes from,
//! the check of one token for them, and the answer written back.
use vstd::prelude::*;
use vstd::utf8::{decode_utf8, encode_utf8, valid_utf8};
use crate::cron::words;
use crate::ratelimit::{RateLimitRequest, TokenBucketRateLimiter};
use crate::strings::{eq_ascii_ci, piece_views};
use crate::text::dec;

verus! {

/// An HTTP answer: status, headers and body.
#[derive(Debug)]
pub struct HttpReply {
    pub status: u16,
    pub headers: Vec<(String, Vec<u8>)>,
    pub body: Vec<u8>,
}

/// The header names and values of `h`, as characters and bytes.
pub open spec fn header_views(h: Seq<(String, Vec<u8>)>) -> Seq<(Seq<char>, Seq<u8>)> {
    h.map_values(|p: (String, Vec<u8>)| (p.0@, p.1@))
}

/// The first header named `name` (in any ASCII case) whose value is UTF-8,
/// decoded.
pub open spec fn first_text(h: Seq<(String, Vec<u8>)>, name: Seq<char>) -> Option<Seq<char>>
    decreases h.len(),
{
    if h.len() == 0 {
        None
    } else if eq_ascii_ci(h[0].0@, name) && valid_utf8(h[0].1@) {
        Some(decode_utf8(h[0].1@))
    } else {
        first_text(h.drop_first(), name)
    }
}

/// Who a request comes from: its `X-User-Id` header; else the last word of
/// its `Authorization` header; else `anonymous`.
pub open spec fn user_of(h: Seq<(String, Vec<u8>)>) -> Seq<char> {
    match first_text(h, "x-user-id"@) {
        Some(u) => u,
        None => match first_text(h, "authorization"@) {
            Some(a) => if words(a).len() > 0 {
                words(a).last()
            } else {
                "anonymous"@
            },
            None => "anonymous"@,
        },
    }
}

/// The first header named `name` whose value is UTF-8, decoded.
fn first_header_text(headers: &[(String, Vec<u8>)], name: &str) -> (r: Option<String>)
    ensures
        crate::text::opt_view(r) == first_text(headers@, name@),
{
    let n = crate::text::chars_of(name);
    let mut i: usize = 0;
    proof {
        assert(headers@.skip(0) =~= headers@);
    }
    while i < headers.len()
        invariant
            i <= headers@.len(),
            n@ == name@,
            first_text(headers@, name@) == first_text(headers@.skip(i as int), name@),
        decreases headers@.len() - i,
    {
        let ghost rest = headers@.skip(i as int);
        proof {
            assert(rest[0] == headers@[i as int]);
            assert(rest.drop_first() =~= headers@.skip(i + 1));
        }
        let k = crate::text::chars_of(headers[i].0.as_str());
        if crate::strings::eq_ignore_ascii_case(&k, &n) {
            let v = crate::text::copy_bytes(&headers[i].1);
            match crate::text::string_from_utf8(v) {
                Some(s) => {
                    return Some(s);
                },
                None => {},
            }
        }
        i = i + 1;
    }
    None
}

/// Who a request with `headers` comes from.
pub fn extract_user_id(headers: &[(String, Vec<u8>)]) -> (r: String)
    ensures
        r@ == user_of(headers@),
{
    proof {
        reveal_strlit("anonymous");
    }
    match first_header_text(headers, "x-user-id") {
        Some(u) => u,
        None => match first_header_text(headers, "authorization") {
            Some(a) => {
                let c = crate::text::chars_of(a.as_str());
                let w = crate::cron::split_words(&c);
                if w.len() > 0 {
                    let last = &w[w.len() - 1];
                    proof {
                        assert(piece_views(w@)[w@.len() - 1] == w@[w@.len() - 1]@);
                    }
                    crate::text::string_from_chars(last.as_slice())
                } else {
                    crate::text::owned("anonymous")
                }
            },
            None => crate::text::owned("anonymous"),
        },
    }
}

/// The UTF-8 bytes of `s`.
fn utf8_bytes(s: &str) -> (r: Vec<u8>)
    ensures
        r@ == encode_utf8(s@),
{
    let b = s.as_bytes();
    let mut v: Vec<u8> = Vec::new();
    let mut i: usize = 0;
    while i < b.len()
        invariant
            i <= b@.len(),
            b@ == encode_utf8(s@),
            v@ == b@.take(i as int),
        decreases b@.len() - i,
    {
        v.push(b[i]);
        proof {
            assert(v@ =~= b@.take(i + 1));
        }
        i = i + 1;
    }
    proof {
        assert(b@.take(b@.len() as int) =~= b@);
    }
    v
}

/// A header named `name` with the UTF-8 bytes of `value`.
fn header(name: &str, value: &str) -> (r: (String, Vec<u8>))
    ensures
        r.0@ == name@,
        r.1@ == encode_utf8(value@),
{
    (crate::text::owned(name), utf8_bytes(value))
}

/// The decimal digits of `n` as a string.
fn dec_string(n: u64) -> (r: String)
    ensures
        r@ == dec(n as nat),
{
    let d = crate::text::u64_to_dec(n);
    crate::text::string_from_chars(d.as_slice())
}

/// `r` is the answer letting a request of `user` through with `n` tokens left.
pub open spec fn ok_reply(r: HttpReply, user: Seq<char>, n: u64) -> bool {
    &&& r.status == 200
    &&& header_views(r.headers@) == seq![
        ("content-type"@, encode_utf8("application/json"@)),
        ("x-ratelimit-remaining"@, encode_utf8(dec(n as nat))),
    ]
    &&& r.body@ == encode_utf8(
        "{\"status\":\"ok\",\"user_id\":\""@ + user + "\",\"tokens_remaining\":"@ + dec(n as nat) + "}"@,
    )
}

/// The seconds to wait that a refusal announces: the retry time in whole
/// seconds, one second when there is none.
pub open spec fn retry_secs(retry_after_ms: Option<u64>) -> u64 {
    match retry_after_ms {
        Some(ms) => ms / 1000,
        None => 1,
    }
}

/// `r` is the answer refusing a request, with the retry time `retry_after_ms`.
pub open spec fn limited_reply(r: HttpReply, retry_after_ms: Option<u64>) -> bool {
    let s = dec(retry_secs(retry_after_ms) as nat);
    &&& r.status == 429
    &&& header_views(r.headers@) == seq![
        ("content-type"@, encode_utf8("application/json"@)),
        ("retry-after"@, encode_utf8(s)),
        ("x-ratelimit-remaining"@, encode_utf8("0"@)),
    ]
    &&& r.body@ == encode_utf8("{\"error\":\"rate_limit_exceeded\",\"retry_after_seconds\":"@ + s + "}"@)
}

/// `r` is the answer reporting `message` as an error.
pub open spec fn error_reply(r: HttpReply, message: Seq<char>) -> bool {
    &&& r.status == 500
    &&& header_views(r.headers@) == seq![("content-type"@, encode_utf8("application/json"@))]
    &&& r.body@ == encode_utf8("{\"error\":\""@ + message + "\"}"@)
}

/// The answer letting a request of `user_id` through.
pub fn create_success_response(user_id: &str, tokens_remaining: u64) -> (r: HttpReply)
    ensures
        ok_reply(r, user_id@, tokens_remaining),
{
    let n = dec_string(tokens_remaining);
    let mut b: Vec<char> = Vec::new();
    crate::text::push_str(&mut b, "{\"status\":\"ok\",\"user_id\":\"");
    crate::text::push_str(&mut b, user_id);
    crate::text::push_str(&mut b, "\",\"tokens_remaining\":");
    crate::text::push_str(&mut b, n.as_str());
    crate::text::push_str(&mut b, "}");
    let body = crate::text::string_from_chars(b.as_slice());
    let mut headers: Vec<(String, Vec<u8>)> = Vec::new();
    headers.push(header("content-type", "application/json"));
    headers.push(header("x-ratelimit-remaining", n.as_str()));
    proof {
        assert(header_views(headers@) =~= seq![
            ("content-type"@, encode_utf8("application/json"@)),
            ("x-ratelimit-remaining"@, encode_utf8(dec(tokens_remaining as nat))),
        ]);
        assert(body@ =~= "{\"status\":\"ok\",\"user_id\":\""@ + user_id@ + "\",\"tokens_remaining\":"@
            + dec(tokens_remaining as nat) + "}"@);
    }
    HttpReply { status: 200, headers, body: utf8_bytes(body.as_str()) }
}

/// The answer refusing a request, announcing when to retry.
pub fn create_rate_limit_response(retry_after_ms: Option<u64>) -> (r: HttpReply)
    ensures
        limited_reply(r, retry_after_ms),
{
    let ms = match retry_after_ms {
        Some(m) => m,
        None => 1000,
    };
    let secs = ms / 1000;
    let s = dec_string(secs);
    let mut b: Vec<char> = Vec::new();
    crate::text::push_str(&mut b, "{\"error\":\"rate_limit_exceeded\",\"retry_after_seconds\":");
    crate::text::push_str(&mut b, s.as_str());
    crate::text::push_str(&mut b, "}");
    let body = crate::text::string_from_chars(b.as_slice());
    let mut headers: Vec<(String, Vec<u8>)> = Vec::new();
    headers.push(header("content-type", "application/json"));
    headers.push(header("retry-after", s.as_str()));
    headers.push(header("x-ratelimit-remaining", "0"));
    proof {
        assert(secs == retry_secs(retry_after_ms));
        assert(header_views(headers@) =~= seq![
            ("content-type"@, encode_utf8("application/json"@)),
            ("retry-after"@, encode_utf8(dec(secs as nat))),
            ("x-ratelimit-remaining"@, encode_utf8("0"@)),
        ]);
        assert(body@ =~= "{\"error\":\"rate_limit_exceeded\",\"retry_after_seconds\":"@ + dec(secs as nat) + "}"@);
    }
    HttpReply { status: 429, headers, body: utf8_bytes(body.as_str()) }
}

/// The answer reporting `message` as an error.
pub fn create_error_response(message: &str) -> (r: HttpReply)
    ensures
        error_reply(r, message@),
{
    let mut b: Vec<char> = Vec::new();
    crate::text::push_str(&mut b, "{\"error\":\"");
    crate::text::push_str(&mut b, message);
    crate::text::push_str(&mut b, "\"}");
    let body = crate::text::string_from_chars(b.as_slice());
    let mut headers: Vec<(String, Vec<u8>)> = Vec::new();
    headers.push(header("content-type", "application/json"));
    proof {
        assert(header_views(headers@) =~= seq![("content-type"@, encode_utf8("application/json"@))]);
        assert(body@ =~= "{\"error\":\""@ + message@ + "\"}"@);
    }
    HttpReply { status: 500, headers, body: utf8_bytes(body.as_str()) }
}

/// Whether checking one token for any user at `ts` stays within 64-bit arithmetic.
pub open spec fn one_token_fits(limiter: TokenBucketRateLimiter, ts: u64) -> bool {
    forall|req: RateLimitRequest| req.tokens_requested == 1 && req.timestamp_ms == ts ==> #[trigger] limiter.check_fits(req)
}

/// Answer a request with `headers` arriving at `timestamp_ms`: one token is
/// taken from its sender's bucket; the request goes through, is refused with
/// a retry time, or gets an error when the limiter has no configuration.
pub fn handle(limiter: &mut TokenBucketRateLimiter, headers: &[(String, Vec<u8>)], timestamp_ms: u64) -> (r: HttpReply)
    requires
        old(limiter).wf(),
        one_token_fits(*old(limiter), timestamp_ms),
    ensures
        final(limiter).wf(),
        old(limiter).config is None ==> error_reply(r, "Rate limiter not initialized"@)
            && final(limiter).buckets@ == old(limiter).buckets@,
        old(limiter).config is Some ==> {
            let user = user_of(headers@);
            let b = old(limiter).bucket_for(user);
            let after = TokenBucketRateLimiter::stepped(b, 1, timestamp_ms);
            let allowed = b.refilled(timestamp_ms).tokens >= 1;
            &&& final(limiter).buckets@ == old(limiter).buckets@.insert(user, after)
            &&& allowed ==> ok_reply(r, user, after.tokens)
            &&& !allowed ==> limited_reply(r, b.refilled(timestamp_ms).retry_after(1))
        },
{
    let user_id = extract_user_id(headers);
    let request = RateLimitRequest { user_id: user_id.clone(), tokens_requested: 1, timestamp_ms };
    proof {
        assert(old(limiter).check_fits(request));
    }
    match limiter.check_rate_limit(request) {
        Ok(resp) => {
            if resp.allowed {
                create_success_response(user_id.as_str(), resp.tokens_remaining)
            } else {
                create_rate_limit_response(resp.retry_after_ms)
            }
        },
        Err(_) => create_error_response("Rate limiter not initialized"),
    }
}

} // verus!
