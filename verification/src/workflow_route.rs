//! Routing of the workflow API: which handler a method and a path select,
//! with the names taken from the path and the paging, filter and event
//! parameters read from the query string.
use vstd::prelude::*;
use crate::cron::{parse_u64, u64_of};
use crate::strings::{ends_with, find_char, find_chars, find_sub, first_index, has_prefix, has_suffix, split_char, split_on, starts_with};
use crate::text::{chars_of, slice_vec, string_from_chars};

verus! {

// ── The query string ────────────────────────────────────────────────────────

/// What comes before the first `c` in `s` (all of `s` when there is none).
pub open spec fn before_char(s: Seq<char>, c: char) -> Seq<char> {
    match first_index(s, c) {
        Some(i) => s.take(i),
        None => s,
    }
}

/// What comes after the first `c` in `s` (nothing when there is none).
pub open spec fn after_char(s: Seq<char>, c: char) -> Seq<char> {
    match first_index(s, c) {
        Some(i) => s.skip(i + 1),
        None => Seq::empty(),
    }
}

/// The path of a request target: what comes before the first `?`.
pub open spec fn path_part(full: Seq<char>) -> Seq<char> {
    before_char(full, '?')
}

/// The query of a request target: what comes after the first `?`.
pub open spec fn query_part(full: Seq<char>) -> Seq<char> {
    after_char(full, '?')
}

/// The value of the last `key=value` pair with the non-empty key `k` (a pair
/// without `=` has an empty value).
pub open spec fn last_value(pairs: Seq<Seq<char>>, k: Seq<char>) -> Option<Seq<char>>
    decreases pairs.len(),
{
    if pairs.len() == 0 {
        None
    } else {
        let p = pairs.last();
        if before_char(p, '=').len() > 0 && before_char(p, '=') == k {
            Some(after_char(p, '='))
        } else {
            last_value(pairs.drop_last(), k)
        }
    }
}

/// The query parameter `k` of the request target `full`: the pairs are
/// separated by `&`, and a later pair overrides an earlier one.
pub open spec fn query_get(full: Seq<char>, k: Seq<char>) -> Option<Seq<char>> {
    last_value(split_on(query_part(full), '&'), k)
}

/// What `usize::from_str` gives for `s`.
pub open spec fn usize_of(s: Seq<char>) -> Option<usize> {
    match u64_of(s) {
        Some(v) => if v <= usize::MAX {
            Some(v as usize)
        } else {
            None
        },
        None => None,
    }
}

/// The number in query parameter `k`, or `default` when it is missing or not a number.
pub open spec fn usize_param(full: Seq<char>, k: Seq<char>, default: usize) -> usize {
    match query_get(full, k) {
        Some(v) => match usize_of(v) {
            Some(n) => n,
            None => default,
        },
        None => default,
    }
}

/// The 64-bit number in query parameter `k`, or `default`.
pub open spec fn u64_param(full: Seq<char>, k: Seq<char>, default: u64) -> u64 {
    match query_get(full, k) {
        Some(v) => match u64_of(v) {
            Some(n) => n,
            None => default,
        },
        None => default,
    }
}

/// The page asked for (1 by default).
pub open spec fn page_param(full: Seq<char>) -> usize {
    usize_param(full, "page"@, 1)
}

/// The page size asked for (0, meaning the default size, when not given).
pub open spec fn limit_param(full: Seq<char>) -> usize {
    usize_param(full, "limit"@, 0)
}

/// The characters of an optional piece of text.
pub open spec fn opt_chars(o: Option<Vec<char>>) -> Option<Seq<char>> {
    match o {
        Some(v) => Some(v@),
        None => None,
    }
}

/// The part of `v` before the first `c`, and the part after it when `c` occurs.
fn split_at_char(v: &Vec<char>, c: char) -> (r: (Vec<char>, Option<Vec<char>>))
    ensures
        r.0@ == before_char(v@, c),
        r.1 is Some <==> first_index(v@, c) is Some,
        r.1 matches Some(a) ==> a@ == after_char(v@, c),
{
    match find_char(v, c) {
        Some(i) => (slice_vec(v, 0, i), Some(slice_vec(v, i + 1, v.len()))),
        None => {
            proof {
                assert(v@.take(v@.len() as int) =~= v@);
            }
            (slice_vec(v, 0, v.len()), None)
        },
    }
}

/// Whether `v` is the text `lit`.
fn is_text(v: &Vec<char>, lit: &str) -> (r: bool)
    ensures
        r == (v@ == lit@),
{
    let p = chars_of(lit);
    if v.len() != p.len() {
        return false;
    }
    proof {
        assert(v@ =~= v@.take(p@.len() as int));
    }
    let r = starts_with(v, &p);
    r
}

/// The value of query parameter `key` (non-empty) of the request target `full`.
fn query_value(full: &Vec<char>, key: &Vec<char>) -> (r: Option<Vec<char>>)
    requires
        key@.len() > 0,
    ensures
        opt_chars(r) == query_get(full@, key@),
{
    let (_, q) = split_at_char(full, '?');
    let qs: Vec<char> = match q {
        Some(a) => a,
        None => Vec::new(),
    };
    proof {
        assert(qs@ =~= query_part(full@));
    }
    let pairs = split_char(&qs, '&');
    let ghost ps = split_on(qs@, '&');
    let mut found: Option<Vec<char>> = None;
    let mut i: usize = 0;
    proof {
        assert(ps.take(0) =~= Seq::<Seq<char>>::empty());
    }
    while i < pairs.len()
        invariant
            i <= pairs@.len() == ps.len(),
            ps == split_on(qs@, '&'),
            forall|j: int| 0 <= j < pairs@.len() ==> #[trigger] pairs@[j]@ == ps[j],
            key@.len() > 0,
            opt_chars(found) == last_value(ps.take(i as int), key@),
        decreases pairs@.len() - i,
    {
        let (k, v) = split_at_char(&pairs[i], '=');
        proof {
            assert(ps.take(i + 1).drop_last() =~= ps.take(i as int));
            assert(ps.take(i + 1).last() == pairs@[i as int]@);
        }
        if k.len() > 0 && is_text_chars(&k, key) {
            found = match v {
                Some(a) => Some(a),
                None => Some(Vec::new()),
            };
            proof {
                assert(opt_chars(found) =~= Some(after_char(pairs@[i as int]@, '=')));
            }
        }
        i = i + 1;
    }
    proof {
        assert(ps.take(ps.len() as int) =~= ps);
    }
    found
}

/// Whether `a` and `b` hold the same characters.
fn is_text_chars(a: &Vec<char>, b: &Vec<char>) -> (r: bool)
    ensures
        r == (a@ == b@),
{
    if a.len() != b.len() {
        return false;
    }
    proof {
        assert(a@ =~= a@.take(b@.len() as int));
    }
    let r = starts_with(a, b);
    r
}


// ── Routes ──────────────────────────────────────────────────────────────────

/// The handler a request goes to, with what it takes from the path and query.
#[derive(Debug)]
pub enum Route {
    /// `GET /sse?last_id=N`.
    Sse(u64),
    /// `POST /workflows`.
    RegisterWorkflow,
    /// `GET /workflows`: page and page size.
    ListWorkflows(usize, usize),
    /// `GET /events`.
    ListEvents,
    /// `DELETE /_reset`.
    Reset,
    /// `POST /runs`: the workflow is named in the body.
    StartRunFromBody,
    /// `POST /workflows/<name>/run`.
    StartRun(String),
    /// `GET /workflows/<name>/runs`: the workflow, the state filter, page and page size.
    ListRuns(String, Option<String>, usize, usize),
    /// `GET /workflows/<name>`.
    GetWorkflow(String),
    /// `DELETE /workflows/<name>`.
    DeleteWorkflow(String),
    /// `GET /runs/<id>`.
    GetRun(String),
    /// Another method on `/runs/<id>`.
    MethodNotAllowed,
    /// `POST /runs/<id>/cancel`.
    CancelRun(String),
    /// `GET /runs/<id>/ready-steps` or `GET /runs/<id>/ready`.
    ReadySteps(String),
    /// `GET /runs/<id>/steps`: the run, page and page size.
    ListSteps(String, usize, usize),
    /// `POST /runs/<id>/steps/<step>/done`.
    StepDone(String, String),
    /// `POST /runs/<id>/steps/<step>/failed`.
    StepFailed(String, String),
    /// `POST /runs/<id>/steps/<step>/retry`.
    StepRetry(String, String),
    /// `GET /runs/<id>/steps/<step>/output` or `GET /runs/<id>/steps/<step>`.
    StepOutput(String, String),
    /// `POST /runs/<id>/steps/<step>/sub-run`.
    LinkSubRun(String, String),
    /// `POST /events/<name>/subscribe`.
    Subscribe(String),
    /// `POST /events/<name>/unsubscribe`: the function is named in the body.
    Unsubscribe(String),
    /// `POST /events/<name>/emit`.
    Emit(String),
    /// `GET /events/<name>/subscribers`.
    Subscribers(String),
    /// `DELETE /events/<name>/subscribe/<fn>`.
    UnsubscribeNamed(String, String),
    /// Anything else.
    NotFound,
}

/// A route with its names as character sequences.
pub enum RouteView {
    Sse(u64),
    RegisterWorkflow,
    ListWorkflows(usize, usize),
    ListEvents,
    Reset,
    StartRunFromBody,
    StartRun(Seq<char>),
    ListRuns(Seq<char>, Option<Seq<char>>, usize, usize),
    GetWorkflow(Seq<char>),
    DeleteWorkflow(Seq<char>),
    GetRun(Seq<char>),
    MethodNotAllowed,
    CancelRun(Seq<char>),
    ReadySteps(Seq<char>),
    ListSteps(Seq<char>, usize, usize),
    StepDone(Seq<char>, Seq<char>),
    StepFailed(Seq<char>, Seq<char>),
    StepRetry(Seq<char>, Seq<char>),
    StepOutput(Seq<char>, Seq<char>),
    LinkSubRun(Seq<char>, Seq<char>),
    Subscribe(Seq<char>),
    Unsubscribe(Seq<char>),
    Emit(Seq<char>),
    Subscribers(Seq<char>),
    UnsubscribeNamed(Seq<char>, Seq<char>),
    NotFound,
}

impl Route {
    /// The route with its names as character sequences.
    pub open spec fn view(&self) -> RouteView {
        match self {
            Route::Sse(n) => RouteView::Sse(*n),
            Route::RegisterWorkflow => RouteView::RegisterWorkflow,
            Route::ListWorkflows(p, l) => RouteView::ListWorkflows(*p, *l),
            Route::ListEvents => RouteView::ListEvents,
            Route::Reset => RouteView::Reset,
            Route::StartRunFromBody => RouteView::StartRunFromBody,
            Route::StartRun(a) => RouteView::StartRun(a@),
            Route::ListRuns(a, s, p, l) => RouteView::ListRuns(a@, match s {
                Some(x) => Some(x@),
                None => None,
            }, *p, *l),
            Route::GetWorkflow(a) => RouteView::GetWorkflow(a@),
            Route::DeleteWorkflow(a) => RouteView::DeleteWorkflow(a@),
            Route::GetRun(a) => RouteView::GetRun(a@),
            Route::MethodNotAllowed => RouteView::MethodNotAllowed,
            Route::CancelRun(a) => RouteView::CancelRun(a@),
            Route::ReadySteps(a) => RouteView::ReadySteps(a@),
            Route::ListSteps(a, p, l) => RouteView::ListSteps(a@, *p, *l),
            Route::StepDone(a, b) => RouteView::StepDone(a@, b@),
            Route::StepFailed(a, b) => RouteView::StepFailed(a@, b@),
            Route::StepRetry(a, b) => RouteView::StepRetry(a@, b@),
            Route::StepOutput(a, b) => RouteView::StepOutput(a@, b@),
            Route::LinkSubRun(a, b) => RouteView::LinkSubRun(a@, b@),
            Route::Subscribe(a) => RouteView::Subscribe(a@),
            Route::Unsubscribe(a) => RouteView::Unsubscribe(a@),
            Route::Emit(a) => RouteView::Emit(a@),
            Route::Subscribers(a) => RouteView::Subscribers(a@),
            Route::UnsubscribeNamed(a, b) => RouteView::UnsubscribeNamed(a@, b@),
            Route::NotFound => RouteView::NotFound,
        }
    }
}

/// `s` without its last `n` characters.
pub open spec fn drop_end(s: Seq<char>, n: int) -> Seq<char> {
    s.take(s.len() - n)
}

/// The routes under `/workflows/`, where `rest` follows that prefix.
pub open spec fn workflows_route(m: Seq<char>, rest: Seq<char>, full: Seq<char>) -> RouteView {
    if has_suffix(rest, "/run"@) && m == "POST"@ {
        RouteView::StartRun(drop_end(rest, 4))
    } else if has_suffix(rest, "/runs"@) && m == "GET"@ {
        RouteView::ListRuns(drop_end(rest, 5), query_get(full, "state"@), page_param(full), limit_param(full))
    } else if m == "GET"@ && !rest.contains('/') {
        RouteView::GetWorkflow(rest)
    } else if m == "DELETE"@ && !rest.contains('/') {
        RouteView::DeleteWorkflow(rest)
    } else {
        RouteView::NotFound
    }
}

/// The routes under `/runs/<run>/steps/`, where `rest` follows that prefix.
pub open spec fn step_route(m: Seq<char>, run: Seq<char>, rest: Seq<char>) -> RouteView {
    if has_suffix(rest, "/done"@) && m == "POST"@ {
        RouteView::StepDone(run, drop_end(rest, 5))
    } else if has_suffix(rest, "/failed"@) && m == "POST"@ {
        RouteView::StepFailed(run, drop_end(rest, 7))
    } else if has_suffix(rest, "/retry"@) && m == "POST"@ {
        RouteView::StepRetry(run, drop_end(rest, 6))
    } else if has_suffix(rest, "/output"@) && m == "GET"@ {
        RouteView::StepOutput(run, drop_end(rest, 7))
    } else if !rest.contains('/') && m == "GET"@ {
        RouteView::StepOutput(run, rest)
    } else if has_suffix(rest, "/sub-run"@) && m == "POST"@ {
        RouteView::LinkSubRun(run, drop_end(rest, 8))
    } else {
        RouteView::NotFound
    }
}

/// The routes under `/runs/`, where `rest` follows that prefix.
pub open spec fn runs_route(m: Seq<char>, rest: Seq<char>, full: Seq<char>) -> RouteView {
    if !rest.contains('/') {
        if m == "GET"@ {
            RouteView::GetRun(rest)
        } else {
            RouteView::MethodNotAllowed
        }
    } else if has_suffix(rest, "/cancel"@) && m == "POST"@ {
        RouteView::CancelRun(drop_end(rest, 7))
    } else if (has_suffix(rest, "/ready-steps"@) || has_suffix(rest, "/ready"@)) && m == "GET"@ {
        RouteView::ReadySteps(if has_suffix(rest, "/ready-steps"@) {
            drop_end(rest, 12)
        } else {
            drop_end(rest, 6)
        })
    } else if has_suffix(rest, "/steps"@) && m == "GET"@ {
        RouteView::ListSteps(drop_end(rest, 6), page_param(full), limit_param(full))
    } else {
        match find_sub(rest, "/steps/"@, 0) {
            Some(i) => step_route(m, rest.take(i), rest.skip(i + 7)),
            None => RouteView::NotFound,
        }
    }
}

/// The routes under `/events/`, where `rest` follows that prefix.
pub open spec fn events_route(m: Seq<char>, rest: Seq<char>) -> RouteView {
    if has_suffix(rest, "/subscribe"@) && m == "POST"@ {
        RouteView::Subscribe(drop_end(rest, 10))
    } else if has_suffix(rest, "/unsubscribe"@) && m == "POST"@ {
        RouteView::Unsubscribe(drop_end(rest, 12))
    } else if has_suffix(rest, "/emit"@) && m == "POST"@ {
        RouteView::Emit(drop_end(rest, 5))
    } else if has_suffix(rest, "/subscribers"@) && m == "GET"@ {
        RouteView::Subscribers(drop_end(rest, 12))
    } else if m == "DELETE"@ && find_sub(rest, "/subscribe/"@, 0) is Some {
        let i = find_sub(rest, "/subscribe/"@, 0)->0;
        RouteView::UnsubscribeNamed(rest.take(i), rest.skip(i + 11))
    } else {
        RouteView::NotFound
    }
}

/// The route of a request with method `m` to the target `full` (path and query).
pub open spec fn route_spec(m: Seq<char>, full: Seq<char>) -> RouteView {
    let path = path_part(full);
    if m == "GET"@ && path == "/sse"@ {
        RouteView::Sse(u64_param(full, "last_id"@, 0))
    } else if m == "POST"@ && path == "/workflows"@ {
        RouteView::RegisterWorkflow
    } else if m == "GET"@ && path == "/workflows"@ {
        RouteView::ListWorkflows(page_param(full), limit_param(full))
    } else if m == "GET"@ && path == "/events"@ {
        RouteView::ListEvents
    } else if m == "DELETE"@ && path == "/_reset"@ {
        RouteView::Reset
    } else if m == "POST"@ && path == "/runs"@ {
        RouteView::StartRunFromBody
    } else if has_prefix(path, "/workflows/"@) {
        workflows_route(m, path.skip(11), full)
    } else if has_prefix(path, "/runs/"@) {
        runs_route(m, path.skip(6), full)
    } else if has_prefix(path, "/events/"@) {
        events_route(m, path.skip(8))
    } else {
        RouteView::NotFound
    }
}


// ── Routing ─────────────────────────────────────────────────────────────────

/// Whether `v` ends with `lit`.
fn ends(v: &Vec<char>, lit: &str) -> (r: bool)
    ensures
        r == has_suffix(v@, lit@),
{
    ends_with(v, &chars_of(lit))
}

/// Whether `v` has a `/`.
fn has_slash(v: &Vec<char>) -> (r: bool)
    ensures
        r == v@.contains('/'),
{
    find_char(v, '/').is_some()
}

/// `v` without its last `n` characters, as a string.
fn head(v: &Vec<char>, n: usize) -> (r: String)
    requires
        n <= v@.len(),
    ensures
        r@ == drop_end(v@, n as int),
{
    let h = slice_vec(v, 0, v.len() - n);
    string_from_chars(h.as_slice())
}

/// The characters of `v` from `lo` on, as a string.
fn tail(v: &Vec<char>, lo: usize) -> (r: String)
    requires
        lo <= v@.len(),
    ensures
        r@ == v@.skip(lo as int),
{
    let t = slice_vec(v, lo, v.len());
    string_from_chars(t.as_slice())
}

/// `v` as a string.
fn text_of(v: &Vec<char>) -> (r: String)
    ensures
        r@ == v@,
{
    string_from_chars(v.as_slice())
}

/// The number in query parameter `key`, or `default`.
fn usize_value(full: &Vec<char>, key: &str, default: usize) -> (r: usize)
    requires
        key@.len() > 0,
    ensures
        r == usize_param(full@, key@, default),
{
    let k = chars_of(key);
    match query_value(full, &k) {
        Some(v) => match parse_u64(&v) {
            Some(n) => if (n as u128) <= (usize::MAX as u128) {
                n as usize
            } else {
                default
            },
            None => default,
        },
        None => default,
    }
}

/// The 64-bit number in query parameter `key`, or `default`.
fn u64_value(full: &Vec<char>, key: &str, default: u64) -> (r: u64)
    requires
        key@.len() > 0,
    ensures
        r == u64_param(full@, key@, default),
{
    let k = chars_of(key);
    match query_value(full, &k) {
        Some(v) => match parse_u64(&v) {
            Some(n) => n,
            None => default,
        },
        None => default,
    }
}

/// The page and page size of a listing.
fn paging(full: &Vec<char>) -> (r: (usize, usize))
    ensures
        r == (page_param(full@), limit_param(full@)),
{
    proof {
        reveal_strlit("page");
        reveal_strlit("limit");
    }
    (usize_value(full, "page", 1), usize_value(full, "limit", 0))
}

fn workflows_route_of(m: &Vec<char>, rest: &Vec<char>, full: &Vec<char>) -> (r: Route)
    ensures
        r@ == workflows_route(m@, rest@, full@),
{
    proof {
        reveal_strlit("/run");
        reveal_strlit("/runs");
    }
    if ends(rest, "/run") && is_text(m, "POST") {
        Route::StartRun(head(rest, 4))
    } else if ends(rest, "/runs") && is_text(m, "GET") {
        proof {
            reveal_strlit("state");
        }
        let state = query_value(full, &chars_of("state"));
        let state_text = match state {
            Some(v) => Some(string_from_chars(v.as_slice())),
            None => None,
        };
        let (page, limit) = paging(full);
        Route::ListRuns(head(rest, 5), state_text, page, limit)
    } else if is_text(m, "GET") && !has_slash(rest) {
        Route::GetWorkflow(text_of(rest))
    } else if is_text(m, "DELETE") && !has_slash(rest) {
        Route::DeleteWorkflow(text_of(rest))
    } else {
        Route::NotFound
    }
}

fn step_route_of(m: &Vec<char>, run: String, rest: &Vec<char>) -> (r: Route)
    ensures
        r@ == step_route(m@, run@, rest@),
{
    proof {
        reveal_strlit("/done");
        reveal_strlit("/failed");
        reveal_strlit("/retry");
        reveal_strlit("/output");
        reveal_strlit("/sub-run");
    }
    if ends(rest, "/done") && is_text(m, "POST") {
        Route::StepDone(run, head(rest, 5))
    } else if ends(rest, "/failed") && is_text(m, "POST") {
        Route::StepFailed(run, head(rest, 7))
    } else if ends(rest, "/retry") && is_text(m, "POST") {
        Route::StepRetry(run, head(rest, 6))
    } else if ends(rest, "/output") && is_text(m, "GET") {
        Route::StepOutput(run, head(rest, 7))
    } else if !has_slash(rest) && is_text(m, "GET") {
        Route::StepOutput(run, text_of(rest))
    } else if ends(rest, "/sub-run") && is_text(m, "POST") {
        Route::LinkSubRun(run, head(rest, 8))
    } else {
        Route::NotFound
    }
}

/// The routes under `/runs/<run>/steps/`, found in `rest`.
fn steps_route_of(m: &Vec<char>, rest: &Vec<char>) -> (r: Route)
    ensures
        r@ == match find_sub(rest@, "/steps/"@, 0) {
            Some(i) => step_route(m@, rest@.take(i), rest@.skip(i + 7)),
            None => RouteView::NotFound,
        },
{
    proof {
        reveal_strlit("/steps/");
    }
    let pat = chars_of("/steps/");
    match find_chars(rest, &pat) {
        Some(i) => {
            let run = head(rest, rest.len() - i);
            let after = slice_vec(rest, i + 7, rest.len());
            proof {
                assert(drop_end(rest@, rest@.len() - i) =~= rest@.take(i as int));
                assert(after@ =~= rest@.skip(i + 7));
            }
            step_route_of(m, run, &after)
        },
        None => Route::NotFound,
    }
}

fn runs_route_of(m: &Vec<char>, rest: &Vec<char>, full: &Vec<char>) -> (r: Route)
    ensures
        r@ == runs_route(m@, rest@, full@),
{
    proof {
        reveal_strlit("/cancel");
        reveal_strlit("/ready-steps");
        reveal_strlit("/ready");
        reveal_strlit("/steps");
        reveal_strlit("/steps/");
    }
    if !has_slash(rest) {
        if is_text(m, "GET") {
            Route::GetRun(text_of(rest))
        } else {
            Route::MethodNotAllowed
        }
    } else if ends(rest, "/cancel") && is_text(m, "POST") {
        Route::CancelRun(head(rest, 7))
    } else if (ends(rest, "/ready-steps") || ends(rest, "/ready")) && is_text(m, "GET") {
        if ends(rest, "/ready-steps") {
            Route::ReadySteps(head(rest, 12))
        } else {
            Route::ReadySteps(head(rest, 6))
        }
    } else if ends(rest, "/steps") && is_text(m, "GET") {
        let (page, limit) = paging(full);
        Route::ListSteps(head(rest, 6), page, limit)
    } else {
        steps_route_of(m, rest)
    }
}

fn events_route_of(m: &Vec<char>, rest: &Vec<char>) -> (r: Route)
    ensures
        r@ == events_route(m@, rest@),
{
    proof {
        reveal_strlit("/subscribe");
        reveal_strlit("/unsubscribe");
        reveal_strlit("/emit");
        reveal_strlit("/subscribers");
        reveal_strlit("/subscribe/");
    }
    if ends(rest, "/subscribe") && is_text(m, "POST") {
        Route::Subscribe(head(rest, 10))
    } else if ends(rest, "/unsubscribe") && is_text(m, "POST") {
        Route::Unsubscribe(head(rest, 12))
    } else if ends(rest, "/emit") && is_text(m, "POST") {
        Route::Emit(head(rest, 5))
    } else if ends(rest, "/subscribers") && is_text(m, "GET") {
        Route::Subscribers(head(rest, 12))
    } else if is_text(m, "DELETE") {
        let pat = chars_of("/subscribe/");
        match find_chars(rest, &pat) {
            Some(i) => {
                let name = head(rest, rest.len() - i);
                proof {
                    assert(drop_end(rest@, rest@.len() - i) =~= rest@.take(i as int));
                }
                Route::UnsubscribeNamed(name, tail(rest, i + 11))
            },
            None => Route::NotFound,
        }
    } else {
        Route::NotFound
    }
}

/// The route of a request with method `method` to `target` (a path with an
/// optional query).
pub fn route_of(method: &str, target: &str) -> (r: Route)
    ensures
        r@ == route_spec(method@, target@),
{
    proof {
        reveal_strlit("/workflows/");
        reveal_strlit("/runs/");
        reveal_strlit("/events/");
        reveal_strlit("last_id");
    }
    let m = chars_of(method);
    let full = chars_of(target);
    let (path, _) = split_at_char(&full, '?');
    if is_text(&m, "GET") && is_text(&path, "/sse") {
        Route::Sse(u64_value(&full, "last_id", 0))
    } else if is_text(&m, "POST") && is_text(&path, "/workflows") {
        Route::RegisterWorkflow
    } else if is_text(&m, "GET") && is_text(&path, "/workflows") {
        let (page, limit) = paging(&full);
        Route::ListWorkflows(page, limit)
    } else if is_text(&m, "GET") && is_text(&path, "/events") {
        Route::ListEvents
    } else if is_text(&m, "DELETE") && is_text(&path, "/_reset") {
        Route::Reset
    } else if is_text(&m, "POST") && is_text(&path, "/runs") {
        Route::StartRunFromBody
    } else if starts_with(&path, &chars_of("/workflows/")) {
        let rest = slice_vec(&path, 11, path.len());
        workflows_route_of(&m, &rest, &full)
    } else if starts_with(&path, &chars_of("/runs/")) {
        let rest = slice_vec(&path, 6, path.len());
        runs_route_of(&m, &rest, &full)
    } else if starts_with(&path, &chars_of("/events/")) {
        let rest = slice_vec(&path, 8, path.len());
        events_route_of(&m, &rest)
    } else {
        Route::NotFound
    }
}

// ── Laws ────────────────────────────────────────────────────────────────────

/// Whether `s` can stand as one segment of a path: it has no `/` and no `?`.
pub open spec fn segment(s: Seq<char>) -> bool {
    !s.contains('/') && !s.contains('?')
}

/// A target with no `?` is all path.
proof fn lemma_no_query(full: Seq<char>)
    requires
        !full.contains('?'),
    ensures
        path_part(full) == full,
{
    assert(first_index(full, '?') is None);
    assert(full.take(full.len() as int) =~= full);
}

/// `s` has no `/` or `?` and ends in a given character, so it ends in none
/// of the suffixes that the router tells apart by another last character.
proof fn lemma_not_suffix(s: Seq<char>, p: Seq<char>)
    requires
        p.len() > 0,
        s.len() > 0,
        s.last() != p.last(),
    ensures
        !has_suffix(s, p),
{
    if has_suffix(s, p) {
        assert(s.skip(s.len() - p.len())[p.len() - 1] == s.last());
    }
}

/// A path segment ends in no suffix that holds a `/`.
proof fn lemma_segment_no_suffix(s: Seq<char>, p: Seq<char>)
    requires
        segment(s),
        p.len() > 0,
        p[0] == '/',
    ensures
        !has_suffix(s, p),
{
    if has_suffix(s, p) {
        assert(s.skip(s.len() - p.len())[0] == s[s.len() - p.len()]);
        assert(s.contains('/'));
    }
}

/// The router sends `/workflows/<name>` to the workflow `name`: GET reads
/// it and DELETE deletes it, for a name that is a path segment.
pub proof fn law_route_workflow_name(name: Seq<char>)
    requires
        segment(name),
    ensures
        route_spec("GET"@, "/workflows/"@ + name) == RouteView::GetWorkflow(name),
        route_spec("DELETE"@, "/workflows/"@ + name) == RouteView::DeleteWorkflow(name),
{
    reveal_strlit("GET");
    reveal_strlit("DELETE");
    reveal_strlit("POST");
    reveal_strlit("/sse");
    reveal_strlit("/workflows");
    reveal_strlit("/events");
    reveal_strlit("/_reset");
    reveal_strlit("/runs");
    reveal_strlit("/workflows/");
    reveal_strlit("/run");
    let w = "/workflows/"@ + name;
    assert forall|i: int| 0 <= i < w.len() implies w[i] != '?' by {
        if i >= 11 {
            assert(w[i] == name[i - 11]);
        }
    }
    lemma_no_query(w);
    assert(w.len() >= 11);
    assert("DELETE"@.len() == 6 && "GET"@.len() == 3 && "POST"@.len() == 4);
    assert("DELETE"@ != "GET"@ && "DELETE"@ != "POST"@ && "GET"@ != "POST"@);
    assert(w != "/sse"@ && w != "/workflows"@ && w != "/events"@ && w != "/_reset"@ && w != "/runs"@);
    assert(w.take(11) =~= "/workflows/"@);
    assert(w.skip(11) =~= name);
    lemma_segment_no_suffix(name, "/run"@);
    lemma_segment_no_suffix(name, "/runs"@);
    assert(route_spec("GET"@, w) == workflows_route("GET"@, name, w));
    assert(route_spec("DELETE"@, w) == workflows_route("DELETE"@, name, w));
}

/// The router sends a POST to `/runs/<run>/steps/<step>/done` to step
/// `step` of run `run`, for names that are path segments.
#[verifier::spinoff_prover]
pub proof fn law_route_step_done(run: Seq<char>, step: Seq<char>)
    requires
        segment(run),
        segment(step),
    ensures
        route_spec("POST"@, "/runs/"@ + run + "/steps/"@ + step + "/done"@) == RouteView::StepDone(run, step),
{
    reveal_strlit("GET");
    reveal_strlit("DELETE");
    reveal_strlit("POST");
    reveal_strlit("/sse");
    reveal_strlit("/workflows");
    reveal_strlit("/events");
    reveal_strlit("/_reset");
    reveal_strlit("/runs");
    reveal_strlit("/workflows/");
    reveal_strlit("/runs/");
    reveal_strlit("/steps/");
    reveal_strlit("/done");
    reveal_strlit("/cancel");
    let sp = "/steps/"@;
    let rest = run + sp + step + "/done"@;
    let t = "/runs/"@ + rest;
    assert(t =~= "/runs/"@ + run + "/steps/"@ + step + "/done"@);
    assert forall|i: int| 0 <= i < t.len() implies t[i] != '?' by {
        if 6 <= i < 6 + run.len() {
            assert(t[i] == run[i - 6]);
        } else if 6 + run.len() + 7 <= i < 6 + run.len() + 7 + step.len() {
            assert(t[i] == step[i - 6 - run.len() - 7]);
        }
    }
    lemma_no_query(t);
    assert(t.len() >= 18);
    assert("DELETE"@.len() == 6 && "GET"@.len() == 3 && "POST"@.len() == 4);
    assert("POST"@ != "GET"@ && "POST"@ != "DELETE"@);
    assert(t != "/sse"@ && t != "/workflows"@ && t != "/events"@ && t != "/_reset"@ && t != "/runs"@);
    assert(t[1] == 'r');
    assert(!has_prefix(t, "/workflows/"@)) by {
        if has_prefix(t, "/workflows/"@) {
            assert(t.take(11)[1] == t[1]);
        }
    }
    assert(t.take(6) =~= "/runs/"@);
    assert(t.skip(6) =~= rest);
    assert(rest[run.len() as int] == '/');
    assert(rest.contains('/'));
    lemma_not_suffix(rest, "/cancel"@);
    assert(rest.subrange(run.len() as int, run.len() as int + 7) =~= sp);
    assert forall|j: int| 0 <= j < run.len() implies !#[trigger] crate::strings::occurs_at(rest, sp, j) by {
        if crate::strings::occurs_at(rest, sp, j) {
            assert(rest.subrange(j, j + 7)[0] == rest[j]);
            assert(rest[j] == run[j]);
            assert(run.contains('/'));
        }
    }
    crate::strings::lemma_find_sub_at(rest, sp, 0, run.len() as int);
    assert(rest.take(run.len() as int) =~= run);
    let after = rest.skip(run.len() as int + 7);
    assert(after =~= step + "/done"@);
    assert(after.skip(after.len() - 5) =~= "/done"@);
    assert(drop_end(after, 5) =~= step);
    assert(route_spec("POST"@, t) == runs_route("POST"@, rest, t));
}

} // verus!
