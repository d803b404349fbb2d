//! The JSON answers of the workflow engine's requests: the ready steps, a
//! step's output, the pages of steps and runs, and the answers to starting a
//! run and registering a workflow.
use vstd::prelude::*;
use crate::store::{views, KeyedStore};
use crate::strings::join_with;
use crate::text::{dec, push_chars, push_str, string_from_chars, u64_to_dec};
use crate::workflow::StepRecord;
use crate::workflow_api::error_json;
use crate::workflow_run::{ReadyStep, json_parsed};

verus! {

/// `{"error":"<msg>"}` with status `code`.
pub fn error_reply(code: u16, msg: &str) -> (r: (u16, String))
    ensures
        r.0 == code,
        r.1@ == error_json(msg@),
{
    let mut v: Vec<char> = Vec::new();
    push_str(&mut v, "{\"error\":\"");
    push_str(&mut v, msg);
    push_str(&mut v, "\"}");
    proof {
        assert(v@ =~= error_json(msg@));
    }
    (code, string_from_chars(v.as_slice()))
}

/// Append the decimal digits of `n`.
fn push_dec(v: &mut Vec<char>, n: u64)
    ensures
        final(v)@ == old(v)@ + dec(n as nat),
{
    push_chars(v, &u64_to_dec(n));
}

// ── Ready steps ─────────────────────────────────────────────────────────────

/// `{"name":"…","state":"…","attempt":N}`, with `,"sub_workflow":"…"` before
/// the closing brace for a step that delegates to a child workflow.
pub open spec fn ready_item(rs: ReadyStep) -> Seq<char> {
    "{\"name\":\""@ + rs.name@ + "\",\"state\":\""@ + rs.state@ + "\",\"attempt\":"@ + dec(rs.attempt as nat)
        + match rs.sub_workflow {
        Some(w) => ",\"sub_workflow\":\""@ + w@ + "\""@,
        None => Seq::<char>::empty(),
    } + "}"@
}

/// The JSON array of the ready steps.
pub open spec fn ready_json(items: Seq<ReadyStep>) -> Seq<char> {
    "["@ + join_with(items.map_values(|x: ReadyStep| ready_item(x)), ","@) + "]"@
}

/// The JSON array of the ready steps `items`.
pub fn ready_body(items: &Vec<ReadyStep>) -> (r: String)
    ensures
        r@ == ready_json(items@),
{
    let mut v: Vec<char> = Vec::new();
    let ghost parts = items@.map_values(|x: ReadyStep| ready_item(x));
    let mut i: usize = 0;
    proof {
        assert(parts.take(0) =~= Seq::<Seq<char>>::empty());
    }
    while i < items.len()
        invariant
            i <= items@.len(),
            parts == items@.map_values(|x: ReadyStep| ready_item(x)),
            v@ == join_with(parts.take(i as int), ","@),
        decreases items@.len() - i,
    {
        let ghost before = v@;
        if i > 0 {
            push_str(&mut v, ",");
        }
        let rs = &items[i];
        push_str(&mut v, "{\"name\":\"");
        push_str(&mut v, rs.name.as_str());
        push_str(&mut v, "\",\"state\":\"");
        push_str(&mut v, rs.state.as_str());
        push_str(&mut v, "\",\"attempt\":");
        push_dec(&mut v, rs.attempt as u64);
        match &rs.sub_workflow {
            Some(w) => {
                push_str(&mut v, ",\"sub_workflow\":\"");
                push_str(&mut v, w.as_str());
                push_str(&mut v, "\"");
            },
            None => {},
        }
        push_str(&mut v, "}");
        proof {
            let t = parts.take(i + 1);
            assert(t.drop_last() =~= parts.take(i as int));
            assert(t.last() == ready_item(items@[i as int]));
            if i == 0 {
                assert(t.len() == 1);
                assert(v@ =~= t[0]);
            } else {
                assert(v@ =~= before + ","@ + t.last());
            }
        }
        i = i + 1;
    }
    let mut out: Vec<char> = Vec::new();
    push_str(&mut out, "[");
    push_chars(&mut out, &v);
    push_str(&mut out, "]");
    proof {
        assert(parts.take(items@.len() as int) =~= parts);
        assert(out@ =~= ready_json(items@));
    }
    string_from_chars(out.as_slice())
}

// ── A step's output ─────────────────────────────────────────────────────────

/// What `serde_json::to_string` writes for the JSON value `v`.
pub uninterp spec fn json_text(v: serde_json::Value) -> Seq<char>;

/// Wraps `serde_json::to_string` on a `serde_json::Value` (which cannot fail
/// to serialise).
#[verifier::external_body]
fn value_text(v: &serde_json::Value) -> (r: String)
    ensures
        r@ == json_text(*v),
{
    serde_json::to_string(v).unwrap_or_default()
}

/// The bytes as a JSON array of numbers, as `serde_json` writes a byte vector.
pub open spec fn byte_array(b: Seq<u8>) -> Seq<char> {
    "["@ + join_with(b.map_values(|x: u8| dec(x as nat)), ","@) + "]"@
}

/// The JSON array of the numbers of `b`.
fn byte_array_text(b: &Vec<u8>) -> (r: Vec<char>)
    ensures
        r@ == byte_array(b@),
{
    let ghost parts = b@.map_values(|x: u8| dec(x as nat));
    let mut v: Vec<char> = Vec::new();
    let mut i: usize = 0;
    proof {
        assert(parts.take(0) =~= Seq::<Seq<char>>::empty());
    }
    while i < b.len()
        invariant
            i <= b@.len(),
            parts == b@.map_values(|x: u8| dec(x as nat)),
            v@ == join_with(parts.take(i as int), ","@),
        decreases b@.len() - i,
    {
        let ghost before = v@;
        if i > 0 {
            push_str(&mut v, ",");
        }
        push_dec(&mut v, b[i] as u64);
        proof {
            let t = parts.take(i + 1);
            assert(t.drop_last() =~= parts.take(i as int));
            assert(t.last() == dec(b@[i as int] as nat));
            if i == 0 {
                assert(v@ =~= t[0]);
            } else {
                assert(v@ =~= before + ","@ + t.last());
            }
        }
        i = i + 1;
    }
    let mut out: Vec<char> = Vec::new();
    push_str(&mut out, "[");
    push_chars(&mut out, &v);
    push_str(&mut out, "]");
    proof {
        assert(parts.take(b@.len() as int) =~= parts);
        assert(out@ =~= byte_array(b@));
    }
    out
}

/// A step's output as JSON: the output itself when it is JSON, else its bytes
/// as an array of numbers; `null` when there is none.
pub open spec fn output_json(output: Option<Seq<u8>>) -> Seq<char> {
    match output {
        Some(b) => match json_parsed(b) {
            Some(v) => json_text(v),
            None => byte_array(b),
        },
        None => "null"@,
    }
}

/// The answer to a request for the output of step `step_name` of run
/// `run_id`: 404 when the step has no record, 500 when its record cannot be
/// read (`Some(None)`), else its output and state.
pub open spec fn output_reply(run_id: Seq<char>, step_name: Seq<char>, rec: Option<Option<StepRecord>>) -> (u16, Seq<char>) {
    match rec {
        None => (404u16, "{\"error\":\"step '"@ + step_name + "' not found for run '"@ + run_id + "'\"  }"@),
        Some(None) => (500u16, error_json("corrupt step record"@)),
        Some(Some(sr)) => (200u16, "{\"output\":"@ + output_json(crate::text::opt_bytes(sr.output)) + ",\"state\":\""@
            + sr.state@ + "\"}"@),
    }
}

/// Answer a request for the output of step `step_name` of run `run_id`,
/// whose record is `rec` (see `output_reply`).
pub fn step_output_reply(run_id: &str, step_name: &str, rec: &Option<Option<StepRecord>>) -> (r: (u16, String))
    ensures
        r.0 == output_reply(run_id@, step_name@, *rec).0,
        r.1@ == output_reply(run_id@, step_name@, *rec).1,
{
    match rec {
        None => {
            let mut v: Vec<char> = Vec::new();
            push_str(&mut v, "{\"error\":\"step '");
            push_str(&mut v, step_name);
            push_str(&mut v, "' not found for run '");
            push_str(&mut v, run_id);
            push_str(&mut v, "'\"  }");
            proof {
                assert(v@ =~= "{\"error\":\"step '"@ + step_name@ + "' not found for run '"@ + run_id@ + "'\"  }"@);
            }
            (404, string_from_chars(v.as_slice()))
        },
        Some(None) => error_reply(500, "corrupt step record"),
        Some(Some(sr)) => {
            let mut v: Vec<char> = Vec::new();
            push_str(&mut v, "{\"output\":");
            match &sr.output {
                Some(b) => match crate::workflow_run::parse_json(b.as_slice()) {
                    Some(val) => {
                        let t = value_text(&val);
                        push_str(&mut v, t.as_str());
                    },
                    None => {
                        let t = byte_array_text(b);
                        push_chars(&mut v, &t);
                    },
                },
                None => {
                    push_str(&mut v, "null");
                },
            }
            push_str(&mut v, ",\"state\":\"");
            push_str(&mut v, sr.state.as_str());
            push_str(&mut v, "\"}");
            proof {
                assert(v@ =~= "{\"output\":"@ + output_json(crate::text::opt_bytes(sr.output)) + ",\"state\":\""@
                    + sr.state@ + "\"}"@);
            }
            (200, string_from_chars(v.as_slice()))
        },
    }
}

// ── Pages of steps and runs ─────────────────────────────────────────────────

/// The `limit` items of `s` from `start` on (fewer at the end).
pub open spec fn window<A>(s: Seq<A>, start: int, limit: int) -> Seq<A> {
    if start >= s.len() {
        Seq::empty()
    } else if start + limit >= s.len() {
        s.skip(start)
    } else {
        s.subrange(start, start + limit)
    }
}

/// `{"name":"…","state":"…","attempt":N}` for step `name` with record `sr`.
pub open spec fn step_item(name: Seq<char>, sr: StepRecord) -> Seq<char> {
    "{\"name\":\""@ + name + "\",\"state\":\""@ + sr.state@ + "\",\"attempt\":"@ + dec(sr.attempt as nat) + "}"@
}

/// The items of the steps named in `names` that have a record in `recs`, in order.
pub open spec fn step_items(names: Seq<Seq<char>>, recs: Map<Seq<char>, StepRecord>) -> Seq<Seq<char>>
    decreases names.len(),
{
    if names.len() == 0 {
        Seq::empty()
    } else {
        let p = step_items(names.drop_last(), recs);
        if recs.contains_key(names.last()) {
            p.push(step_item(names.last(), recs[names.last()]))
        } else {
            p
        }
    }
}

/// A page of JSON items with the total count, the page and its size.
pub open spec fn items_page(items: Seq<Seq<char>>, total: nat, page: nat, limit: nat) -> Seq<char> {
    "{\"items\":["@ + join_with(items, ","@) + "],\"total\":"@ + dec(total) + ",\"page\":"@ + dec(page)
        + ",\"limit\":"@ + dec(limit) + "}"@
}

/// `{"items":[<items joined by ,>],"total":T,"page":P,"limit":L}`.
fn items_page_text(items: &Vec<Vec<char>>, total: u64, page: u64, limit: u64) -> (r: String)
    ensures
        r@ == items_page(crate::strings::piece_views(items@), total as nat, page as nat, limit as nat),
{
    let mut v: Vec<char> = Vec::new();
    push_str(&mut v, "{\"items\":[");
    let sep = crate::text::chars_of(",");
    push_chars(&mut v, &crate::strings::join_pieces(items, &sep));
    push_str(&mut v, "],\"total\":");
    push_dec(&mut v, total);
    push_str(&mut v, ",\"page\":");
    push_dec(&mut v, page);
    push_str(&mut v, ",\"limit\":");
    push_dec(&mut v, limit);
    push_str(&mut v, "}");
    proof {
        assert(v@ =~= items_page(crate::strings::piece_views(items@), total as nat, page as nat, limit as nat));
    }
    string_from_chars(v.as_slice())
}

/// The page number asked for (at least 1) and the page size (50 for 0).
pub open spec fn paging(page: usize, limit: usize) -> (int, int) {
    (if page < 1 { 1 } else { page as int }, if limit == 0 { 50 } else { limit as int })
}

/// The answer to a request for page `page` of `limit` steps (see `paging`)
/// of run `run_id`: 404 when the run has no record; else the steps `names`
/// in code-point order, the items of those on the page that have a readable
/// record in `recs`, and the count of `names`.
pub fn list_steps_reply(
    run_id: &str,
    run_found: bool,
    names: &Vec<String>,
    recs: &KeyedStore<StepRecord>,
    page: usize,
    limit: usize,
) -> (r: (u16, String))
    requires
        recs.wf(),
        (paging(page, limit).0 - 1) * paging(page, limit).1 <= usize::MAX,
    ensures
        !run_found ==> r.0 == 404 && r.1@ == error_json("run '"@ + run_id@ + "' not found"@),
        run_found ==> r.0 == 200 && exists|sorted: Seq<Seq<char>>| #[trigger] crate::strings::sorted_strs(sorted)
            && sorted.to_multiset() == views(names@).to_multiset()
            && r.1@ == items_page(step_items(window(sorted, (paging(page, limit).0 - 1) * paging(page, limit).1,
                paging(page, limit).1), recs@), names@.len() as nat, paging(page, limit).0 as nat, paging(page, limit).1 as nat),
{
    if !run_found {
        let mut v: Vec<char> = Vec::new();
        push_str(&mut v, "run '");
        push_str(&mut v, run_id);
        push_str(&mut v, "' not found");
        let msg = string_from_chars(v.as_slice());
        proof {
            assert(msg@ =~= "run '"@ + run_id@ + "' not found"@);
        }
        return error_reply(404, msg.as_str());
    }
    let mut pieces: Vec<Vec<char>> = Vec::new();
    let mut i: usize = 0;
    while i < names.len()
        invariant
            i <= names@.len(),
            pieces@.len() == i,
            forall|j: int| 0 <= j < i ==> #[trigger] pieces@[j]@ == names@[j]@,
        decreases names@.len() - i,
    {
        pieces.push(crate::text::chars_of(names[i].as_str()));
        i = i + 1;
    }
    proof {
        assert(crate::strings::piece_views(pieces@) =~= views(names@));
    }
    let sorted = crate::strings::sort_pieces(pieces);
    let ghost sv = crate::strings::piece_views(sorted@);
    let pg: usize = if page < 1 { 1 } else { page };
    let lim: usize = if limit == 0 { 50 } else { limit };
    proof {
        assert((pg - 1) * lim == (paging(page, limit).0 - 1) * paging(page, limit).1);
        assert(0 <= (pg - 1) * lim) by (nonlinear_arith)
            requires
                pg >= 1,
        ;
    }
    let start: usize = (pg - 1) * lim;
    let n = sorted.len();
    let end: usize = if start >= n {
        start
    } else if n - start <= lim {
        n
    } else {
        start + lim
    };
    let ghost win = window(sv, start as int, lim as int);
    proof {
        if start >= n {
            assert(win =~= Seq::<Seq<char>>::empty());
        } else if n - start <= lim {
            assert(win =~= sv.subrange(start as int, n as int));
        } else {
            assert(win =~= sv.subrange(start as int, (start + lim) as int));
        }
    }
    let mut items: Vec<Vec<char>> = Vec::new();
    let mut k: usize = start;
    proof {
        assert(win.take(0) =~= Seq::<Seq<char>>::empty());
        assert(crate::strings::piece_views(items@) =~= step_items(win.take(0), recs@));
    }
    while k < end
        invariant
            recs.wf(),
            sv == crate::strings::piece_views(sorted@),
            n == sorted@.len(),
            start <= k <= end,
            start < n ==> end <= n,
            start >= n ==> end == start,
            start >= n ==> win == Seq::<Seq<char>>::empty(),
            start < n ==> win == sv.subrange(start as int, end as int),
            crate::strings::piece_views(items@) == step_items(win.take(k - start), recs@),
        decreases end - k,
    {
        let name = string_from_chars(sorted[k].as_slice());
        let ghost t = win.take(k + 1 - start);
        proof {
            assert(t.drop_last() =~= win.take(k - start));
            assert(t.last() == sorted@[k as int]@);
        }
        let ghost before = crate::strings::piece_views(items@);
        match recs.get(&name) {
            Some(sr) => {
                let mut v: Vec<char> = Vec::new();
                push_str(&mut v, "{\"name\":\"");
                push_chars(&mut v, &sorted[k]);
                push_str(&mut v, "\",\"state\":\"");
                push_str(&mut v, sr.state.as_str());
                push_str(&mut v, "\",\"attempt\":");
                push_dec(&mut v, sr.attempt as u64);
                push_str(&mut v, "}");
                proof {
                    assert(v@ =~= step_item(name@, recs@[name@]));
                }
                items.push(v);
                proof {
                    assert(crate::strings::piece_views(items@) =~= before.push(step_item(name@, recs@[name@])));
                }
            },
            None => {},
        }
        k = k + 1;
    }
    proof {
        assert(win.take(end - start) =~= win);
        assert(crate::strings::sorted_strs(sv));
    }
    let body = items_page_text(&items, names.len() as u64, pg as u64, lim as u64);
    (200, body)
}

/// How many of the run states `states` (`None` for a record that cannot be
/// read) are `f`.
pub open spec fn count_state(states: Seq<Option<String>>, f: Seq<char>) -> nat
    decreases states.len(),
{
    if states.len() == 0 {
        0
    } else {
        count_state(states.drop_last(), f) + match states.last() {
            Some(s) => if s@ == f {
                1nat
            } else {
                0nat
            },
            None => 0nat,
        }
    }
}

/// The page of runs `items` (their stored JSON, decoded lossily) out of the
/// runs of a workflow whose states are `states`: the total counts the runs
/// in state `filter` when one is given; the page is at least 1 and the size
/// 50 for 0, both as 32-bit numbers.
pub fn list_runs_reply(states: &Vec<Option<String>>, filter: Option<&str>, items: &Vec<Vec<u8>>, page: usize, limit: usize) -> (r: (u16, String))
    ensures
        r.0 == 200,
        r.1@ == items_page(items@.map_values(|b: Vec<u8>| crate::text::lossy(b@)),
            match filter {
                None => states@.len() as nat,
                Some(f) => count_state(states@, f@),
            },
            crate::workflow_api::page_no(page) as nat, crate::workflow_api::limit_no(limit) as nat),
{
    let mut total: u64 = 0;
    let mut i: usize = 0;
    proof {
        assert(states@.take(0) =~= Seq::<Option<String>>::empty());
    }
    while i < states.len()
        invariant
            i <= states@.len(),
            total <= i,
            total == match filter {
                None => i as nat,
                Some(f) => count_state(states@.take(i as int), f@),
            },
        decreases states@.len() - i,
    {
        proof {
            assert(states@.take(i + 1).drop_last() =~= states@.take(i as int));
            assert(states@.take(i + 1).last() == states@[i as int]);
        }
        let counts = match filter {
            None => true,
            Some(f) => match &states[i] {
                Some(s) => crate::workflow_engine::is_state(s, f),
                None => false,
            },
        };
        if counts {
            total = total + 1;
        }
        i = i + 1;
    }
    proof {
        assert(states@.take(states@.len() as int) =~= states@);
    }
    let mut pieces: Vec<Vec<char>> = Vec::new();
    let mut j: usize = 0;
    while j < items.len()
        invariant
            j <= items@.len(),
            pieces@.len() == j,
            forall|q: int| 0 <= q < j ==> #[trigger] pieces@[q]@ == crate::text::lossy(items@[q]@),
        decreases items@.len() - j,
    {
        let t = crate::text::from_utf8_lossy(items[j].as_slice());
        pieces.push(crate::text::chars_of(t.as_str()));
        j = j + 1;
    }
    proof {
        assert(crate::strings::piece_views(pieces@) =~= items@.map_values(|b: Vec<u8>| crate::text::lossy(b@)));
    }
    let page_u32 = (if page < 1 { 1 } else { page }) as u32;
    let limit_u32: u32 = if limit == 0 { 50 } else { limit as u32 };
    let body = items_page_text(&pieces, total, page_u32 as u64, limit_u32 as u64);
    (200, body)
}

// ── Other answers ───────────────────────────────────────────────────────────

/// 404 with `{"error":"<kind> '<id>' not found"}`.
pub fn missing_reply(kind: &str, id: &str) -> (r: (u16, String))
    ensures
        r.0 == 404,
        r.1@ == error_json(kind@ + " '"@ + id@ + "' not found"@),
{
    let mut v: Vec<char> = Vec::new();
    push_str(&mut v, kind);
    push_str(&mut v, " '");
    push_str(&mut v, id);
    push_str(&mut v, "' not found");
    let msg = string_from_chars(v.as_slice());
    proof {
        assert(msg@ =~= kind@ + " '"@ + id@ + "' not found"@);
    }
    error_reply(404, msg.as_str())
}

/// 404 for a step of a run without a record:
/// `{"error":"step '<step>' not found for run '<run>'"  }`.
pub fn missing_step_reply(run_id: &str, step_name: &str) -> (r: (u16, String))
    ensures
        r.0 == 404,
        r.1@ == output_reply(run_id@, step_name@, None).1,
{
    step_output_reply(run_id, step_name, &None)
}

/// The answer to a request to start a run: the earlier run with the same
/// idempotency key (200), or the new run (201).
pub fn start_reply(r: &crate::workflow_run::RunStart) -> (a: (u16, String))
    ensures
        r matches crate::workflow_run::RunStart::Existing(id) ==> a.0 == 200
            && a.1@ == "{\"run_id\":\""@ + id@ + "\",\"existing\":true}"@,
        r matches crate::workflow_run::RunStart::Created(run, _) ==> a.0 == 201
            && a.1@ == "{\"run_id\":\""@ + run.run_id@ + "\"}"@,
{
    let mut v: Vec<char> = Vec::new();
    push_str(&mut v, "{\"run_id\":\"");
    match r {
        crate::workflow_run::RunStart::Existing(id) => {
            push_str(&mut v, id.as_str());
            push_str(&mut v, "\",\"existing\":true}");
            proof {
                assert(v@ =~= "{\"run_id\":\""@ + id@ + "\",\"existing\":true}"@);
            }
            (200, string_from_chars(v.as_slice()))
        },
        crate::workflow_run::RunStart::Created(run, _) => {
            push_str(&mut v, run.run_id.as_str());
            push_str(&mut v, "\"}");
            proof {
                assert(v@ =~= "{\"run_id\":\""@ + run.run_id@ + "\"}"@);
            }
            (201, string_from_chars(v.as_slice()))
        },
    }
}

/// The answer to registering `def` when it breaks a rule: 400 with the
/// complaint of `validate_workflow`; `None` when it is valid.
pub fn validation_reply(def: &crate::workflow::WorkflowDef) -> (r: Option<(u16, String)>)
    ensures
        r is None <==> (crate::workflow::validation_fault(*def) is None && !crate::workflow::has_cycle(def.steps@)),
        crate::workflow::validation_fault(*def) matches Some(m) ==> (r matches Some(x) && x.0 == 400 && x.1@ == error_json(m)),
{
    match crate::workflow::validate_workflow(def) {
        Ok(()) => None,
        Err(msg) => Some(error_reply(400, msg.as_str())),
    }
}

/// The answer once a valid definition named `name` was stored (or failed to
/// be, with `put`'s error): 201 `{"name":"<name>","created":true}`, or 500.
pub fn stored_reply(name: &str, put: &Result<(), String>) -> (r: (u16, String))
    ensures
        put is Ok ==> r.0 == 201 && r.1@ == "{\"name\":\""@ + name@ + "\",\"created\":true}"@,
        put matches Err(e) ==> r.0 == 500 && r.1@ == error_json(e@),
{
    match put {
        Err(e) => error_reply(500, e.as_str()),
        Ok(()) => {
            let mut v: Vec<char> = Vec::new();
            push_str(&mut v, "{\"name\":\"");
            push_str(&mut v, name);
            push_str(&mut v, "\",\"created\":true}");
            proof {
                assert(v@ =~= "{\"name\":\""@ + name@ + "\",\"created\":true}"@);
            }
            (201, string_from_chars(v.as_slice()))
        },
    }
}

} // verus!
