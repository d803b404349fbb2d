//! The workflow API's handlers that answer from the store alone: workflow
//! definitions, runs, event subscriptions and the test reset.  Each takes the
//! store as a `StoreBackend`, which every deployment implements for itself,
//! so what a handler answers is stated for every answer the store may give.
use vstd::prelude::*;
use crate::store::views;
use crate::text::{dec, lossy};

verus! {

/// The persistence the workflow API runs on; each deployment supplies its
/// own (a key-value store in production, memory in tests).
pub trait StoreBackend {
    fn put_workflow_def(&self, name: &str, json: &[u8]) -> Result<(), String>;

    fn get_workflow_def(&self, name: &str) -> Option<Vec<u8>>;

    fn delete_workflow_def(&self, name: &str);

    fn list_workflow_names(&self, page: u32, limit: u32) -> Vec<String>;

    fn put_run(&self, run_id: &str, json: &[u8]) -> Result<(), String>;

    fn get_run(&self, run_id: &str) -> Option<Vec<u8>>;

    fn list_runs(&self, wf_name: &str, state_filter: Option<&str>, page: u32, limit: u32) -> Vec<Vec<u8>>;

    fn put_step(&self, run_id: &str, step_name: &str, json: &[u8]) -> Result<(), String>;

    fn get_step(&self, run_id: &str, step_name: &str) -> Option<Vec<u8>>;

    fn list_step_names(&self, run_id: &str) -> Vec<String>;

    fn put_event_subs(&self, event_name: &str, subs: Vec<String>);

    fn get_event_subs(&self, event_name: &str) -> Vec<String>;

    fn list_event_names(&self) -> Vec<String>;

    fn put_sub_run_link(&self, parent_run_id: &str, step_name: &str, child_run_id: &str);

    fn get_sub_run_link(&self, parent_run_id: &str, step_name: &str) -> Option<String>;
}

// ── JSON text ───────────────────────────────────────────────────────────────

/// `"n"` for each name, joined by `,`.
pub open spec fn quoted_list(names: Seq<Seq<char>>) -> Seq<char>
    decreases names.len(),
{
    if names.len() == 0 {
        Seq::empty()
    } else if names.len() == 1 {
        "\""@ + names[0] + "\""@
    } else {
        quoted_list(names.drop_last()) + ",\""@ + names.last() + "\""@
    }
}

/// A JSON array of the names.
pub open spec fn json_array(names: Seq<Seq<char>>) -> Seq<char> {
    "["@ + quoted_list(names) + "]"@
}

/// `{"error":"<msg>"}`.
pub open spec fn error_json(msg: Seq<char>) -> Seq<char> {
    "{\"error\":\""@ + msg + "\"}"@
}

/// One page of names: the names, the total count, the page and its size.
pub open spec fn page_json(names: Seq<Seq<char>>, total: nat, page: nat, limit: nat) -> Seq<char> {
    "{\"items\":["@ + quoted_list(names) + "],\"total\":"@ + dec(total) + ",\"page\":"@ + dec(page)
        + ",\"limit\":"@ + dec(limit) + "}"@
}

/// Append `quoted_list` of `names` to `v`.
fn push_quoted_list(v: &mut Vec<char>, names: &Vec<String>)
    ensures
        final(v)@ == old(v)@ + quoted_list(views(names@)),
{
    let ghost v0 = v@;
    let mut i: usize = 0;
    proof {
        assert(views(names@).take(0) =~= Seq::<Seq<char>>::empty());
        assert(v@ =~= v0 + quoted_list(views(names@).take(0)));
    }
    while i < names.len()
        invariant
            i <= names@.len(),
            v@ == v0 + quoted_list(views(names@).take(i as int)),
        decreases names@.len() - i,
    {
        let ghost t = views(names@).take(i + 1);
        proof {
            assert(t.drop_last() =~= views(names@).take(i as int));
            assert(t.last() == names@[i as int]@);
        }
        if i == 0 {
            crate::text::push_str(v, "\"");
        } else {
            crate::text::push_str(v, ",\"");
        }
        crate::text::push_str(v, names[i].as_str());
        crate::text::push_str(v, "\"");
        proof {
            if i == 0 {
                assert(t.len() == 1 && t[0] == names@[0]@);
            }
            assert(v@ =~= v0 + quoted_list(t));
        }
        i = i + 1;
    }
    proof {
        assert(views(names@).take(names@.len() as int) =~= views(names@));
    }
}

/// A JSON array of `names`.
pub fn name_array(names: &Vec<String>) -> (r: String)
    ensures
        r@ == json_array(views(names@)),
{
    let mut v: Vec<char> = Vec::new();
    crate::text::push_str(&mut v, "[");
    push_quoted_list(&mut v, names);
    crate::text::push_str(&mut v, "]");
    proof {
        assert(v@ =~= json_array(views(names@)));
    }
    crate::text::string_from_chars(v.as_slice())
}

/// `{"error":"<msg>"}` for `msg`.
fn error_body(msg: &str) -> (r: String)
    ensures
        r@ == error_json(msg@),
{
    let mut v: Vec<char> = Vec::new();
    crate::text::push_str(&mut v, "{\"error\":\"");
    crate::text::push_str(&mut v, msg);
    crate::text::push_str(&mut v, "\"}");
    proof {
        assert(v@ =~= error_json(msg@));
    }
    crate::text::string_from_chars(v.as_slice())
}

/// One page of `names` out of `total`.
pub fn page_body(names: &Vec<String>, total: u64, page: u32, limit: u32) -> (r: String)
    ensures
        r@ == page_json(views(names@), total as nat, page as nat, limit as nat),
{
    let mut v: Vec<char> = Vec::new();
    crate::text::push_str(&mut v, "{\"items\":[");
    push_quoted_list(&mut v, names);
    crate::text::push_str(&mut v, "],\"total\":");
    crate::text::push_chars(&mut v, &crate::text::u64_to_dec(total));
    crate::text::push_str(&mut v, ",\"page\":");
    crate::text::push_chars(&mut v, &crate::text::u64_to_dec(page as u64));
    crate::text::push_str(&mut v, ",\"limit\":");
    crate::text::push_chars(&mut v, &crate::text::u64_to_dec(limit as u64));
    crate::text::push_str(&mut v, "}");
    proof {
        assert(v@ =~= page_json(views(names@), total as nat, page as nat, limit as nat));
    }
    crate::text::string_from_chars(v.as_slice())
}

// ── Workflow definitions and runs ───────────────────────────────────────────

/// The page number asked for: at least 1 (as a `u32`).
pub open spec fn page_no(page: usize) -> u32 {
    (if page < 1 { 1 } else { page }) as u32
}

/// The page size asked for: 50 when 0 is given (as a `u32`).
pub open spec fn limit_no(limit: usize) -> u32 {
    if limit == 0 {
        50
    } else {
        limit as u32
    }
}

/// List the workflow names: the total count over all pages, then the names of
/// page `page` (at least 1) of `limit` names (50 when 0), as the store gives them.
pub fn handle_list_workflows(page: usize, limit: usize, store: &dyn StoreBackend) -> (r: (u16, String))
    ensures
        r.0 == 200,
        exists|names: Seq<Seq<char>>, total: u64| #[trigger] page_json(names, total as nat, page_no(page) as nat, limit_no(limit) as nat) == r.1@,
{
    let page_u32 = (if page < 1 { 1 } else { page }) as u32;
    let effective_limit: u32 = if limit == 0 { 50 } else { limit as u32 };
    let all_names = store.list_workflow_names(1, u32::MAX);
    let total = all_names.len() as u64;
    let names = store.list_workflow_names(page_u32, effective_limit);
    let body = page_body(&names, total, page_u32, effective_limit);
    proof {
        assert(page_json(views(names@), total as nat, page_no(page) as nat, limit_no(limit) as nat) == body@);
    }
    (200, body)
}

/// The answer to a lookup of `kind` `id`: the stored JSON (decoded lossily),
/// or 404 with an error naming it.
pub open spec fn lookup_reply(found: Option<Seq<u8>>, kind: Seq<char>, id: Seq<char>) -> (u16, Seq<char>) {
    match found {
        Some(b) => (200, lossy(b)),
        None => (404, error_json(kind + " '"@ + id + "' not found"@)),
    }
}

/// The answer to a lookup of `kind` `id` that found `found`.
pub fn lookup_answer(found: Option<Vec<u8>>, kind: &str, id: &str) -> (r: (u16, String))
    ensures
        (r.0, r.1@) == lookup_reply(crate::text::opt_bytes(found), kind@, id@),
{
    match found {
        Some(v) => (200, crate::text::from_utf8_lossy(v.as_slice())),
        None => {
            let mut m: Vec<char> = Vec::new();
            crate::text::push_str(&mut m, kind);
            crate::text::push_str(&mut m, " '");
            crate::text::push_str(&mut m, id);
            crate::text::push_str(&mut m, "' not found");
            let ms = crate::text::string_from_chars(m.as_slice());
            proof {
                assert(ms@ =~= kind@ + " '"@ + id@ + "' not found"@);
            }
            (404, error_body(ms.as_str()))
        },
    }
}

/// The stored definition of workflow `name`, or 404.
pub fn handle_get_workflow(name: &str, store: &dyn StoreBackend) -> (r: (u16, String))
    ensures
        exists|found: Option<Seq<u8>>| #[trigger] lookup_reply(found, "workflow"@, name@) == (r.0, r.1@),
{
    let found = store.get_workflow_def(name);
    let ghost f = crate::text::opt_bytes(found);
    let r = lookup_answer(found, "workflow", name);
    proof {
        assert(lookup_reply(f, "workflow"@, name@) == (r.0, r.1@));
    }
    r
}

/// Delete workflow `name`; answered with 204 and no body.
pub fn handle_delete_workflow(name: &str, store: &dyn StoreBackend) -> (r: (u16, String))
    ensures
        r.0 == 204 && r.1@.len() == 0,
{
    store.delete_workflow_def(name);
    (204, String::new())
}

/// The stored record of run `run_id`, or 404.
pub fn handle_get_run(run_id: &str, store: &dyn StoreBackend) -> (r: (u16, String))
    ensures
        exists|found: Option<Seq<u8>>| #[trigger] lookup_reply(found, "run"@, run_id@) == (r.0, r.1@),
{
    let found = store.get_run(run_id);
    let ghost f = crate::text::opt_bytes(found);
    let r = lookup_answer(found, "run", run_id);
    proof {
        assert(lookup_reply(f, "run"@, run_id@) == (r.0, r.1@));
    }
    r
}

// ── Events ──────────────────────────────────────────────────────────────────

/// The subscriber list after `fn_name` subscribes to a list `subs`: `None`
/// when it is already there (nothing to write), else the list with it added.
pub fn with_subscriber(subs: Vec<String>, fn_name: &String) -> (r: Option<Vec<String>>)
    ensures
        views(subs@).contains(fn_name@) ==> r is None,
        !views(subs@).contains(fn_name@) ==> (r matches Some(v) && views(v@) == views(subs@).push(fn_name@)),
{
    let mut i: usize = 0;
    while i < subs.len()
        invariant
            i <= subs@.len(),
            forall|q: int| 0 <= q < i ==> subs@[q]@ != fn_name@,
        decreases subs@.len() - i,
    {
        if subs[i] == *fn_name {
            proof {
                assert(views(subs@)[i as int] == fn_name@);
            }
            return None;
        }
        i = i + 1;
    }
    proof {
        assert forall|q: int| 0 <= q < views(subs@).len() implies views(subs@)[q] != fn_name@ by {
            assert(views(subs@)[q] == subs@[q]@);
        }
    }
    let mut v = subs;
    let ghost before = views(v@);
    v.push(fn_name.clone());
    proof {
        assert(views(v@) =~= before.push(fn_name@));
    }
    Some(v)
}

/// `s` without the elements equal to `x`.
pub open spec fn without(s: Seq<Seq<char>>, x: Seq<char>) -> Seq<Seq<char>>
    decreases s.len(),
{
    if s.len() == 0 {
        Seq::empty()
    } else {
        without(s.drop_last(), x) + if s.last() == x {
            Seq::<Seq<char>>::empty()
        } else {
            seq![s.last()]
        }
    }
}

/// `subs` without `fn_name`.
pub fn without_subscriber(subs: &Vec<String>, fn_name: &str) -> (r: Vec<String>)
    ensures
        views(r@) == without(views(subs@), fn_name@),
{
    let target = crate::text::owned(fn_name);
    let mut out: Vec<String> = Vec::new();
    let mut i: usize = 0;
    proof {
        assert(views(subs@).take(0) =~= Seq::<Seq<char>>::empty());
        assert(views(out@) =~= Seq::<Seq<char>>::empty());
    }
    while i < subs.len()
        invariant
            i <= subs@.len(),
            target@ == fn_name@,
            views(out@) == without(views(subs@).take(i as int), fn_name@),
        decreases subs@.len() - i,
    {
        proof {
            assert(views(subs@).take(i + 1).drop_last() =~= views(subs@).take(i as int));
            assert(views(subs@).take(i + 1).last() == subs@[i as int]@);
        }
        if subs[i] != target {
            let ghost before = views(out@);
            out.push(subs[i].clone());
            proof {
                assert(views(out@) =~= before + seq![subs@[i as int]@]);
            }
        } else {
            proof {
                assert(views(out@) =~= views(out@) + Seq::<Seq<char>>::empty());
            }
        }
        i = i + 1;
    }
    proof {
        assert(views(subs@).take(subs@.len() as int) =~= views(subs@));
    }
    out
}

/// Subscribe function `fn_name` (read from the request body; `Err` carries
/// why the body could not be read) to event `event_name`.
pub fn handle_event_subscribe(event_name: &str, fn_name: Result<String, String>, store: &dyn StoreBackend) -> (r: (u16, String))
    ensures
        fn_name matches Err(e) ==> r.0 == 400 && r.1@ == error_json(e@),
        fn_name is Ok ==> r.0 == 204 && r.1@.len() == 0,
{
    let f = match fn_name {
        Ok(f) => f,
        Err(e) => return (400, error_body(e.as_str())),
    };
    let subs = store.get_event_subs(event_name);
    match with_subscriber(subs, &f) {
        Some(v) => store.put_event_subs(event_name, v),
        None => {},
    }
    (204, String::new())
}

/// Unsubscribe function `fn_name` from event `event_name`.
pub fn handle_event_unsubscribe(event_name: &str, fn_name: &str, store: &dyn StoreBackend) -> (r: (u16, String))
    ensures
        r.0 == 204 && r.1@.len() == 0,
{
    let subs = store.get_event_subs(event_name);
    let kept = without_subscriber(&subs, fn_name);
    store.put_event_subs(event_name, kept);
    (204, String::new())
}

/// Emit event `event_name`: the functions subscribed to it, as a JSON array.
pub fn handle_event_emit(event_name: &str, _body: &[u8], _content_type: &str, store: &dyn StoreBackend) -> (r: (u16, String))
    ensures
        r.0 == 200,
        exists|names: Seq<Seq<char>>| #[trigger] json_array(names) == r.1@,
{
    let subs = store.get_event_subs(event_name);
    let body = name_array(&subs);
    proof {
        assert(json_array(views(subs@)) == body@);
    }
    (200, body)
}

/// The names of the events with subscriptions, as a JSON array.
pub fn handle_list_events(store: &dyn StoreBackend) -> (r: (u16, String))
    ensures
        r.0 == 200,
        exists|names: Seq<Seq<char>>| #[trigger] json_array(names) == r.1@,
{
    let names = store.list_event_names();
    let body = name_array(&names);
    proof {
        assert(json_array(views(names@)) == body@);
    }
    (200, body)
}

/// Delete every workflow definition and clear every event's subscribers;
/// runs, steps and sub-run links cannot be listed and stay.
pub fn handle_reset(store: &dyn StoreBackend) -> (r: (u16, String))
    ensures
        r.0 == 204 && r.1@.len() == 0,
{
    let wf_names = store.list_workflow_names(1, u32::MAX);
    let mut i: usize = 0;
    while i < wf_names.len()
        invariant
            i <= wf_names@.len(),
        decreases wf_names@.len() - i,
    {
        store.delete_workflow_def(wf_names[i].as_str());
        i = i + 1;
    }
    let all_events = store.list_event_names();
    let mut j: usize = 0;
    while j < all_events.len()
        invariant
            j <= all_events@.len(),
        decreases all_events@.len() - j,
    {
        store.put_event_subs(all_events[j].as_str(), Vec::new());
        j = j + 1;
    }
    (204, String::new())
}

} // verus!
