//! The key-value layout of the workflow store: the key of each record, the
//! names listed under a key prefix (sorted), and the pages of a listing.
use vstd::prelude::*;
use crate::store::views;
use crate::strings::{has_prefix, piece_views, sorted_strs};

verus! {

/// `prefix` followed by `name`.
fn joined(prefix: &str, name: &str) -> (r: String)
    ensures
        r@ == prefix@ + name@,
{
    let mut v: Vec<char> = Vec::new();
    crate::text::push_str(&mut v, prefix);
    crate::text::push_str(&mut v, name);
    crate::text::string_from_chars(v.as_slice())
}

/// `prefix`, `a`, `.` and `b`.
fn joined2(prefix: &str, a: &str, b: &str) -> (r: String)
    ensures
        r@ == prefix@ + a@ + "."@ + b@,
{
    let mut v: Vec<char> = Vec::new();
    crate::text::push_str(&mut v, prefix);
    crate::text::push_str(&mut v, a);
    crate::text::push_str(&mut v, ".");
    crate::text::push_str(&mut v, b);
    proof {
        assert(v@ =~= prefix@ + a@ + "."@ + b@);
    }
    crate::text::string_from_chars(v.as_slice())
}

/// The key of workflow definition `name`: `wf-def.<name>`.
pub fn def_key(name: &str) -> (r: String)
    ensures
        r@ == "wf-def."@ + name@,
{
    joined("wf-def.", name)
}

/// The key of run `run_id`: `wf-run.<run_id>`.
pub fn run_key(run_id: &str) -> (r: String)
    ensures
        r@ == "wf-run."@ + run_id@,
{
    joined("wf-run.", run_id)
}

/// The key of step `step_name` of run `run_id`: `step.<run_id>.<step_name>`.
pub fn step_key(run_id: &str, step_name: &str) -> (r: String)
    ensures
        r@ == "step."@ + run_id@ + "."@ + step_name@,
{
    joined2("step.", run_id, step_name)
}

/// The key of the subscribers of event `event_name`: `evt.<event_name>`.
pub fn event_key(event_name: &str) -> (r: String)
    ensures
        r@ == "evt."@ + event_name@,
{
    joined("evt.", event_name)
}

/// The key of the child run linked to step `step_name` of run `parent_run_id`:
/// `sub-run.<parent_run_id>.<step_name>`.
pub fn sub_run_key(parent_run_id: &str, step_name: &str) -> (r: String)
    ensures
        r@ == "sub-run."@ + parent_run_id@ + "."@ + step_name@,
{
    joined2("sub-run.", parent_run_id, step_name)
}

/// The prefix of the step keys of run `run_id`: `step.<run_id>.`.
pub fn step_prefix(run_id: &str) -> (r: String)
    ensures
        r@ == "step."@ + run_id@ + "."@,
{
    let mut v: Vec<char> = Vec::new();
    crate::text::push_str(&mut v, "step.");
    crate::text::push_str(&mut v, run_id);
    crate::text::push_str(&mut v, ".");
    crate::text::string_from_chars(v.as_slice())
}

/// What follows `prefix` in each of `keys` that starts with it, in order.
pub open spec fn stripped(keys: Seq<Seq<char>>, prefix: Seq<char>) -> Seq<Seq<char>>
    decreases keys.len(),
{
    if keys.len() == 0 {
        Seq::empty()
    } else {
        let k = keys.last();
        stripped(keys.drop_last(), prefix) + if has_prefix(k, prefix) {
            seq![k.skip(prefix.len() as int)]
        } else {
            Seq::<Seq<char>>::empty()
        }
    }
}

/// The names under `prefix` among `keys`, sorted by code point.
pub fn names_under(keys: &Vec<String>, prefix: &str) -> (r: Vec<String>)
    ensures
        sorted_strs(views(r@)),
        views(r@).to_multiset() == stripped(views(keys@), prefix@).to_multiset(),
{
    let p = crate::text::chars_of(prefix);
    let mut found: Vec<Vec<char>> = Vec::new();
    let mut i: usize = 0;
    proof {
        assert(views(keys@).take(0) =~= Seq::<Seq<char>>::empty());
        assert(piece_views(found@) =~= Seq::<Seq<char>>::empty());
    }
    while i < keys.len()
        invariant
            i <= keys@.len(),
            p@ == prefix@,
            piece_views(found@) == stripped(views(keys@).take(i as int), prefix@),
        decreases keys@.len() - i,
    {
        let k = crate::text::chars_of(keys[i].as_str());
        proof {
            assert(views(keys@).take(i + 1).drop_last() =~= views(keys@).take(i as int));
            assert(views(keys@).take(i + 1).last() == keys@[i as int]@);
        }
        if crate::strings::starts_with(&k, &p) {
            let rest = crate::text::slice_vec(&k, p.len(), k.len());
            let ghost before = piece_views(found@);
            found.push(rest);
            proof {
                assert(piece_views(found@) =~= before.push(k@.skip(prefix@.len() as int)));
            }
        } else {
            proof {
                assert(piece_views(found@) =~= piece_views(found@) + Seq::<Seq<char>>::empty());
            }
        }
        i = i + 1;
    }
    proof {
        assert(views(keys@).take(keys@.len() as int) =~= views(keys@));
    }
    let sorted = crate::strings::sort_pieces(found);
    let mut out: Vec<String> = Vec::new();
    let mut j: usize = 0;
    while j < sorted.len()
        invariant
            j <= sorted@.len(),
            views(out@) == piece_views(sorted@).take(j as int),
        decreases sorted@.len() - j,
    {
        let ghost before = views(out@);
        out.push(crate::text::string_from_chars(sorted[j].as_slice()));
        proof {
            assert(views(out@) =~= before.push(sorted@[j as int]@));
            assert(piece_views(sorted@).take(j + 1) =~= piece_views(sorted@).take(j as int).push(sorted@[j as int]@));
        }
        j = j + 1;
    }
    proof {
        assert(piece_views(sorted@).take(sorted@.len() as int) =~= piece_views(sorted@));
    }
    out
}

/// The size of a page: `limit`, or 50 when it is 0.
pub open spec fn page_size(limit: u32) -> int {
    if limit == 0 {
        50
    } else {
        limit as int
    }
}

/// Where page `page` starts (pages count from 1; 0 counts as 1).
pub open spec fn page_start(page: u32, limit: u32) -> int {
    ((if page < 1 { 1 } else { page }) - 1) * page_size(limit)
}

/// Page `page` of `s`.
pub open spec fn page_of_seq<A>(s: Seq<A>, page: u32, limit: u32) -> Seq<A> {
    let start = page_start(page, limit);
    if start >= s.len() {
        Seq::empty()
    } else if start + page_size(limit) >= s.len() {
        s.skip(start)
    } else {
        s.subrange(start, start + page_size(limit))
    }
}

/// Page `page` (from 1) of `limit` names (50 when 0) out of `names`.
pub fn page_of(names: Vec<String>, page: u32, limit: u32) -> (r: Vec<String>)
    requires
        page_start(page, limit) <= usize::MAX,
    ensures
        r@ == page_of_seq(names@, page, limit),
{
    let size: usize = if limit == 0 { 50 } else { limit as usize };
    let p: u32 = if page < 1 { 1 } else { page };
    proof {
        assert((p - 1) * size == page_start(page, limit));
        assert(0 <= (p - 1) * size) by (nonlinear_arith)
            requires
                p >= 1,
        ;
    }
    let start: usize = ((p - 1) as usize) * size;
    let mut out: Vec<String> = Vec::new();
    if start >= names.len() {
        proof {
            assert(out@ =~= page_of_seq(names@, page, limit));
        }
        return out;
    }
    let n = names.len();
    let end: usize = if n - start <= size { n } else { start + size };
    let mut i: usize = start;
    let mut src = names;
    let ghost all = src@;
    while i < end
        invariant
            src@ == all,
            start <= i <= end <= all.len(),
            out@ == all.subrange(start as int, i as int),
        decreases end - i,
    {
        let ghost before = out@;
        out.push(src[i].clone());
        proof {
            assert(out@ =~= all.subrange(start as int, i + 1));
        }
        i = i + 1;
    }
    proof {
        if start + size >= all.len() {
            assert(out@ =~= all.skip(start as int));
        }
    }
    out
}

} // verus!
