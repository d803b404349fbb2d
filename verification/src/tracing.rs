//! Spans: named intervals with a parent, tags and a stack of open spans.
use vstd::prelude::*;
use crate::store::{KeyedStore, keys_where, lemma_keys_where, lemma_keys_where_step, views};
use crate::text::{trim, opt_view};

verus! {

/// A span of work.
#[derive(Debug, Clone)]
pub struct Span {
    pub id: String,
    pub parent_id: Option<String>,
    pub name: String,
    pub started_ms: u64,
    pub ended_ms: Option<u64>,
    pub tags: Vec<(String, String)>,
}

/// Errors of the tracer.
#[derive(Debug, Clone, Copy, PartialEq, Eq, Structural)]
pub enum TracingError {
    InvalidSpanId,
    NotFound,
    InvalidName,
}

/// The characters of a list of tag pairs.
pub open spec fn tag_views(t: Seq<(String, String)>) -> Seq<(Seq<char>, Seq<char>)> {
    t.map_values(|p: (String, String)| (p.0@, p.1@))
}

/// Whether two spans hold the same values.
pub open spec fn same_span(a: Span, b: Span) -> bool {
    &&& a.id@ == b.id@
    &&& opt_view(a.parent_id) == opt_view(b.parent_id)
    &&& a.name@ == b.name@
    &&& a.started_ms == b.started_ms
    &&& a.ended_ms == b.ended_ms
    &&& tag_views(a.tags@) == tag_views(b.tags@)
}

/// The id given to the span started with counter value `n`: `span-` and 16 hex digits.
pub open spec fn span_id(n: u64) -> Seq<char> {
    seq!['s', 'p', 'a', 'n', '-'] + crate::text::hex_digits(n as nat, 16)
}

/// Whether a span is still open.
pub open spec fn is_open(s: Span) -> bool {
    s.ended_ms is None
}

/// Every span by id, the stack of open span ids, and the next id counter.
pub struct TracingState {
    pub spans: KeyedStore<Span>,
    pub stack: Vec<String>,
    pub counter: u64,
}

impl TracingState {
    /// The spans are stored under their own ids, each given out for a
    /// counter value below the current one.
    pub open spec fn wf(&self) -> bool {
        &&& self.spans.wf()
        &&& forall|k: Seq<char>| #[trigger] self.spans@.contains_key(k) ==> self.spans@[k].id@ == k
        &&& self.issued()
    }

    /// Every stored span id was given out for a counter value below the
    /// current one.
    pub open spec fn issued(&self) -> bool {
        forall|k: Seq<char>| #[trigger] self.spans@.contains_key(k) ==> exists|c: u64| c < self.counter && k == #[trigger] span_id(c)
    }

    /// No spans, an empty stack, and the counter at 1.
    pub fn new() -> (r: Self)
        ensures
            r.wf(),
            r.spans@ == Map::<Seq<char>, Span>::empty(),
            r.stack@.len() == 0,
            r.counter == 1,
    {
        TracingState { spans: KeyedStore::new(), stack: Vec::new(), counter: 1 }
    }
}

/// A copy of the tag pairs.
fn copy_tags(t: &Vec<(String, String)>) -> (r: Vec<(String, String)>)
    ensures
        tag_views(r@) == tag_views(t@),
{
    let mut r: Vec<(String, String)> = Vec::new();
    let mut i: usize = 0;
    while i < t.len()
        invariant
            i <= t@.len(),
            tag_views(r@) == tag_views(t@.take(i as int)),
        decreases t@.len() - i,
    {
        let a = t[i].0.clone();
        let b = t[i].1.clone();
        let ghost before = r@;
        r.push((a, b));
        proof {
            assert(tag_views(r@) =~= tag_views(before).push((t@[i as int].0@, t@[i as int].1@)));
            assert(t@.take(i + 1) =~= t@.take(i as int).push(t@[i as int]));
            assert(tag_views(r@) =~= tag_views(t@.take(i + 1)));
        }
        i = i + 1;
    }
    assert(t@.take(t@.len() as int) =~= t@);
    r
}

/// A copy of a span.
fn copy_span(s: &Span) -> (r: Span)
    ensures
        same_span(r, *s),
{
    Span {
        id: s.id.clone(),
        parent_id: crate::text::copy_opt_string(&s.parent_id),
        name: s.name.clone(),
        started_ms: s.started_ms,
        ended_ms: s.ended_ms,
        tags: copy_tags(&s.tags),
    }
}

/// The id that the next started span gets.
fn next_span_id(state: &mut TracingState) -> (r: String)
    ensures
        r@ == span_id(old(state).counter),
        final(state).counter == old(state).counter.wrapping_add(1),
        final(state).spans == old(state).spans,
        final(state).stack == old(state).stack,
{
    let n = state.counter;
    state.counter = n.wrapping_add(1);
    let mut v: Vec<char> = Vec::new();
    crate::text::push_str(&mut v, "span-");
    let hex = crate::text::u64_to_hex(n, 16);
    crate::text::push_chars(&mut v, &hex);
    proof {
        reveal_strlit("span-");
        assert(v@ =~= span_id(n));
    }
    crate::text::string_from_chars(v.as_slice())
}

/// Start a span named `name` under `parent_id`; it becomes the current span.
/// A new span needs an unused counter value: the counter must be below
/// `u64::MAX`, else it wraps and later spans get ids already given out.
pub fn start_span(state: &mut TracingState, name: &str, parent_id: Option<String>, now_ms: u64) -> (r: Result<String, TracingError>)
    requires
        old(state).wf(),
        trim(name@).len() != 0 && !(parent_id matches Some(p) && trim(p@).len() == 0) ==> old(state).counter < u64::MAX,
    ensures
        final(state).wf(),
        trim(name@).len() == 0 ==> r == Err::<String, TracingError>(TracingError::InvalidName),
        trim(name@).len() != 0 && (parent_id matches Some(p) && trim(p@).len() == 0)
            ==> r == Err::<String, TracingError>(TracingError::InvalidSpanId),
        r is Err ==> final(state).spans@ == old(state).spans@ && final(state).stack@ == old(state).stack@
            && final(state).counter == old(state).counter,
        trim(name@).len() != 0 && !(parent_id matches Some(p) && trim(p@).len() == 0) ==> {
            &&& r matches Ok(id) && id@ == span_id(old(state).counter)
            &&& final(state).counter == old(state).counter.wrapping_add(1)
            &&& final(state).spans@.dom() == old(state).spans@.dom().insert(span_id(old(state).counter))
            &&& forall|k: Seq<char>| k != span_id(old(state).counter) && #[trigger] old(state).spans@.contains_key(k)
                ==> final(state).spans@[k] == old(state).spans@[k]
            &&& ({
                let s = final(state).spans@[span_id(old(state).counter)];
                &&& s.id@ == span_id(old(state).counter)
                &&& opt_view(s.parent_id) == opt_view(parent_id)
                &&& s.name@ == name@
                &&& s.started_ms == now_ms
                &&& s.ended_ms is None
                &&& s.tags@.len() == 0
            })
            &&& views(final(state).stack@) == views(old(state).stack@).push(span_id(old(state).counter))
        },
{
    if crate::text::is_blank(name) {
        return Err(TracingError::InvalidName);
    }
    if let Some(ref pid) = parent_id {
        if crate::text::is_blank(pid.as_str()) {
            return Err(TracingError::InvalidSpanId);
        }
    }
    let id = next_span_id(state);
    let span = Span {
        id: id.clone(),
        parent_id,
        name: crate::text::owned(name),
        started_ms: now_ms,
        ended_ms: None,
        tags: Vec::new(),
    };
    let ghost st0 = views(state.stack@);
    state.spans.insert(id.clone(), span);
    state.stack.push(id.clone());
    proof {
        assert(views(state.stack@) =~= st0.push(id@));
        {
            assert forall|k: Seq<char>| #[trigger] state.spans@.contains_key(k) implies exists|c: u64| c < state.counter
                && k == #[trigger] span_id(c) by {
                if k == id@ {
                    assert(old(state).counter < state.counter && k == span_id(old(state).counter));
                } else {
                    assert(old(state).spans@.contains_key(k));
                    let c = choose|c: u64| c < old(state).counter && k == #[trigger] span_id(c);
                    assert(c < state.counter && k == span_id(c));
                }
            }
        }
    }
    Ok(id)
}

/// The position of the span `id` in the store.
fn find_span(state: &TracingState, span_id: &str) -> (r: Option<usize>)
    requires
        state.wf(),
    ensures
        r is None ==> !state.spans@.contains_key(span_id@),
        r matches Some(i) ==> i < state.spans.entries().len() && state.spans.entries()[i as int].0@ == span_id@
            && state.spans@.contains_key(span_id@) && state.spans@[span_id@] == state.spans.entries()[i as int].1,
{
    let k = crate::text::owned(span_id);
    state.spans.find(&k)
}

/// `stack` without the entries equal to `id`.
fn without(stack: &Vec<String>, id: &str) -> (r: Vec<String>)
    ensures
        views(r@) == views(stack@).filter(|x: Seq<char>| x != id@),
{
    let ghost p = |x: Seq<char>| x != id@;
    let k = crate::text::owned(id);
    let mut r: Vec<String> = Vec::new();
    let mut i: usize = 0;
    proof {
        assert(views(stack@).take(0) =~= Seq::<Seq<char>>::empty());
        reveal(Seq::filter);
        assert(views(r@) =~= views(stack@).take(0).filter(p));
    }
    while i < stack.len()
        invariant
            i <= stack@.len(),
            k@ == id@,
            p == (|x: Seq<char>| x != id@),
            views(r@) == views(stack@).take(i as int).filter(p),
        decreases stack@.len() - i,
    {
        proof {
            assert(views(stack@).take(i + 1) =~= views(stack@).take(i as int).push(stack@[i as int]@));
            views(stack@).take(i as int).lemma_filter_push(stack@[i as int]@, p);
        }
        if stack[i] != k {
            let ghost before = views(r@);
            r.push(stack[i].clone());
            proof {
                assert(views(r@) =~= before.push(stack@[i as int]@));
            }
        }
        i = i + 1;
    }
    assert(views(stack@).take(stack@.len() as int) =~= views(stack@));
    r
}

/// End the span `span_id` at `now_ms` and take it off the stack.
pub fn end_span(state: &mut TracingState, span_id: &str, now_ms: u64) -> (r: Result<(), TracingError>)
    requires
        old(state).wf(),
    ensures
        final(state).wf(),
        final(state).counter == old(state).counter,
        trim(span_id@).len() == 0 ==> r == Err::<(), TracingError>(TracingError::InvalidSpanId),
        trim(span_id@).len() != 0 && !old(state).spans@.contains_key(span_id@) ==> r == Err::<(), TracingError>(TracingError::NotFound),
        r is Err ==> final(state).spans@ == old(state).spans@ && final(state).stack@ == old(state).stack@,
        trim(span_id@).len() != 0 && old(state).spans@.contains_key(span_id@) ==> {
            let before = old(state).spans@[span_id@];
            &&& r is Ok
            &&& final(state).spans@.dom() == old(state).spans@.dom()
            &&& forall|k: Seq<char>| k != span_id@ && #[trigger] old(state).spans@.contains_key(k)
                ==> final(state).spans@[k] == old(state).spans@[k]
            &&& final(state).spans@[span_id@] == (Span { ended_ms: Some(now_ms), ..before })
            &&& views(final(state).stack@) == views(old(state).stack@).filter(|x: Seq<char>| x != span_id@)
        },
{
    if crate::text::is_blank(span_id) {
        return Err(TracingError::InvalidSpanId);
    }
    let i = match find_span(state, span_id) {
        Some(i) => i,
        None => return Err(TracingError::NotFound),
    };
    let (key, mut span) = state.spans.take_at(i);
    span.ended_ms = Some(now_ms);
    state.spans.restore_at(i, key, span);
    state.stack = without(&state.stack, span_id);
    Ok(())
}

/// The id of the current span: the top of the stack.
pub fn current_span_id(state: &TracingState) -> (r: Result<Option<String>, TracingError>)
    ensures
        r matches Ok(o) && opt_view(o) == if state.stack@.len() == 0 {
            None::<Seq<char>>
        } else {
            Some(state.stack@.last()@)
        },
{
    let n = state.stack.len();
    if n == 0 {
        Ok(None)
    } else {
        Ok(Some(state.stack[n - 1].clone()))
    }
}

/// Add the tag `key = value` to the span `span_id`.
pub fn add_tag(state: &mut TracingState, span_id: &str, key: &str, value: &str) -> (r: Result<(), TracingError>)
    requires
        old(state).wf(),
    ensures
        final(state).wf(),
        final(state).counter == old(state).counter,
        final(state).stack == old(state).stack,
        trim(span_id@).len() == 0 ==> r == Err::<(), TracingError>(TracingError::InvalidSpanId),
        trim(span_id@).len() != 0 && !old(state).spans@.contains_key(span_id@) ==> r == Err::<(), TracingError>(TracingError::NotFound),
        r is Err ==> final(state).spans@ == old(state).spans@,
        trim(span_id@).len() != 0 && old(state).spans@.contains_key(span_id@) ==> {
            let before = old(state).spans@[span_id@];
            let after = final(state).spans@[span_id@];
            &&& r is Ok
            &&& final(state).spans@.dom() == old(state).spans@.dom()
            &&& forall|k: Seq<char>| k != span_id@ && #[trigger] old(state).spans@.contains_key(k)
                ==> final(state).spans@[k] == old(state).spans@[k]
            &&& after.id == before.id && after.parent_id == before.parent_id && after.name == before.name
            &&& after.started_ms == before.started_ms && after.ended_ms == before.ended_ms
            &&& tag_views(after.tags@) == tag_views(before.tags@).push((key@, value@))
        },
{
    if crate::text::is_blank(span_id) {
        return Err(TracingError::InvalidSpanId);
    }
    let i = match find_span(state, span_id) {
        Some(i) => i,
        None => return Err(TracingError::NotFound),
    };
    let (k, mut span) = state.spans.take_at(i);
    let ghost t0 = span.tags@;
    span.tags.push((crate::text::owned(key), crate::text::owned(value)));
    proof {
        assert(tag_views(span.tags@) =~= tag_views(t0).push((key@, value@)));
    }
    state.spans.restore_at(i, k, span);
    Ok(())
}

/// A copy of the span `span_id`.
pub fn get_span(state: &TracingState, span_id: &str) -> (r: Result<Span, TracingError>)
    requires
        state.wf(),
    ensures
        trim(span_id@).len() == 0 ==> r == Err::<Span, TracingError>(TracingError::InvalidSpanId),
        trim(span_id@).len() != 0 && !state.spans@.contains_key(span_id@) ==> r == Err::<Span, TracingError>(TracingError::NotFound),
        trim(span_id@).len() != 0 && state.spans@.contains_key(span_id@) ==> (r matches Ok(s) && same_span(s, state.spans@[span_id@])),
{
    if crate::text::is_blank(span_id) {
        return Err(TracingError::InvalidSpanId);
    }
    match find_span(state, span_id) {
        Some(i) => {
            let (_, s) = state.spans.entry_at(i);
            Ok(copy_span(s))
        },
        None => Err(TracingError::NotFound),
    }
}

/// The ids of a list of spans.
pub open spec fn span_ids(v: Seq<Span>) -> Seq<Seq<char>> {
    v.map_values(|s: Span| s.id@)
}

/// Copies of the spans that have not ended, in store order.
pub fn active_spans(state: &TracingState) -> (r: Result<Vec<Span>, TracingError>)
    requires
        state.wf(),
    ensures
        r matches Ok(v) && span_ids(v@) == keys_where(state.spans.entries(), |s: Span| is_open(s))
            && span_ids(v@).no_duplicates()
            && (forall|k: Seq<char>| #[trigger] span_ids(v@).contains(k) <==> state.spans@.contains_key(k) && is_open(state.spans@[k]))
            && (forall|i: int| 0 <= i < v@.len() ==> same_span(#[trigger] v@[i], state.spans@[v@[i].id@])),
{
    let ghost p = |s: Span| is_open(s);
    let n = state.spans.len();
    let mut v: Vec<Span> = Vec::new();
    let mut i: usize = 0;
    proof {
        assert(state.spans.entries().take(0) =~= Seq::<(String, Span)>::empty());
        assert(span_ids(v@) =~= Seq::<Seq<char>>::empty());
    }
    while i < n
        invariant
            state.wf(),
            n == state.spans.entries().len(),
            i <= n,
            span_ids(v@) == keys_where(state.spans.entries().take(i as int), p),
            p == (|s: Span| is_open(s)),
            forall|j: int| 0 <= j < v@.len() ==> state.spans@.contains_key(v@[j].id@)
                && same_span(#[trigger] v@[j], state.spans@[v@[j].id@]),
        decreases n - i,
    {
        proof {
            lemma_keys_where_step(state.spans.entries(), p, i as int);
        }
        let (k, s) = state.spans.entry_at(i);
        if s.ended_ms.is_none() {
            let c = copy_span(s);
            let ghost before = v@;
            v.push(c);
            proof {
                assert(span_ids(v@) =~= span_ids(before).push(k@));
                assert(v@[v@.len() - 1] == c);
            }
        }
        i = i + 1;
    }
    proof {
        assert(state.spans.entries().take(n as int) =~= state.spans.entries());
        lemma_keys_where(state.spans.entries(), p);
    }
    Ok(v)
}

// ── Laws ────────────────────────────────────────────────────────────────────

/// Distinct counter values give distinct span ids.
pub proof fn law_span_ids_distinct(a: u64, b: u64)
    requires
        a != b,
    ensures
        span_id(a) != span_id(b),
{
    assert(pow16(16) == 0x1_0000_0000_0000_0000nat) by {
        reveal_with_fuel(pow16, 17);
    }
    lemma_hex_digits_injective(a as nat, b as nat, 16);
    lemma_hex_digits_len(a as nat, 16);
    lemma_hex_digits_len(b as nat, 16);
    let pre = seq!['s', 'p', 'a', 'n', '-'];
    assert((pre + crate::text::hex_digits(a as nat, 16)).subrange(5, 21) =~= crate::text::hex_digits(a as nat, 16));
    assert((pre + crate::text::hex_digits(b as nat, 16)).subrange(5, 21) =~= crate::text::hex_digits(b as nat, 16));
}

/// The id the next started span gets differs from the id of every span
/// started before.
pub proof fn law_next_span_id_unused(s: TracingState)
    requires
        s.wf(),
    ensures
        !s.spans@.contains_key(span_id(s.counter)),
{
    if s.spans@.contains_key(span_id(s.counter)) {
        let c = choose|c: u64| c < s.counter && span_id(s.counter) == #[trigger] span_id(c);
        law_span_ids_distinct(c, s.counter);
    }
}

/// Ending the most recently started span, when its id occurs nowhere else on the
/// stack, gives back the stack as it was before that span started.
pub proof fn law_end_restores_stack(stack: Seq<Seq<char>>, id: Seq<char>)
    requires
        !stack.contains(id),
    ensures
        stack.push(id).filter(|x: Seq<char>| x != id) == stack,
{
    let p = |x: Seq<char>| x != id;
    stack.lemma_filter_push(id, p);
    lemma_filter_keeps_all(stack, id);
}

proof fn lemma_filter_keeps_all(s: Seq<Seq<char>>, id: Seq<char>)
    requires
        !s.contains(id),
    ensures
        s.filter(|x: Seq<char>| x != id) == s,
    decreases s.len(),
{
    let p = |x: Seq<char>| x != id;
    if s.len() > 0 {
        let q = s.drop_last();
        assert(!q.contains(id)) by {
            if q.contains(id) {
                let j = choose|j: int| 0 <= j < q.len() && q[j] == id;
                assert(s[j] == id);
            }
        }
        lemma_filter_keeps_all(q, id);
        assert(s.last() != id) by {
            assert(s[s.len() - 1] == s.last());
        }
        q.lemma_filter_push(s.last(), p);
        assert(q.push(s.last()) =~= s);
    } else {
        reveal(Seq::filter);
    }
}

/// `width` hex digits are `width` characters.
pub proof fn lemma_hex_digits_len(n: nat, width: nat)
    ensures
        crate::text::hex_digits(n, width).len() == width,
    decreases width,
{
    if width > 0 {
        lemma_hex_digits_len(n / 16, (width - 1) as nat);
    }
}

/// Sixteen to the power `w`.
pub open spec fn pow16(w: nat) -> nat
    decreases w,
{
    if w == 0 {
        1
    } else {
        16 * pow16((w - 1) as nat)
    }
}

/// Two numbers below `16^width` with the same `width` hex digits are equal.
pub proof fn lemma_hex_digits_injective(a: nat, b: nat, width: nat)
    requires
        a < pow16(width),
        b < pow16(width),
        a != b,
    ensures
        crate::text::hex_digits(a, width) != crate::text::hex_digits(b, width),
    decreases width,
{
    if width > 0 {
        let w1 = (width - 1) as nat;
        let ha = crate::text::hex_digits(a, width);
        let hb = crate::text::hex_digits(b, width);
        if a % 16 != b % 16 {
            lemma_hex_char_injective(a % 16, b % 16);
            assert(ha[ha.len() - 1] != hb[hb.len() - 1]);
        } else {
            assert(a / 16 != b / 16);
            lemma_hex_digits_injective(a / 16, b / 16, w1);
            let pa = crate::text::hex_digits(a / 16, w1);
            let pb = crate::text::hex_digits(b / 16, w1);
            assert(ha.drop_last() =~= pa);
            assert(hb.drop_last() =~= pb);
        }
    }
}

/// Distinct hex digits have distinct characters.
proof fn lemma_hex_char_injective(x: nat, y: nat)
    requires
        x < 16,
        y < 16,
        x != y,
    ensures
        crate::text::hex_char(x) != crate::text::hex_char(y),
{
    assert(crate::text::hex_char(x) as u32 == if x < 10 { 48 + x } else { 87 + x });
    assert(crate::text::hex_char(y) as u32 == if y < 10 { 48 + y } else { 87 + y });
}

} // verus!
