//! Batching: named windows that collect items until a size or age trigger,
//! are flushed once, and record the outcome of the flushed items.
use vstd::prelude::*;
use crate::store::{KeyedStore, keys_where, lemma_keys_where, lemma_keys_where_step, views};
use crate::text::trim;

verus! {

/// An item waiting in a batch.
#[derive(Debug, Clone)]
pub struct BatchItem {
    pub id: String,
    pub payload: Vec<u8>,
    pub enqueued_at_ms: u64,
}

/// The outcome of one flushed item.
#[derive(Debug, Clone)]
pub struct ItemResult {
    pub id: String,
    pub ok: bool,
    pub detail: Option<String>,
}

/// Counts of recorded outcomes.
#[derive(Debug, Clone, Copy, PartialEq, Eq, Structural)]
pub struct FlushSummary {
    pub total: u32,
    pub succeeded: u32,
    pub failed: u32,
    pub flushed_at_ms: u64,
}

/// Errors of the batcher.
#[derive(Debug, Clone, Copy, PartialEq, Eq, Structural)]
pub enum BatchError {
    BatchClosed,
    EmptyBatch,
    InvalidId,
    NotFound,
    DuplicateBatch,
}

/// Whether a window still takes items.
#[derive(Debug, Clone, Copy, PartialEq, Eq, Structural)]
pub enum WindowState {
    Open,
    Flushed,
}

/// One batch window.
#[derive(Debug)]
pub struct BatchWindow {
    pub max_size: u32,
    pub max_age_ms: u64,
    /// When the first item was enqueued (`None` while empty).
    pub first_enqueue_ms: Option<u64>,
    pub items: Vec<BatchItem>,
    pub state: WindowState,
    /// The outcomes recorded after a flush.
    pub results: Vec<ItemResult>,
    pub flush_ms: u64,
}

/// Whether window `w` is due for a flush at `now_ms`: open, and full (when a
/// size is set) or older than its age limit (when one is set).
pub open spec fn window_due(w: BatchWindow, now_ms: u64) -> bool {
    &&& w.state == WindowState::Open
    &&& {
        ||| (w.max_size > 0 && (w.items@.len() as u32) >= w.max_size)
        ||| (w.max_age_ms > 0 && (w.first_enqueue_ms matches Some(f)
            && (if now_ms >= f { now_ms - f } else { 0 }) >= w.max_age_ms))
    }
}

impl BatchWindow {
    /// An empty open window.
    pub fn new(max_size: u32, max_age_ms: u64) -> (r: Self)
        ensures
            r.max_size == max_size && r.max_age_ms == max_age_ms,
            r.first_enqueue_ms is None && r.items@.len() == 0 && r.state == WindowState::Open,
            r.results@.len() == 0 && r.flush_ms == 0,
    {
        BatchWindow {
            max_size,
            max_age_ms,
            first_enqueue_ms: None,
            items: Vec::new(),
            state: WindowState::Open,
            results: Vec::new(),
            flush_ms: 0,
        }
    }

    /// Whether the window is due for a flush at `now_ms`.
    pub fn is_due(&self, now_ms: u64) -> (r: bool)
        ensures
            r == window_due(*self, now_ms),
    {
        if self.state != WindowState::Open {
            return false;
        }
        if self.max_size > 0 && self.items.len() as u32 >= self.max_size {
            return true;
        }
        if self.max_age_ms > 0 {
            if let Some(first) = self.first_enqueue_ms {
                if now_ms.saturating_sub(first) >= self.max_age_ms {
                    return true;
                }
            }
        }
        false
    }
}

/// Every batch window by name.
pub struct BatchState {
    pub batches: KeyedStore<BatchWindow>,
}

impl BatchState {
    /// The store is well formed.
    pub open spec fn wf(&self) -> bool {
        self.batches.wf()
    }

    /// No batches.
    pub fn new() -> (r: Self)
        ensures
            r.wf(),
            r.batches@ == Map::<Seq<char>, BatchWindow>::empty(),
    {
        BatchState { batches: KeyedStore::new() }
    }
}

/// `Err(InvalidId)` for a blank id.
fn validate_id(id: &str) -> (r: Result<(), BatchError>)
    ensures
        trim(id@).len() == 0 <==> r == Err::<(), BatchError>(BatchError::InvalidId),
        r is Ok <==> trim(id@).len() != 0,
{
    if crate::text::is_blank(id) {
        Err(BatchError::InvalidId)
    } else {
        Ok(())
    }
}

/// Open window `name` (trimmed) with the given triggers (0 turns one off).
pub fn open(state: &mut BatchState, name: &str, max_size: u32, max_age_ms: u64) -> (r: Result<(), BatchError>)
    requires
        old(state).wf(),
    ensures
        final(state).wf(),
        trim(name@).len() == 0 ==> r == Err::<(), BatchError>(BatchError::InvalidId),
        trim(name@).len() != 0 && old(state).batches@.contains_key(trim(name@)) ==> r == Err::<(), BatchError>(BatchError::DuplicateBatch),
        r is Err ==> final(state).batches@ == old(state).batches@,
        trim(name@).len() != 0 && !old(state).batches@.contains_key(trim(name@)) ==> {
            let w = final(state).batches@[trim(name@)];
            &&& r is Ok
            &&& final(state).batches@.dom() == old(state).batches@.dom().insert(trim(name@))
            &&& forall|k: Seq<char>| k != trim(name@) && #[trigger] old(state).batches@.contains_key(k)
                ==> final(state).batches@[k] == old(state).batches@[k]
            &&& w.max_size == max_size && w.max_age_ms == max_age_ms && w.first_enqueue_ms is None
            &&& w.items@.len() == 0 && w.state == WindowState::Open && w.results@.len() == 0 && w.flush_ms == 0
        },
{
    let t = crate::text::trimmed(name);
    if t.len() == 0 {
        return Err(BatchError::InvalidId);
    }
    let n = crate::text::string_from_chars(t.as_slice());
    if state.batches.contains(&n) {
        return Err(BatchError::DuplicateBatch);
    }
    state.batches.insert(n, BatchWindow::new(max_size, max_age_ms));
    Ok(())
}

/// Append `item` to the open window `name`.
pub fn enqueue(state: &mut BatchState, name: &str, item: BatchItem) -> (r: Result<(), BatchError>)
    requires
        old(state).wf(),
    ensures
        final(state).wf(),
        trim(item.id@).len() == 0 ==> r == Err::<(), BatchError>(BatchError::InvalidId),
        trim(item.id@).len() != 0 && !old(state).batches@.contains_key(name@) ==> r == Err::<(), BatchError>(BatchError::NotFound),
        trim(item.id@).len() != 0 && old(state).batches@.contains_key(name@)
            && old(state).batches@[name@].state != WindowState::Open ==> r == Err::<(), BatchError>(BatchError::BatchClosed),
        r is Err ==> final(state).batches@ == old(state).batches@,
        trim(item.id@).len() != 0 && old(state).batches@.contains_key(name@)
            && old(state).batches@[name@].state == WindowState::Open ==> {
            let w0 = old(state).batches@[name@];
            let w = final(state).batches@[name@];
            &&& r is Ok
            &&& final(state).batches@.dom() == old(state).batches@.dom()
            &&& forall|k: Seq<char>| k != name@ && #[trigger] old(state).batches@.contains_key(k)
                ==> final(state).batches@[k] == old(state).batches@[k]
            &&& w.items@ == w0.items@.push(item)
            &&& w.first_enqueue_ms == if w0.first_enqueue_ms is None { Some(item.enqueued_at_ms) } else { w0.first_enqueue_ms }
            &&& w.max_size == w0.max_size && w.max_age_ms == w0.max_age_ms && w.state == w0.state
            &&& w.results == w0.results && w.flush_ms == w0.flush_ms
        },
{
    validate_id(item.id.as_str())?;
    let key = crate::text::owned(name);
    let i = match state.batches.find(&key) {
        Some(i) => i,
        None => return Err(BatchError::NotFound),
    };
    if state.batches.entry_at(i).1.state != WindowState::Open {
        return Err(BatchError::BatchClosed);
    }
    let (k, mut w) = state.batches.take_at(i);
    if w.first_enqueue_ms.is_none() {
        w.first_enqueue_ms = Some(item.enqueued_at_ms);
    }
    w.items.push(item);
    state.batches.restore_at(i, k, w);
    Ok(())
}

/// Close window `name` and hand out its items, oldest first.
pub fn flush(state: &mut BatchState, name: &str, now_ms: u64) -> (r: Result<Vec<BatchItem>, BatchError>)
    requires
        old(state).wf(),
    ensures
        final(state).wf(),
        !old(state).batches@.contains_key(name@) ==> (r matches Err(e) && e == BatchError::NotFound),
        old(state).batches@.contains_key(name@) && old(state).batches@[name@].state != WindowState::Open
            ==> (r matches Err(e) && e == BatchError::BatchClosed),
        old(state).batches@.contains_key(name@) && old(state).batches@[name@].state == WindowState::Open
            && old(state).batches@[name@].items@.len() == 0 ==> (r matches Err(e) && e == BatchError::EmptyBatch),
        r is Err ==> final(state).batches@ == old(state).batches@,
        old(state).batches@.contains_key(name@) && old(state).batches@[name@].state == WindowState::Open
            && old(state).batches@[name@].items@.len() != 0 ==> {
            let w0 = old(state).batches@[name@];
            let w = final(state).batches@[name@];
            &&& (r matches Ok(v) && v@ == w0.items@)
            &&& final(state).batches@.dom() == old(state).batches@.dom()
            &&& forall|k: Seq<char>| k != name@ && #[trigger] old(state).batches@.contains_key(k)
                ==> final(state).batches@[k] == old(state).batches@[k]
            &&& w.items@.len() == 0 && w.state == WindowState::Flushed && w.flush_ms == now_ms
            &&& w.max_size == w0.max_size && w.max_age_ms == w0.max_age_ms
            &&& w.first_enqueue_ms == w0.first_enqueue_ms && w.results == w0.results
        },
{
    let key = crate::text::owned(name);
    let i = match state.batches.find(&key) {
        Some(i) => i,
        None => return Err(BatchError::NotFound),
    };
    let (_, w0) = state.batches.entry_at(i);
    if w0.state != WindowState::Open {
        return Err(BatchError::BatchClosed);
    }
    if w0.items.len() == 0 {
        return Err(BatchError::EmptyBatch);
    }
    let (k, mut w) = state.batches.take_at(i);
    w.state = WindowState::Flushed;
    w.flush_ms = now_ms;
    let mut items: Vec<BatchItem> = Vec::new();
    std::mem::swap(&mut items, &mut w.items);
    state.batches.restore_at(i, k, w);
    Ok(items)
}

/// The number of successful outcomes among `s`.
pub open spec fn count_ok(s: Seq<ItemResult>) -> nat
    decreases s.len(),
{
    if s.len() == 0 {
        0
    } else {
        count_ok(s.drop_last()) + if s.last().ok { 1nat } else { 0nat }
    }
}

proof fn lemma_count_ok_bound(s: Seq<ItemResult>)
    ensures
        count_ok(s) <= s.len(),
    decreases s.len(),
{
    if s.len() > 0 {
        lemma_count_ok_bound(s.drop_last());
    }
}

/// Record the outcomes of the flushed items of window `name` and count them.
pub fn record_results(state: &mut BatchState, name: &str, results: Vec<ItemResult>) -> (r: Result<FlushSummary, BatchError>)
    requires
        old(state).wf(),
        results@.len() <= u32::MAX,
    ensures
        final(state).wf(),
        !old(state).batches@.contains_key(name@) ==> r == Err::<FlushSummary, BatchError>(BatchError::NotFound)
            && final(state).batches@ == old(state).batches@,
        old(state).batches@.contains_key(name@) ==> {
            let w0 = old(state).batches@[name@];
            let w = final(state).batches@[name@];
            &&& r == Ok::<FlushSummary, BatchError>(FlushSummary {
                total: results@.len() as u32,
                succeeded: count_ok(results@) as u32,
                failed: (results@.len() - count_ok(results@)) as u32,
                flushed_at_ms: w0.flush_ms,
            })
            &&& final(state).batches@.dom() == old(state).batches@.dom()
            &&& forall|k: Seq<char>| k != name@ && #[trigger] old(state).batches@.contains_key(k)
                ==> final(state).batches@[k] == old(state).batches@[k]
            &&& w.results@ == results@
            &&& w.items == w0.items && w.state == w0.state && w.flush_ms == w0.flush_ms
            &&& w.max_size == w0.max_size && w.max_age_ms == w0.max_age_ms && w.first_enqueue_ms == w0.first_enqueue_ms
        },
{
    let key = crate::text::owned(name);
    let i = match state.batches.find(&key) {
        Some(i) => i,
        None => return Err(BatchError::NotFound),
    };
    let total = results.len() as u32;
    let mut succeeded: u32 = 0;
    let mut j: usize = 0;
    proof {
        assert(results@.take(0) =~= Seq::<ItemResult>::empty());
    }
    while j < results.len()
        invariant
            j <= results@.len() <= u32::MAX,
            succeeded == count_ok(results@.take(j as int)),
            count_ok(results@.take(j as int)) <= j,
        decreases results@.len() - j,
    {
        proof {
            assert(results@.take(j + 1).drop_last() =~= results@.take(j as int));
        }
        if results[j].ok {
            succeeded = succeeded + 1;
        }
        j = j + 1;
    }
    proof {
        assert(results@.take(results@.len() as int) =~= results@);
    }
    let failed = total - succeeded;
    let (k, mut w) = state.batches.take_at(i);
    let flushed_at_ms = w.flush_ms;
    w.results = results;
    state.batches.restore_at(i, k, w);
    Ok(FlushSummary { total, succeeded, failed, flushed_at_ms })
}

/// Whether window `name` is due for a flush at `now_ms`.
pub fn is_due(state: &BatchState, name: &str, now_ms: u64) -> (r: Result<bool, BatchError>)
    requires
        state.wf(),
    ensures
        !state.batches@.contains_key(name@) ==> r == Err::<bool, BatchError>(BatchError::NotFound),
        state.batches@.contains_key(name@) ==> r == Ok::<bool, BatchError>(window_due(state.batches@[name@], now_ms)),
{
    let key = crate::text::owned(name);
    match state.batches.get(&key) {
        Some(w) => Ok(w.is_due(now_ms)),
        None => Err(BatchError::NotFound),
    }
}

/// The number of items waiting in window `name`.
pub fn pending_count(state: &BatchState, name: &str) -> (r: Result<u32, BatchError>)
    requires
        state.wf(),
    ensures
        !state.batches@.contains_key(name@) ==> r == Err::<u32, BatchError>(BatchError::NotFound),
        state.batches@.contains_key(name@) ==> r == Ok::<u32, BatchError>(state.batches@[name@].items@.len() as u32),
{
    let key = crate::text::owned(name);
    match state.batches.get(&key) {
        Some(w) => Ok(w.items.len() as u32),
        None => Err(BatchError::NotFound),
    }
}

/// The names of the windows due at `now_ms`, in creation order.
pub fn due_batches(state: &BatchState, now_ms: u64) -> (r: Result<Vec<String>, BatchError>)
    requires
        state.wf(),
    ensures
        r matches Ok(v) && views(v@) == keys_where(state.batches.entries(), |w: BatchWindow| window_due(w, now_ms))
            && views(v@).no_duplicates()
            && (forall|k: Seq<char>| #[trigger] views(v@).contains(k) <==> state.batches@.contains_key(k) && window_due(state.batches@[k], now_ms)),
{
    let ghost p = |w: BatchWindow| window_due(w, now_ms);
    let n = state.batches.len();
    let mut v: Vec<String> = Vec::new();
    let mut i: usize = 0;
    proof {
        assert(state.batches.entries().take(0) =~= Seq::<(String, BatchWindow)>::empty());
        assert(views(v@) =~= Seq::<Seq<char>>::empty());
    }
    while i < n
        invariant
            state.wf(),
            n == state.batches.entries().len(),
            i <= n,
            views(v@) == keys_where(state.batches.entries().take(i as int), p),
            p == (|w: BatchWindow| window_due(w, now_ms)),
        decreases n - i,
    {
        proof {
            lemma_keys_where_step(state.batches.entries(), p, i as int);
        }
        let (k, w) = state.batches.entry_at(i);
        if w.is_due(now_ms) {
            v.push(k.clone());
            proof {
                assert(views(v@) =~= views(v@.drop_last()).push(k@));
            }
        }
        i = i + 1;
    }
    proof {
        assert(state.batches.entries().take(n as int) =~= state.batches.entries());
        lemma_keys_where(state.batches.entries(), p);
    }
    Ok(v)
}

/// Drop the waiting items of window `name` and close it.
pub fn discard(state: &mut BatchState, name: &str) -> (r: Result<(), BatchError>)
    requires
        old(state).wf(),
    ensures
        final(state).wf(),
        !old(state).batches@.contains_key(name@) ==> r == Err::<(), BatchError>(BatchError::NotFound)
            && final(state).batches@ == old(state).batches@,
        old(state).batches@.contains_key(name@) ==> {
            let w0 = old(state).batches@[name@];
            let w = final(state).batches@[name@];
            &&& r is Ok
            &&& final(state).batches@.dom() == old(state).batches@.dom()
            &&& forall|k: Seq<char>| k != name@ && #[trigger] old(state).batches@.contains_key(k)
                ==> final(state).batches@[k] == old(state).batches@[k]
            &&& w.items@.len() == 0 && w.state == WindowState::Flushed
            &&& w.max_size == w0.max_size && w.max_age_ms == w0.max_age_ms && w.first_enqueue_ms == w0.first_enqueue_ms
            &&& w.results == w0.results && w.flush_ms == w0.flush_ms
        },
{
    let key = crate::text::owned(name);
    let i = match state.batches.find(&key) {
        Some(i) => i,
        None => return Err(BatchError::NotFound),
    };
    let (k, mut w) = state.batches.take_at(i);
    w.items = Vec::new();
    w.state = WindowState::Flushed;
    state.batches.restore_at(i, k, w);
    Ok(())
}

/// Remove window `name`.
pub fn close(state: &mut BatchState, name: &str) -> (r: Result<(), BatchError>)
    requires
        old(state).wf(),
    ensures
        final(state).wf(),
        !old(state).batches@.contains_key(name@) ==> r == Err::<(), BatchError>(BatchError::NotFound),
        old(state).batches@.contains_key(name@) ==> r is Ok,
        final(state).batches@ == old(state).batches@.remove(name@),
{
    let key = crate::text::owned(name);
    match state.batches.remove(&key) {
        Some(_) => Ok(()),
        None => Err(BatchError::NotFound),
    }
}

// ── Laws ────────────────────────────────────────────────────────────────────

/// A flushed or discarded window is never due again.
pub proof fn law_flushed_never_due(w: BatchWindow, now_ms: u64)
    requires
        w.state == WindowState::Flushed,
    ensures
        !window_due(w, now_ms),
{
}

/// A window with a size limit is due as soon as it holds that many items.
pub proof fn law_full_window_due(w: BatchWindow, now_ms: u64)
    requires
        w.state == WindowState::Open,
        w.max_size > 0,
        w.items@.len() as u32 >= w.max_size,
    ensures
        window_due(w, now_ms),
{
}

/// The counts of a summary add up: every outcome is a success or a failure.
pub proof fn law_summary_adds_up(results: Seq<ItemResult>)
    requires
        results.len() <= u32::MAX,
    ensures
        count_ok(results) <= results.len(),
        (count_ok(results) as u32) + ((results.len() - count_ok(results)) as u32) == results.len() as u32,
{
    lemma_count_ok_bound(results);
}

} // verus!
