//! Event triggers: functions subscribed to named events.
use vstd::prelude::*;
use crate::store::{KeyedStore, views};
use crate::text::trim;

verus! {

/// Errors of the event registry.
#[derive(Debug, Clone, Copy, PartialEq, Eq, Structural)]
pub enum EventError {
    InvalidName,
    NotFound,
    AlreadySubscribed,
    StorageError,
}

/// The trimmed name; empty names are rejected.
pub fn validate_name(name: &str) -> (r: Result<String, EventError>)
    ensures
        trim(name@).len() == 0 ==> r == Err::<String, EventError>(EventError::InvalidName),
        trim(name@).len() != 0 ==> (r matches Ok(n) && n@ == trim(name@)),
{
    match crate::text::checked_name(name) {
        Some(n) => Ok(n),
        None => Err(EventError::InvalidName),
    }
}

/// The subscribers of every event, by trimmed event name.
pub struct EventState {
    pub subs: KeyedStore<Vec<String>>,
}

/// The subscribers of event `k`, in subscription order (empty when unknown).
pub open spec fn subscribers_of(m: Map<Seq<char>, Vec<String>>, k: Seq<char>) -> Seq<Seq<char>> {
    if m.contains_key(k) {
        views(m[k]@)
    } else {
        Seq::empty()
    }
}

impl EventState {
    /// The store is well formed and no function is subscribed twice to one event.
    pub open spec fn wf(&self) -> bool {
        &&& self.subs.wf()
        &&& forall|k: Seq<char>| #[trigger] self.subs@.contains_key(k) ==> views(self.subs@[k]@).no_duplicates()
    }

    /// No events.
    pub fn new() -> (r: Self)
        ensures
            r.wf(),
            r.subs@ == Map::<Seq<char>, Vec<String>>::empty(),
    {
        EventState { subs: KeyedStore::new() }
    }
}

/// Whether the list `v` holds `s`.
fn holds(v: &Vec<String>, s: &String) -> (r: Option<usize>)
    ensures
        r is None <==> !views(v@).contains(s@),
        r matches Some(i) ==> i < v@.len() && v@[i as int]@ == s@ && forall|j: int| 0 <= j < i ==> v@[j]@ != s@,
{
    let mut i: usize = 0;
    while i < v.len()
        invariant
            i <= v@.len(),
            forall|j: int| 0 <= j < i ==> v@[j]@ != s@,
        decreases v@.len() - i,
    {
        if v[i] == *s {
            proof {
                assert(views(v@)[i as int] == s@);
            }
            return Some(i);
        }
        i = i + 1;
    }
    proof {
        if views(v@).contains(s@) {
            let j = choose|j: int| 0 <= j < views(v@).len() && views(v@)[j] == s@;
            assert(v@[j]@ == s@);
        }
    }
    None
}

/// Subscribe `fn_name` to `event_name`.
pub fn subscribe(state: &mut EventState, event_name: &str, fn_name: &str) -> (r: Result<(), EventError>)
    requires
        old(state).wf(),
    ensures
        final(state).wf(),
        trim(event_name@).len() == 0 || trim(fn_name@).len() == 0 ==> r == Err::<(), EventError>(EventError::InvalidName)
            && final(state).subs@ == old(state).subs@,
        trim(event_name@).len() != 0 && trim(fn_name@).len() != 0 ==> {
            let e = trim(event_name@);
            let f = trim(fn_name@);
            let before = subscribers_of(old(state).subs@, e);
            &&& final(state).subs@.dom() == old(state).subs@.dom().insert(e)
            &&& forall|q: Seq<char>| q != e && #[trigger] old(state).subs@.contains_key(q) ==> final(state).subs@[q] == old(state).subs@[q]
            &&& before.contains(f) ==> r == Err::<(), EventError>(EventError::AlreadySubscribed) && subscribers_of(final(state).subs@, e) == before
            &&& !before.contains(f) ==> r is Ok && subscribers_of(final(state).subs@, e) == before.push(f)
        },
{
    let event = validate_name(event_name)?;
    let func = validate_name(fn_name)?;
    let (i, key, mut list) = match state.subs.find(&event) {
        Some(i) => {
            let (k, l) = state.subs.take_at(i);
            (i, k, l)
        },
        None => (state.subs.len(), event, Vec::new()),
    };
    proof {
        assert(views(list@) == subscribers_of(old(state).subs@, trim(event_name@))) by {
            if !old(state).subs@.contains_key(trim(event_name@)) {
                assert(views(list@) =~= Seq::<Seq<char>>::empty());
            }
        }
    }
    let res = match holds(&list, &func) {
        Some(_) => Err(EventError::AlreadySubscribed),
        None => {
            let ghost b = views(list@);
            list.push(func);
            proof {
                assert(views(list@) =~= b.push(trim(fn_name@)));
                assert forall|x: int, y: int| 0 <= x < views(list@).len() && 0 <= y < views(list@).len() && x != y
                    implies views(list@)[x] != views(list@)[y] by {
                    if x == b.len() as int {
                        assert(b.contains(b[y]));
                    } else if y == b.len() as int {
                        assert(b.contains(b[x]));
                    }
                }
            }
            Ok(())
        },
    };
    state.subs.restore_at(i, key, list);
    res
}

/// Unsubscribe `fn_name` from `event_name`.
pub fn unsubscribe(state: &mut EventState, event_name: &str, fn_name: &str) -> (r: Result<(), EventError>)
    requires
        old(state).wf(),
    ensures
        final(state).wf(),
        trim(event_name@).len() == 0 || trim(fn_name@).len() == 0 ==> r == Err::<(), EventError>(EventError::InvalidName),
        trim(event_name@).len() != 0 && trim(fn_name@).len() != 0 ==> {
            let e = trim(event_name@);
            let f = trim(fn_name@);
            let before = subscribers_of(old(state).subs@, e);
            &&& !before.contains(f) ==> r == Err::<(), EventError>(EventError::NotFound)
            &&& before.contains(f) ==> r is Ok && final(state).subs@.dom() == old(state).subs@.dom()
                && (forall|q: Seq<char>| q != e && #[trigger] old(state).subs@.contains_key(q) ==> final(state).subs@[q] == old(state).subs@[q])
                && exists|i: int| 0 <= i < before.len() && before[i] == f && (forall|j: int| 0 <= j < i ==> before[j] != f)
                    && subscribers_of(final(state).subs@, e) == before.remove(i)
        },
        r is Err ==> final(state).subs@ == old(state).subs@,
{
    let event = validate_name(event_name)?;
    let func = validate_name(fn_name)?;
    let i = match state.subs.find(&event) {
        Some(i) => i,
        None => return Err(EventError::NotFound),
    };
    let pos = match holds(state.subs.entry_at(i).1, &func) {
        Some(p) => p,
        None => return Err(EventError::NotFound),
    };
    let (key, mut list) = state.subs.take_at(i);
    let ghost before = views(list@);
    list.remove(pos);
    proof {
        assert(views(list@) =~= before.remove(pos as int));
        assert forall|x: int, y: int| 0 <= x < views(list@).len() && 0 <= y < views(list@).len() && x != y
            implies views(list@)[x] != views(list@)[y] by {
            let x1 = if x < pos { x } else { x + 1 };
            let y1 = if y < pos { y } else { y + 1 };
            assert(views(list@)[x] == before[x1]);
            assert(views(list@)[y] == before[y1]);
        }
    }
    state.subs.restore_at(i, key, list);
    Ok(())
}

/// Emit an event: the functions subscribed to it, in subscription order.
pub fn emit(state: &EventState, event_name: &str, _payload: &[u8]) -> (r: Result<Vec<String>, EventError>)
    requires
        state.wf(),
    ensures
        trim(event_name@).len() == 0 ==> r == Err::<Vec<String>, EventError>(EventError::InvalidName),
        trim(event_name@).len() != 0 ==> (r matches Ok(v) && views(v@) == subscribers_of(state.subs@, trim(event_name@))),
{
    subscribers(state, event_name)
}

/// The functions subscribed to `event_name`, in subscription order.
pub fn subscribers(state: &EventState, event_name: &str) -> (r: Result<Vec<String>, EventError>)
    requires
        state.wf(),
    ensures
        trim(event_name@).len() == 0 ==> r == Err::<Vec<String>, EventError>(EventError::InvalidName),
        trim(event_name@).len() != 0 ==> (r matches Ok(v) && views(v@) == subscribers_of(state.subs@, trim(event_name@))),
{
    let event = validate_name(event_name)?;
    match state.subs.get(&event) {
        Some(l) => Ok(crate::text::copy_strings(l)),
        None => {
            let v: Vec<String> = Vec::new();
            proof {
                assert(views(v@) =~= Seq::<Seq<char>>::empty());
            }
            Ok(v)
        },
    }
}

/// Every event name that has been subscribed to, each once.
pub fn all_events(state: &EventState) -> (r: Result<Vec<String>, EventError>)
    requires
        state.wf(),
    ensures
        r matches Ok(v) && v@.len() == state.subs@.dom().len()
            && (forall|k: Seq<char>| state.subs@.contains_key(k) <==> exists|i: int| 0 <= i < v@.len() && #[trigger] v@[i]@ == k),
{
    Ok(state.subs.keys())
}

// ── Laws ────────────────────────────────────────────────────────────────────

/// Subscribing a new function appends it, so emitting returns it last.
pub proof fn law_emit_after_subscribe(before: Seq<Seq<char>>, f: Seq<char>)
    requires
        !before.contains(f),
    ensures
        before.push(f).contains(f),
        before.push(f).last() == f,
        before.push(f).len() == before.len() + 1,
{
    assert(before.push(f)[before.len() as int] == f);
}

/// Unsubscribing removes the function's only occurrence, so it no longer receives the event.
pub proof fn law_unsubscribe_removes(before: Seq<Seq<char>>, f: Seq<char>, i: int)
    requires
        before.no_duplicates(),
        0 <= i < before.len(),
        before[i] == f,
    ensures
        !before.remove(i).contains(f),
{
    if before.remove(i).contains(f) {
        let j = choose|j: int| 0 <= j < before.remove(i).len() && before.remove(i)[j] == f;
        if j < i {
            assert(before[j] == f);
        } else {
            assert(before[j + 1] == f);
        }
    }
}

} // verus!
