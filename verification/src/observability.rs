//! A levelled log buffer, counters and gauges keyed by name and sorted labels.
use vstd::prelude::*;
use crate::strings::str_lt;
use crate::text::trim;

verus! {

/// Severity of a log entry, from least to most severe.
#[derive(Debug, Clone, Copy, PartialEq, Eq, PartialOrd, Ord, Hash, Structural)]
pub enum LogLevel {
    Trace,
    Debug,
    Info,
    Warn,
    Error,
}

/// The position of `l` in the order Trace < Debug < Info < Warn < Error.
pub open spec fn rank(l: LogLevel) -> nat {
    match l {
        LogLevel::Trace => 0,
        LogLevel::Debug => 1,
        LogLevel::Info => 2,
        LogLevel::Warn => 3,
        LogLevel::Error => 4,
    }
}

impl LogLevel {
    /// The position of the level in the severity order.
    pub fn severity(&self) -> (r: u8)
        ensures
            r == rank(*self),
    {
        match self {
            LogLevel::Trace => 0,
            LogLevel::Debug => 1,
            LogLevel::Info => 2,
            LogLevel::Warn => 3,
            LogLevel::Error => 4,
        }
    }
}

/// A structured log entry.
#[derive(Debug, Clone)]
pub struct LogEntry {
    pub level: LogLevel,
    pub target: String,
    pub message: String,
    pub fields: Vec<(String, String)>,
    pub timestamp_ms: u64,
}

/// The value of a counter.
#[derive(Debug, Clone)]
pub struct CounterSnapshot {
    pub name: String,
    pub value: u64,
    pub labels: Vec<(String, String)>,
}

/// The value of a gauge.
#[derive(Debug, Clone)]
pub struct GaugeSnapshot {
    pub name: String,
    pub value: i64,
    pub labels: Vec<(String, String)>,
}

/// Errors of the logger and the metrics.
#[derive(Debug, Clone, Copy, PartialEq, Eq, Structural)]
pub enum ObsError {
    NotInitialized,
    InvalidName,
}

/// The characters of a list of label pairs.
pub open spec fn label_views(l: Seq<(String, String)>) -> Seq<(Seq<char>, Seq<char>)> {
    l.map_values(|p: (String, String)| (p.0@, p.1@))
}

/// `x` inserted into `s` after every label whose name is not greater than its own.
pub open spec fn insert_label(s: Seq<(String, String)>, x: (String, String)) -> Seq<(String, String)>
    decreases s.len(),
{
    if s.len() == 0 {
        seq![x]
    } else if str_lt(x.0@, s.last().0@) {
        insert_label(s.drop_last(), x).push(s.last())
    } else {
        s.push(x)
    }
}

/// The labels sorted by name; labels with equal names keep their order.
pub open spec fn sort_labels(s: Seq<(String, String)>) -> Seq<(String, String)>
    decreases s.len(),
{
    if s.len() == 0 {
        s
    } else {
        insert_label(sort_labels(s.drop_last()), s.last())
    }
}

/// The identity of a metric: its name and its sorted labels.
pub open spec fn metric_key(name: Seq<char>, labels: Seq<(String, String)>) -> (Seq<char>, Seq<(Seq<char>, Seq<char>)>) {
    (name, label_views(sort_labels(labels)))
}

/// The key a stored counter is kept under.
pub open spec fn counter_key(c: CounterSnapshot) -> (Seq<char>, Seq<(Seq<char>, Seq<char>)>) {
    (c.name@, label_views(c.labels@))
}

/// The key a stored gauge is kept under.
pub open spec fn gauge_key(g: GaugeSnapshot) -> (Seq<char>, Seq<(Seq<char>, Seq<char>)>) {
    (g.name@, label_views(g.labels@))
}

/// The position of the counter with key `k`, if any.
pub open spec fn has_counter(s: Seq<CounterSnapshot>, k: (Seq<char>, Seq<(Seq<char>, Seq<char>)>)) -> bool {
    exists|i: int| 0 <= i < s.len() && #[trigger] counter_key(s[i]) == k
}

/// Whether some gauge has key `k`.
pub open spec fn has_gauge(s: Seq<GaugeSnapshot>, k: (Seq<char>, Seq<(Seq<char>, Seq<char>)>)) -> bool {
    exists|i: int| 0 <= i < s.len() && #[trigger] gauge_key(s[i]) == k
}

/// Whether two counters hold the same name, value and labels.
pub open spec fn same_counter(a: CounterSnapshot, b: CounterSnapshot) -> bool {
    a.name == b.name && a.value == b.value && a.labels@ == b.labels@
}

/// Whether two gauges hold the same name, value and labels.
pub open spec fn same_gauge(a: GaugeSnapshot, b: GaugeSnapshot) -> bool {
    a.name == b.name && a.value == b.value && a.labels@ == b.labels@
}

/// The log buffer with its threshold, and every counter and gauge.
pub struct ObsState {
    pub min_level: LogLevel,
    pub buffer: Vec<LogEntry>,
    pub counters: Vec<CounterSnapshot>,
    pub gauges: Vec<GaugeSnapshot>,
}

impl ObsState {
    /// No two counters, and no two gauges, share a key.
    pub open spec fn wf(&self) -> bool {
        &&& forall|i: int, j: int| 0 <= i < j < self.counters@.len()
            ==> counter_key(#[trigger] self.counters@[i]) != counter_key(#[trigger] self.counters@[j])
        &&& forall|i: int, j: int| 0 <= i < j < self.gauges@.len()
            ==> gauge_key(#[trigger] self.gauges@[i]) != gauge_key(#[trigger] self.gauges@[j])
    }

    /// Threshold Info, an empty buffer, no metrics.
    pub fn new() -> (r: Self)
        ensures
            r.wf(),
            r.min_level == LogLevel::Info,
            r.buffer@.len() == 0,
            r.counters@.len() == 0,
            r.gauges@.len() == 0,
    {
        ObsState { min_level: LogLevel::Info, buffer: Vec::new(), counters: Vec::new(), gauges: Vec::new() }
    }
}

/// Set the threshold below which entries are dropped.
pub fn set_level(state: &mut ObsState, level: LogLevel) -> (r: Result<(), ObsError>)
    ensures
        r is Ok,
        final(state).min_level == level,
        final(state).buffer == old(state).buffer,
        final(state).counters == old(state).counters,
        final(state).gauges == old(state).gauges,
{
    state.min_level = level;
    Ok(())
}

/// Buffer `entry` unless its level is below the threshold.
pub fn log(state: &mut ObsState, entry: LogEntry) -> (r: Result<(), ObsError>)
    ensures
        r is Ok,
        final(state).buffer@ == if rank(entry.level) >= rank(old(state).min_level) {
            old(state).buffer@.push(entry)
        } else {
            old(state).buffer@
        },
        final(state).min_level == old(state).min_level,
        final(state).counters == old(state).counters,
        final(state).gauges == old(state).gauges,
{
    if entry.level.severity() >= state.min_level.severity() {
        state.buffer.push(entry);
    }
    Ok(())
}

/// Buffer a message with no fields and timestamp 0, unless its level is below the threshold.
pub fn log_msg(state: &mut ObsState, level: LogLevel, target: &str, message: &str) -> (r: Result<(), ObsError>)
    ensures
        r is Ok,
        rank(level) >= rank(old(state).min_level) ==> {
            let e = final(state).buffer@.last();
            &&& final(state).buffer@.len() == old(state).buffer@.len() + 1
            &&& final(state).buffer@.drop_last() == old(state).buffer@
            &&& e.level == level && e.target@ == target@ && e.message@ == message@
            &&& e.fields@.len() == 0 && e.timestamp_ms == 0
        },
        rank(level) < rank(old(state).min_level) ==> final(state).buffer@ == old(state).buffer@,
        final(state).min_level == old(state).min_level,
        final(state).counters == old(state).counters,
        final(state).gauges == old(state).gauges,
{
    let e = LogEntry {
        level,
        target: crate::text::owned(target),
        message: crate::text::owned(message),
        fields: Vec::new(),
        timestamp_ms: 0,
    };
    let ghost b0 = state.buffer@;
    let r = log(state, e);
    proof {
        if rank(level) >= rank(state.min_level) {
            assert(state.buffer@.drop_last() =~= b0);
        }
    }
    r
}

/// Take every buffered entry, oldest first, leaving the buffer empty.
pub fn drain(state: &mut ObsState) -> (r: Result<Vec<LogEntry>, ObsError>)
    ensures
        r matches Ok(v) && v@ == old(state).buffer@,
        final(state).buffer@.len() == 0,
        final(state).min_level == old(state).min_level,
        final(state).counters == old(state).counters,
        final(state).gauges == old(state).gauges,
{
    let mut out: Vec<LogEntry> = Vec::new();
    std::mem::swap(&mut out, &mut state.buffer);
    Ok(out)
}

/// Inserting at the first position after which every name is greater is `insert_label`.
proof fn lemma_insert_label_at(s: Seq<(String, String)>, x: (String, String), j: int)
    requires
        0 <= j <= s.len(),
        forall|k: int| j <= k < s.len() ==> str_lt(x.0@, #[trigger] s[k].0@),
        j > 0 ==> !str_lt(x.0@, s[j - 1].0@),
    ensures
        insert_label(s, x) == s.insert(j, x),
    decreases s.len(),
{
    if s.len() == j {
        assert(s.push(x) =~= s.insert(j, x));
        if s.len() == 0 {
            assert(seq![x] =~= s.insert(j, x));
        }
    } else {
        let q = s.drop_last();
        assert(str_lt(x.0@, s[s.len() - 1].0@));
        assert forall|k: int| j <= k < q.len() implies str_lt(x.0@, #[trigger] q[k].0@) by {
            assert(q[k] == s[k]);
        }
        if j > 0 {
            assert(q[j - 1] == s[j - 1]);
        }
        lemma_insert_label_at(q, x, j);
        assert(q.insert(j, x).push(s.last()) =~= s.insert(j, x));
    }
}

/// The characters of a `String`, as a vector.
fn name_chars(s: &String) -> (r: Vec<char>)
    ensures
        r@ == s@,
{
    crate::text::chars_of(s.as_str())
}

/// The labels sorted by name; equal names keep their order.
fn normalise_labels(labels: Vec<(String, String)>) -> (r: Result<Vec<(String, String)>, ObsError>)
    ensures
        r matches Ok(v) && v@ == sort_labels(labels@),
{
    let mut out: Vec<(String, String)> = Vec::new();
    let mut i: usize = 0;
    let n = labels.len();
    proof {
        assert(labels@.take(0) =~= Seq::<(String, String)>::empty());
    }
    while i < n
        invariant
            n == labels@.len(),
            i <= n,
            out@ == sort_labels(labels@.take(i as int)),
        decreases n - i,
    {
        let x = (labels[i].0.clone(), labels[i].1.clone());
        let xn = name_chars(&x.0);
        let mut j: usize = out.len();
        while j > 0 && crate::strings::chars_lt(&xn, &name_chars(&out[j - 1].0))
            invariant
                j <= out@.len(),
                xn@ == x.0@,
                forall|k: int| j <= k < out@.len() ==> str_lt(x.0@, #[trigger] out@[k].0@),
            decreases j,
        {
            j = j - 1;
        }
        proof {
            lemma_insert_label_at(out@, x, j as int);
            assert(labels@.take(i + 1).drop_last() =~= labels@.take(i as int));
            assert(labels@.take(i + 1).last() == x);
        }
        out.insert(j, x);
        i = i + 1;
    }
    assert(labels@.take(n as int) =~= labels@);
    Ok(out)
}

/// Whether two label lists have the same characters.
fn same_labels(a: &Vec<(String, String)>, b: &Vec<(String, String)>) -> (r: bool)
    ensures
        r == (label_views(a@) == label_views(b@)),
{
    if a.len() != b.len() {
        return false;
    }
    let mut i: usize = 0;
    while i < a.len()
        invariant
            a@.len() == b@.len(),
            i <= a@.len(),
            forall|k: int| 0 <= k < i ==> a@[k].0@ == b@[k].0@ && a@[k].1@ == b@[k].1@,
        decreases a@.len() - i,
    {
        if a[i].0 != b[i].0 || a[i].1 != b[i].1 {
            proof {
                assert(label_views(a@)[i as int] != label_views(b@)[i as int]);
            }
            return false;
        }
        i = i + 1;
    }
    assert(label_views(a@) =~= label_views(b@));
    true
}

/// The position of the counter under (`name`, `labels`).
fn find_counter(s: &Vec<CounterSnapshot>, name: &String, labels: &Vec<(String, String)>) -> (r: Option<usize>)
    ensures
        r is None ==> !has_counter(s@, (name@, label_views(labels@))),
        r matches Some(i) ==> i < s@.len() && counter_key(s@[i as int]) == (name@, label_views(labels@)),
{
    let mut i: usize = 0;
    while i < s.len()
        invariant
            i <= s@.len(),
            forall|k: int| 0 <= k < i ==> counter_key(#[trigger] s@[k]) != (name@, label_views(labels@)),
        decreases s@.len() - i,
    {
        if s[i].name == *name && same_labels(&s[i].labels, labels) {
            return Some(i);
        }
        i = i + 1;
    }
    None
}

/// The position of the gauge under (`name`, `labels`).
fn find_gauge(s: &Vec<GaugeSnapshot>, name: &String, labels: &Vec<(String, String)>) -> (r: Option<usize>)
    ensures
        r is None ==> !has_gauge(s@, (name@, label_views(labels@))),
        r matches Some(i) ==> i < s@.len() && gauge_key(s@[i as int]) == (name@, label_views(labels@)),
{
    let mut i: usize = 0;
    while i < s.len()
        invariant
            i <= s@.len(),
            forall|k: int| 0 <= k < i ==> gauge_key(#[trigger] s@[k]) != (name@, label_views(labels@)),
        decreases s@.len() - i,
    {
        if s[i].name == *name && same_labels(&s[i].labels, labels) {
            return Some(i);
        }
        i = i + 1;
    }
    None
}

/// Add `delta` to the counter named `name` with `labels` (in any order), creating it at `delta`.
pub fn increment(state: &mut ObsState, name: &str, delta: u64, labels: Vec<(String, String)>) -> (r: Result<(), ObsError>)
    requires
        old(state).wf(),
        forall|i: int| 0 <= i < old(state).counters@.len()
            && counter_key(#[trigger] old(state).counters@[i]) == metric_key(name@, labels@)
            ==> old(state).counters@[i].value + delta <= u64::MAX,
    ensures
        final(state).wf(),
        final(state).min_level == old(state).min_level,
        final(state).buffer == old(state).buffer,
        final(state).gauges == old(state).gauges,
        trim(name@).len() == 0 ==> r == Err::<(), ObsError>(ObsError::InvalidName) && final(state).counters == old(state).counters,
        trim(name@).len() != 0 && has_counter(old(state).counters@, metric_key(name@, labels@)) ==> r is Ok
            && exists|i: int| 0 <= i < old(state).counters@.len()
                && counter_key(#[trigger] old(state).counters@[i]) == metric_key(name@, labels@)
                && final(state).counters@ == old(state).counters@.update(i, (CounterSnapshot {
                    value: (old(state).counters@[i].value + delta) as u64,
                    ..old(state).counters@[i]
                })),
        trim(name@).len() != 0 && !has_counter(old(state).counters@, metric_key(name@, labels@)) ==> r is Ok
            && final(state).counters@.len() == old(state).counters@.len() + 1
            && final(state).counters@.drop_last() == old(state).counters@
            && final(state).counters@.last().name@ == name@
            && final(state).counters@.last().labels@ == sort_labels(labels@)
            && final(state).counters@.last().value == delta,
{
    if crate::text::is_blank(name) {
        return Err(ObsError::InvalidName);
    }
    let key_labels = normalise_labels(labels)?;
    let key_name = crate::text::owned(name);
    match find_counter(&state.counters, &key_name, &key_labels) {
        Some(i) => {
            let ghost c0 = state.counters@;
            let mut c = state.counters.remove(i);
            c.value = c.value + delta;
            state.counters.insert(i, c);
            proof {
                assert(state.counters@ =~= c0.update(i as int, c));
                assert forall|a: int, b: int| 0 <= a < b < state.counters@.len()
                    implies counter_key(#[trigger] state.counters@[a]) != counter_key(#[trigger] state.counters@[b]) by {
                    assert(counter_key(state.counters@[a]) == counter_key(c0[a]));
                    assert(counter_key(state.counters@[b]) == counter_key(c0[b]));
                }
            }
        },
        None => {
            let ghost c0 = state.counters@;
            let c = CounterSnapshot { name: key_name, value: delta, labels: key_labels };
            state.counters.push(c);
            proof {
                assert(state.counters@.drop_last() =~= c0);
                assert forall|a: int, b: int| 0 <= a < b < state.counters@.len()
                    implies counter_key(#[trigger] state.counters@[a]) != counter_key(#[trigger] state.counters@[b]) by {
                    if b == c0.len() {
                        assert(state.counters@[a] == c0[a]);
                    } else {
                        assert(state.counters@[a] == c0[a]);
                        assert(state.counters@[b] == c0[b]);
                    }
                }
            }
        },
    }
    Ok(())
}

/// Set the gauge named `name` with `labels` (in any order) to `value`.
pub fn gauge_set(state: &mut ObsState, name: &str, value: i64, labels: Vec<(String, String)>) -> (r: Result<(), ObsError>)
    requires
        old(state).wf(),
    ensures
        final(state).wf(),
        final(state).min_level == old(state).min_level,
        final(state).buffer == old(state).buffer,
        final(state).counters == old(state).counters,
        trim(name@).len() == 0 ==> r == Err::<(), ObsError>(ObsError::InvalidName) && final(state).gauges == old(state).gauges,
        trim(name@).len() != 0 && has_gauge(old(state).gauges@, metric_key(name@, labels@)) ==> r is Ok
            && exists|i: int| 0 <= i < old(state).gauges@.len()
                && gauge_key(#[trigger] old(state).gauges@[i]) == metric_key(name@, labels@)
                && final(state).gauges@ == old(state).gauges@.update(i, (GaugeSnapshot {
                    value: value,
                    ..old(state).gauges@[i]
                })),
        trim(name@).len() != 0 && !has_gauge(old(state).gauges@, metric_key(name@, labels@)) ==> r is Ok
            && final(state).gauges@.len() == old(state).gauges@.len() + 1
            && final(state).gauges@.drop_last() == old(state).gauges@
            && final(state).gauges@.last().name@ == name@
            && final(state).gauges@.last().labels@ == sort_labels(labels@)
            && final(state).gauges@.last().value == value,
{
    if crate::text::is_blank(name) {
        return Err(ObsError::InvalidName);
    }
    let key_labels = normalise_labels(labels)?;
    let key_name = crate::text::owned(name);
    match find_gauge(&state.gauges, &key_name, &key_labels) {
        Some(i) => {
            let ghost g0 = state.gauges@;
            let mut g = state.gauges.remove(i);
            g.value = value;
            state.gauges.insert(i, g);
            proof {
                assert(state.gauges@ =~= g0.update(i as int, g));
                assert forall|a: int, b: int| 0 <= a < b < state.gauges@.len()
                    implies gauge_key(#[trigger] state.gauges@[a]) != gauge_key(#[trigger] state.gauges@[b]) by {
                    assert(gauge_key(state.gauges@[a]) == gauge_key(g0[a]));
                    assert(gauge_key(state.gauges@[b]) == gauge_key(g0[b]));
                }
            }
        },
        None => {
            let ghost g0 = state.gauges@;
            let g = GaugeSnapshot { name: key_name, value, labels: key_labels };
            state.gauges.push(g);
            proof {
                assert(state.gauges@.drop_last() =~= g0);
                assert forall|a: int, b: int| 0 <= a < b < state.gauges@.len()
                    implies gauge_key(#[trigger] state.gauges@[a]) != gauge_key(#[trigger] state.gauges@[b]) by {
                    if b == g0.len() {
                        assert(state.gauges@[a] == g0[a]);
                    } else {
                        assert(state.gauges@[a] == g0[a]);
                        assert(state.gauges@[b] == g0[b]);
                    }
                }
            }
        },
    }
    Ok(())
}

/// A copy of every counter, in creation order.
pub fn counters(state: &ObsState) -> (r: Result<Vec<CounterSnapshot>, ObsError>)
    ensures
        r matches Ok(v) && v@.len() == state.counters@.len()
            && forall|i: int| 0 <= i < v@.len() ==> same_counter(#[trigger] v@[i], state.counters@[i]),
{
    let mut v: Vec<CounterSnapshot> = Vec::new();
    let mut i: usize = 0;
    while i < state.counters.len()
        invariant
            i <= state.counters@.len(),
            v@.len() == i,
            forall|k: int| 0 <= k < i ==> same_counter(#[trigger] v@[k], state.counters@[k]),
        decreases state.counters@.len() - i,
    {
        let c = &state.counters[i];
        let copy = CounterSnapshot { name: c.name.clone(), value: c.value, labels: crate::text::copy_pairs(&c.labels) };
        v.push(copy);
        i = i + 1;
    }
    Ok(v)
}

/// A copy of every gauge, in creation order.
pub fn gauges(state: &ObsState) -> (r: Result<Vec<GaugeSnapshot>, ObsError>)
    ensures
        r matches Ok(v) && v@.len() == state.gauges@.len()
            && forall|i: int| 0 <= i < v@.len() ==> same_gauge(#[trigger] v@[i], state.gauges@[i]),
{
    let mut v: Vec<GaugeSnapshot> = Vec::new();
    let mut i: usize = 0;
    while i < state.gauges.len()
        invariant
            i <= state.gauges@.len(),
            v@.len() == i,
            forall|k: int| 0 <= k < i ==> same_gauge(#[trigger] v@[k], state.gauges@[k]),
        decreases state.gauges@.len() - i,
    {
        let g = &state.gauges[i];
        let copy = GaugeSnapshot { name: g.name.clone(), value: g.value, labels: crate::text::copy_pairs(&g.labels) };
        v.push(copy);
        i = i + 1;
    }
    Ok(v)
}

/// Remove every counter and gauge; the log buffer is kept.
pub fn reset(state: &mut ObsState) -> (r: Result<(), ObsError>)
    ensures
        r is Ok,
        final(state).wf(),
        final(state).counters@.len() == 0,
        final(state).gauges@.len() == 0,
        final(state).min_level == old(state).min_level,
        final(state).buffer == old(state).buffer,
{
    state.counters = Vec::new();
    state.gauges = Vec::new();
    Ok(())
}

} // verus!
