//! Cron schedules: a five-field expression parser, proleptic Gregorian
//! calendar arithmetic at minute granularity, and a registry of named tasks.
use vstd::prelude::*;
use crate::store::{KeyedStore, keys_where, lemma_keys_where, lemma_keys_where_step, views};
use crate::strings::{first_index, split_on, split_char, find_char, piece_views};
use crate::text::{is_ws, trim};

verus! {

// ── Types ───────────────────────────────────────────────────────────────────

/// The values each field fires on; an empty list is the wildcard `*`.
#[derive(Debug, Clone)]
pub struct Schedule {
    pub minutes: Vec<u8>,
    pub hours: Vec<u8>,
    pub days_of_month: Vec<u8>,
    pub months: Vec<u8>,
    pub days_of_week: Vec<u8>,
}

/// A registered task.
#[derive(Debug, Clone)]
pub struct Task {
    pub name: String,
    pub expression: String,
    pub schedule: Schedule,
    pub enabled: bool,
    pub last_run_ms: Option<u64>,
    pub next_run_ms: Option<u64>,
    pub run_count: u64,
}

/// Errors of the scheduler.
#[derive(Debug, Clone, Copy, PartialEq, Eq, Structural)]
pub enum CronError {
    InvalidExpression,
    NotFound,
    DuplicateTask,
    InvalidName,
}

// ── Unsigned decimal numbers ────────────────────────────────────────────────

/// Whether `c` is an ASCII decimal digit.
pub open spec fn is_digit(c: char) -> bool {
    '0' <= c && c <= '9'
}

/// Whether `s` is made of decimal digits only.
pub open spec fn all_digits(s: Seq<char>) -> bool {
    forall|i: int| 0 <= i < s.len() ==> is_digit(#[trigger] s[i])
}

/// The number that the decimal digits `s` write.
pub open spec fn digits_value(s: Seq<char>) -> nat
    decreases s.len(),
{
    if s.len() == 0 {
        0
    } else {
        digits_value(s.drop_last()) * 10 + ((s.last() as u32) - 48) as nat
    }
}

/// `s` without one leading `+`.
pub open spec fn unsigned_digits(s: Seq<char>) -> Seq<char> {
    if s.len() > 0 && s[0] == '+' {
        s.drop_first()
    } else {
        s
    }
}

/// What `u8::from_str` gives for `s`: an optional `+`, then at least one
/// decimal digit, with a value of at most 255.
pub open spec fn u8_of(s: Seq<char>) -> Option<u8> {
    let d = unsigned_digits(s);
    if d.len() > 0 && all_digits(d) && digits_value(d) <= 255 {
        Some(digits_value(d) as u8)
    } else {
        None
    }
}

pub proof fn lemma_digits_value_grows(s: Seq<char>, j: int, k: int)
    requires
        0 <= j <= k <= s.len(),
        all_digits(s),
    ensures
        digits_value(s.subrange(0, j)) <= digits_value(s.subrange(0, k)),
    decreases k - j,
{
    if j < k {
        lemma_digits_value_grows(s, j, k - 1);
        assert(s.subrange(0, k).drop_last() =~= s.subrange(0, k - 1));
        assert(is_digit(s[k - 1]));
    }
}

/// The number that `v` writes in decimal, as `u8::from_str` reads it.
pub fn parse_u8(v: &Vec<char>) -> (r: Option<u8>)
    ensures
        r == u8_of(v@),
{
    let n = v.len();
    let start: usize = if n > 0 && v[0] == '+' { 1 } else { 0 };
    let ghost d = unsigned_digits(v@);
    proof {
        assert(d =~= v@.subrange(start as int, n as int));
    }
    if start == n {
        return None;
    }
    let mut acc: u32 = 0;
    let mut i: usize = start;
    proof {
        assert(d.subrange(0, 0) =~= Seq::<char>::empty());
    }
    while i < n
        invariant
            start <= i <= n == v@.len(),
            d == v@.subrange(start as int, n as int),
            d == unsigned_digits(v@),
            all_digits(d.subrange(0, i - start)),
            acc == digits_value(d.subrange(0, i - start)),
            acc <= 255,
        decreases n - i,
    {
        let c = v[i];
        if !('0' <= c && c <= '9') {
            proof {
                assert(d[i - start] == c);
            }
            return None;
        }
        let dig = (c as u32) - 48;
        proof {
            assert(d.subrange(0, i + 1 - start).drop_last() =~= d.subrange(0, i - start));
            assert(d.subrange(0, i + 1 - start).last() == c);
            assert(all_digits(d.subrange(0, i + 1 - start))) by {
                assert forall|k: int| 0 <= k < i + 1 - start implies is_digit(#[trigger] d.subrange(0, i + 1 - start)[k]) by {
                    if k < i - start {
                        assert(d.subrange(0, i + 1 - start)[k] == d.subrange(0, i - start)[k]);
                    }
                }
            }
        }
        acc = acc * 10 + dig;
        if acc > 255 {
            proof {
                if all_digits(d) {
                    lemma_digits_value_grows(d, i + 1 - start, d.len() as int);
                    assert(d.subrange(0, d.len() as int) =~= d);
                }
            }
            return None;
        }
        i = i + 1;
    }
    proof {
        assert(d.subrange(0, n - start) =~= d);
    }
    Some(acc as u8)
}

/// What `u64::from_str` gives for `s`: an optional `+`, then at least one
/// decimal digit, with a value that fits in 64 bits.
pub open spec fn u64_of(s: Seq<char>) -> Option<u64> {
    let d = unsigned_digits(s);
    if d.len() > 0 && all_digits(d) && digits_value(d) <= u64::MAX {
        Some(digits_value(d) as u64)
    } else {
        None
    }
}

/// The number that `v` writes in decimal, as `u64::from_str` reads it.
pub fn parse_u64(v: &Vec<char>) -> (r: Option<u64>)
    ensures
        r == u64_of(v@),
{
    let n = v.len();
    let start: usize = if n > 0 && v[0] == '+' { 1 } else { 0 };
    let ghost d = unsigned_digits(v@);
    proof {
        assert(d =~= v@.subrange(start as int, n as int));
    }
    if start == n {
        return None;
    }
    let mut acc: u128 = 0;
    let mut i: usize = start;
    proof {
        assert(d.subrange(0, 0) =~= Seq::<char>::empty());
    }
    while i < n
        invariant
            start <= i <= n == v@.len(),
            d == v@.subrange(start as int, n as int),
            d == unsigned_digits(v@),
            all_digits(d.subrange(0, i - start)),
            acc == digits_value(d.subrange(0, i - start)),
            acc <= u64::MAX,
        decreases n - i,
    {
        let c = v[i];
        if !('0' <= c && c <= '9') {
            proof {
                assert(d[i - start] == c);
            }
            return None;
        }
        let dig = (c as u32) - 48;
        proof {
            assert(d.subrange(0, i + 1 - start).drop_last() =~= d.subrange(0, i - start));
            assert(d.subrange(0, i + 1 - start).last() == c);
            assert(all_digits(d.subrange(0, i + 1 - start))) by {
                assert forall|k: int| 0 <= k < i + 1 - start implies is_digit(#[trigger] d.subrange(0, i + 1 - start)[k]) by {
                    if k < i - start {
                        assert(d.subrange(0, i + 1 - start)[k] == d.subrange(0, i - start)[k]);
                    }
                }
            }
        }
        acc = acc * 10 + dig as u128;
        if acc > u64::MAX as u128 {
            proof {
                if all_digits(d) {
                    lemma_digits_value_grows(d, i + 1 - start, d.len() as int);
                    assert(d.subrange(0, d.len() as int) =~= d);
                }
            }
            return None;
        }
        i = i + 1;
    }
    proof {
        assert(d.subrange(0, n - start) =~= d);
    }
    Some(acc as u64)
}

// ── Fields ──────────────────────────────────────────────────────────────────

/// The `j`-th value counting from `start` by `step`.
pub open spec fn nth_step(start: int, step: int, j: nat) -> int {
    start + j * step
}

/// `start`, `start + step`, `start + 2 * step`, … up to `max`.
pub open spec fn stepped(start: int, step: int, max: int) -> Set<int> {
    Set::new(|v: int| v <= max && exists|j: nat| v == #[trigger] nth_step(start, step, j))
}

/// The values one comma-separated part of a field lists: `a/s` or `*/s`
/// (from `a`, or from `min`, every `s` up to `max`), `lo-hi`, or one value;
/// `None` when the part is malformed or out of range.
pub open spec fn part_values(p: Seq<char>, min: u8, max: u8) -> Option<Set<int>> {
    if p.contains('/') {
        let i = first_index(p, '/').unwrap();
        let base = p.take(i);
        match u8_of(p.skip(i + 1)) {
            Some(step) => if step == 0 {
                None
            } else {
                let start = if base == seq!['*'] { Some(min) } else { u8_of(base) };
                match start {
                    Some(s) => Some(stepped(s as int, step as int, max as int)),
                    None => None,
                }
            },
            None => None,
        }
    } else if p.contains('-') {
        let i = first_index(p, '-').unwrap();
        match (u8_of(p.take(i)), u8_of(p.skip(i + 1))) {
            (Some(lo), Some(hi)) => if lo > hi || lo < min || hi > max {
                None
            } else {
                Some(Set::new(|v: int| lo <= v <= hi))
            },
            _ => None,
        }
    } else {
        match u8_of(p) {
            Some(v) => if v < min || v > max {
                None
            } else {
                Some(set![v as int])
            },
            None => None,
        }
    }
}

/// Whether every part is well formed.
pub open spec fn parts_ok(parts: Seq<Seq<char>>, min: u8, max: u8) -> bool {
    forall|i: int| 0 <= i < parts.len() ==> (#[trigger] part_values(parts[i], min, max)) is Some
}

/// Whether part `i` lists `v`.
pub open spec fn part_lists(parts: Seq<Seq<char>>, i: int, min: u8, max: u8, v: int) -> bool {
    match part_values(parts[i], min, max) {
        Some(s) => s.contains(v),
        None => false,
    }
}

/// Every value that some part lists.
pub open spec fn parts_union(parts: Seq<Seq<char>>, min: u8, max: u8) -> Set<int> {
    Set::new(|v: int| exists|i: int| 0 <= i < parts.len() && #[trigger] part_lists(parts, i, min, max, v))
}

/// The members of `s` among `0..=max`, in increasing order.
pub open spec fn ascending(s: Set<int>, max: u8) -> Seq<u8> {
    Seq::new((max + 1) as nat, |i: int| i as u8).filter(|x: u8| s.contains(x as int))
}

/// The values a field fires on: `*` is the empty list (any value); otherwise
/// the listed values in increasing order, each once; `None` when malformed.
pub open spec fn field_list(f: Seq<char>, min: u8, max: u8) -> Option<Seq<u8>> {
    if f == seq!['*'] {
        Some(Seq::empty())
    } else if parts_ok(split_on(f, ','), min, max) {
        Some(ascending(parts_union(split_on(f, ','), min, max), max))
    } else {
        None
    }
}

/// The values part `p` lists; `None` when malformed.
fn part_marks(p: &Vec<char>, min: u8, max: u8, marks: &mut Vec<bool>) -> (ok: bool)
    requires
        min <= max < 255,
        old(marks)@.len() == max + 1,
    ensures
        final(marks)@.len() == max + 1,
        ok == (part_values(p@, min, max) is Some),
        ok ==> forall|x: int| 0 <= x <= max ==> (#[trigger] final(marks)@[x] <==> old(marks)@[x]
            || part_values(p@, min, max).unwrap().contains(x)),
        ok ==> forall|x: int| #[trigger] part_values(p@, min, max).unwrap().contains(x) ==> 0 <= x <= max,
{
    let ghost m0 = marks@;
    match find_char(p, '/') {
        Some(i) => {
            let base = crate::text::slice_vec(p, 0, i);
            let rest = crate::text::slice_vec(p, i + 1, p.len());
            proof {
                assert(p@.contains('/'));
                assert(base@ =~= p@.take(i as int));
                assert(rest@ =~= p@.skip(i + 1));
            }
            let step = match parse_u8(&rest) {
                Some(s) => s,
                None => return false,
            };
            if step == 0 {
                return false;
            }
            let is_star = base.len() == 1 && base[0] == '*';
            proof {
                if is_star {
                    assert(base@ =~= seq!['*']);
                }
            }
            let start = if is_star {
                min
            } else {
                match parse_u8(&base) {
                    Some(s) => s,
                    None => return false,
                }
            };
            let ghost set = stepped(start as int, step as int, max as int);
            let mut v: u32 = start as u32;
            let ghost mut k: nat = 0;
            while v <= max as u32
                invariant
                    marks@.len() == max + 1,
                    m0.len() == max + 1,
                    max < 255,
                    step > 0,
                    v == start + k * step,
                    v <= max + 255,
                    set == stepped(start as int, step as int, max as int),
                    forall|x: int| 0 <= x <= max ==> (#[trigger] marks@[x] <==> m0[x]
                        || (x < v && exists|j: nat| j < k && x == #[trigger] nth_step(start as int, step as int, j))),
                decreases max + 256 - v,
            {
                marks.set(v as usize, true);
                proof {
                    assert forall|x: int| 0 <= x <= max implies (#[trigger] marks@[x] <==> m0[x]
                        || (x < v + step && exists|j: nat| j < k + 1 && x == #[trigger] nth_step(start as int, step as int, j))) by {
                        if x == v {
                            assert(x == nth_step(start as int, step as int, k));
                        } else if exists|j: nat| j < k + 1 && x == #[trigger] nth_step(start as int, step as int, j) {
                            let j = choose|j: nat| j < k + 1 && x == #[trigger] nth_step(start as int, step as int, j);
                            if j == k {
                                assert(x == v);
                            } else {
                                assert(j * step < k * step) by (nonlinear_arith)
                                    requires j < k, step > 0;
                            }
                        }
                        if x < v && exists|j: nat| j < k && x == #[trigger] nth_step(start as int, step as int, j) {
                            let j = choose|j: nat| j < k && x == #[trigger] nth_step(start as int, step as int, j);
                            assert(x < v + step);
                        }
                    }
                    assert((k + 1) * step == k * step + step) by (nonlinear_arith);
                    k = k + 1;
                }
                v = v + step as u32;
            }
            proof {
                assert forall|x: int| 0 <= x <= max implies (#[trigger] marks@[x] <==> m0[x] || set.contains(x)) by {
                    if set.contains(x) {
                        let j = choose|j: nat| x == #[trigger] nth_step(start as int, step as int, j);
                        if j >= k {
                            assert(j * step >= k * step) by (nonlinear_arith)
                                requires j >= k, step > 0;
                        }
                    }
                }
                assert(part_values(p@, min, max) == Some(set));
            }
            true
        },
        None => {
            match find_char(p, '-') {
                Some(i) => {
                    let lo_s = crate::text::slice_vec(p, 0, i);
                    let hi_s = crate::text::slice_vec(p, i + 1, p.len());
                    proof {
                        assert(!p@.contains('/'));
                        assert(p@.contains('-'));
                        assert(lo_s@ =~= p@.take(i as int));
                        assert(hi_s@ =~= p@.skip(i + 1));
                    }
                    let lo = match parse_u8(&lo_s) {
                        Some(x) => x,
                        None => return false,
                    };
                    let hi = match parse_u8(&hi_s) {
                        Some(x) => x,
                        None => return false,
                    };
                    if lo > hi || lo < min || hi > max {
                        return false;
                    }
                    let mut v: u8 = lo;
                    while v <= hi
                        invariant
                            marks@.len() == max + 1,
                            m0.len() == max + 1,
                            lo <= v <= hi + 1,
                            hi <= max < 255,
                            forall|x: int| 0 <= x <= max ==> (#[trigger] marks@[x] <==> m0[x] || (lo <= x < v)),
                        decreases hi + 1 - v,
                    {
                        marks.set(v as usize, true);
                        v = v + 1;
                    }
                    true
                },
                None => {
                    proof {
                        assert(!p@.contains('/'));
                        assert(!p@.contains('-'));
                    }
                    let x = match parse_u8(p) {
                        Some(x) => x,
                        None => return false,
                    };
                    if x < min || x > max {
                        return false;
                    }
                    marks.set(x as usize, true);
                    proof {
                        assert forall|y: int| 0 <= y <= max implies (#[trigger] marks@[y] <==> m0[y]
                            || set![x as int].contains(y)) by {
                        }
                    }
                    true
                },
            }
        },
    }
}

/// Parse one field of an expression with values in `min..=max`.
#[verifier::spinoff_prover]
#[verifier::rlimit(40)]
fn parse_field(field: &Vec<char>, min: u8, max: u8) -> (r: Result<Vec<u8>, CronError>)
    requires
        min <= max < 255,
    ensures
        field_list(field@, min, max) matches Some(s) ==> (r matches Ok(v) && v@ == s),
        field_list(field@, min, max) is None ==> r == Err::<Vec<u8>, CronError>(CronError::InvalidExpression),
{
    if field.len() == 1 && field[0] == '*' {
        proof {
            assert(field@ =~= seq!['*']);
        }
        return Ok(Vec::new());
    }
    proof {
        if field@ == seq!['*'] {
            assert(field@.len() == 1 && field@[0] == '*');
        }
    }
    let parts = split_char(field, ',');
    let ghost ps = split_on(field@, ',');
    let mut marks: Vec<bool> = Vec::new();
    let mut m: usize = 0;
    while m <= max as usize
        invariant
            m <= max + 1,
            marks@.len() == m,
            forall|x: int| 0 <= x < m ==> !#[trigger] marks@[x],
        decreases max + 1 - m,
    {
        marks.push(false);
        m = m + 1;
    }
    let mut i: usize = 0;
    while i < parts.len()
        invariant
            min <= max < 255,
            field@ != seq!['*'],
            parts@.len() == ps.len(),
            ps == split_on(field@, ','),
            forall|j: int| 0 <= j < parts@.len() ==> #[trigger] parts@[j]@ == ps[j],
            i <= parts@.len(),
            marks@.len() == max + 1,
            forall|j: int| 0 <= j < i ==> (#[trigger] part_values(ps[j], min, max)) is Some,
            forall|x: int| 0 <= x <= max ==> (#[trigger] marks@[x] <==> exists|j: int| 0 <= j < i
                && #[trigger] part_lists(ps, j, min, max, x)),
            forall|x: int, j: int| 0 <= j < i && #[trigger] part_lists(ps, j, min, max, x) ==> 0 <= x <= max,
        decreases parts@.len() - i,
    {
        let ghost m1 = marks@;
        let ok = part_marks(&parts[i], min, max, &mut marks);
        if !ok {
            proof {
                assert(!parts_ok(ps, min, max)) by {
                    assert(part_values(ps[i as int], min, max) is None);
                }
            }
            return Err(CronError::InvalidExpression);
        }
        proof {
            let s_i = part_values(ps[i as int], min, max).unwrap();
            assert forall|x: int| 0 <= x <= max implies (#[trigger] marks@[x] <==> exists|j: int| 0 <= j < i + 1
                && #[trigger] part_lists(ps, j, min, max, x)) by {
                if marks@[x] && !m1[x] {
                    assert(s_i.contains(x));
                    assert(part_lists(ps, i as int, min, max, x));
                }
                if exists|j: int| 0 <= j < i + 1 && #[trigger] part_lists(ps, j, min, max, x) {
                    let j = choose|j: int| 0 <= j < i + 1 && #[trigger] part_lists(ps, j, min, max, x);
                    if j < i {
                        assert(m1[x]);
                    }
                }
            }
            assert forall|x: int, j: int| 0 <= j < i + 1 && #[trigger] part_lists(ps, j, min, max, x) implies 0 <= x <= max by {
                if j == i {
                    assert(s_i.contains(x));
                }
            }
        }
        i = i + 1;
    }
    let ghost u = parts_union(ps, min, max);
    proof {
        assert forall|y: int| 0 <= y <= max implies (#[trigger] marks@[y] <==> u.contains(y)) by {
            if u.contains(y) {
                let j = choose|j: int| 0 <= j < ps.len() && #[trigger] part_lists(ps, j, min, max, y);
                assert(part_lists(ps, j, min, max, y));
            }
        }
    }
    let mut out: Vec<u8> = Vec::new();
    let mut x: u8 = 0;
    let ghost all = Seq::new((max + 1) as nat, |i: int| i as u8);
    let ghost keep = |y: u8| u.contains(y as int);
    proof {
        assert(all.take(0) =~= Seq::<u8>::empty());
        reveal(Seq::filter);
        assert(out@ =~= all.take(0).filter(keep));
    }
    while x <= max
        invariant
            x <= max + 1,
            max < 255,
            marks@.len() == max + 1,
            all == Seq::new((max + 1) as nat, |i: int| i as u8),
            keep == (|y: u8| u.contains(y as int)),
            forall|y: int| 0 <= y <= max ==> (#[trigger] marks@[y] <==> u.contains(y)),
            out@ == all.take(x as int).filter(keep),
        decreases max + 1 - x,
    {
        proof {
            assert(all.take(x + 1) =~= all.take(x as int).push(x));
            all.take(x as int).lemma_filter_push(x, keep);
        }
        if marks[x as usize] {
            out.push(x);
        }
        x = x + 1;
    }
    proof {
        assert(all.take((max + 1) as int) =~= all);
        assert forall|y: int| 0 <= y <= max implies (#[trigger] marks@[y] <==> u.contains(y)) by {}
        assert(parts_ok(ps, min, max));
    }
    Ok(out)
}

// ── Expressions ─────────────────────────────────────────────────────────────

/// The number of characters before the first whitespace of `s`.
pub open spec fn run_len(s: Seq<char>) -> nat
    decreases s.len(),
{
    if s.len() == 0 || is_ws(s[0]) {
        0
    } else {
        1 + run_len(s.drop_first())
    }
}

pub proof fn lemma_run_len(s: Seq<char>)
    ensures
        run_len(s) <= s.len(),
        s.len() > 0 && !is_ws(s[0]) ==> run_len(s) >= 1,
    decreases s.len(),
{
    if s.len() > 0 && !is_ws(s[0]) {
        lemma_run_len(s.drop_first());
    }
}

/// The maximal runs of non-whitespace characters of `s`, in order (what
/// `str::split_whitespace` yields).
pub open spec fn words(s: Seq<char>) -> Seq<Seq<char>>
    decreases s.len(),
{
    if s.len() == 0 {
        Seq::empty()
    } else if is_ws(s[0]) {
        words(s.drop_first())
    } else {
        let n = run_len(s);
        proof {
            lemma_run_len(s);
        }
        seq![s.take(n as int)] + words(s.skip(n as int))
    }
}

/// The maximal runs of non-whitespace characters of `v`.
pub(crate) fn split_words(v: &Vec<char>) -> (r: Vec<Vec<char>>)
    ensures
        piece_views(r@) == words(v@),
{
    let n = v.len();
    let mut out: Vec<Vec<char>> = Vec::new();
    let mut i: usize = 0;
    proof {
        assert(v@.skip(0) =~= v@);
        assert(piece_views(out@) =~= Seq::<Seq<char>>::empty());
    }
    while i < n
        invariant
            n == v@.len(),
            i <= n,
            words(v@) == piece_views(out@) + words(v@.skip(i as int)),
        decreases n - i,
    {
        if crate::text::is_whitespace(v[i]) {
            proof {
                assert(v@.skip(i as int)[0] == v@[i as int]);
                assert(v@.skip(i as int).drop_first() =~= v@.skip(i + 1));
            }
            i = i + 1;
        } else {
            let mut j: usize = i;
            proof {
                assert(v@.skip(i as int).take(0) =~= Seq::<char>::empty());
            }
            while j < n && !crate::text::is_whitespace(v[j])
                invariant
                    n == v@.len(),
                    i <= j <= n,
                    run_len(v@.skip(i as int)) == (j - i) + run_len(v@.skip(j as int)),
                decreases n - j,
            {
                proof {
                    assert(v@.skip(j as int)[0] == v@[j as int]);
                    assert(v@.skip(j as int).drop_first() =~= v@.skip(j + 1));
                }
                j = j + 1;
            }
            proof {
                if j < n {
                    assert(v@.skip(j as int)[0] == v@[j as int]);
                }
                let s = v@.skip(i as int);
                assert(s[0] == v@[i as int]);
                assert(run_len(s) == j - i);
                assert(s.take((j - i) as int) =~= v@.subrange(i as int, j as int));
                assert(s.skip((j - i) as int) =~= v@.skip(j as int));
            }
            let w = crate::text::slice_vec(v, i, j);
            let ghost before = out@;
            out.push(w);
            proof {
                assert(piece_views(out@) =~= piece_views(before).push(w@));
                assert(seq![w@] + words(v@.skip(j as int)) =~= words(v@.skip(i as int)));
                assert(piece_views(before) + words(v@.skip(i as int)) =~= piece_views(out@) + words(v@.skip(j as int)));
            }
            i = j;
        }
    }
    proof {
        assert(v@.skip(n as int) =~= Seq::<char>::empty());
        assert(piece_views(out@) + Seq::<Seq<char>>::empty() =~= piece_views(out@));
    }
    out
}

/// The schedule an expression describes: five fields (minute 0–59, hour 0–23,
/// day of month 1–31, month 1–12, day of week 0–6, Sunday = 0) separated by
/// whitespace; `None` when malformed.
pub open spec fn schedule_of(expr: Seq<char>) -> Option<(Seq<u8>, Seq<u8>, Seq<u8>, Seq<u8>, Seq<u8>)> {
    let f = words(expr);
    if f.len() != 5 {
        None
    } else {
        match (field_list(f[0], 0, 59), field_list(f[1], 0, 23), field_list(f[2], 1, 31),
            field_list(f[3], 1, 12), field_list(f[4], 0, 6)) {
            (Some(a), Some(b), Some(c), Some(d), Some(e)) => Some((a, b, c, d, e)),
            _ => None,
        }
    }
}

/// The five value lists of a schedule.
pub open spec fn schedule_view(s: Schedule) -> (Seq<u8>, Seq<u8>, Seq<u8>, Seq<u8>, Seq<u8>) {
    (s.minutes@, s.hours@, s.days_of_month@, s.months@, s.days_of_week@)
}

/// Parse a five-field cron expression.
pub fn parse_expression(expr: &str) -> (r: Result<Schedule, CronError>)
    ensures
        schedule_of(expr@) matches Some(s) ==> (r matches Ok(x) && schedule_view(x) == s),
        schedule_of(expr@) is None ==> r == Err::<Schedule, CronError>(CronError::InvalidExpression),
{
    let chars = crate::text::chars_of(expr);
    let fields = split_words(&chars);
    proof {
        assert(fields@.len() == words(expr@).len());
    }
    if fields.len() != 5 {
        return Err(CronError::InvalidExpression);
    }
    proof {
        assert forall|i: int| 0 <= i < 5 implies #[trigger] fields@[i]@ == words(expr@)[i] by {
            assert(piece_views(fields@)[i] == fields@[i]@);
        }
    }
    let minutes = parse_field(&fields[0], 0, 59)?;
    let hours = parse_field(&fields[1], 0, 23)?;
    let days_of_month = parse_field(&fields[2], 1, 31)?;
    let months = parse_field(&fields[3], 1, 12)?;
    let days_of_week = parse_field(&fields[4], 0, 6)?;
    Ok(Schedule { minutes, hours, days_of_month, months, days_of_week })
}

/// Parse a five-field cron expression.
pub fn parse(expression: &str) -> (r: Result<Schedule, CronError>)
    ensures
        schedule_of(expression@) matches Some(s) ==> (r matches Ok(x) && schedule_view(x) == s),
        schedule_of(expression@) is None ==> r == Err::<Schedule, CronError>(CronError::InvalidExpression),
{
    parse_expression(expression)
}

// ── Calendar ────────────────────────────────────────────────────────────────

/// A calendar date and time at minute granularity (UTC).
#[derive(Debug, Clone, Copy, PartialEq, Eq, Structural)]
pub struct DateTime {
    pub year: u32,
    pub month: u8,
    pub day: u8,
    pub hour: u8,
    pub minute: u8,
    pub dow: u8,
}

/// The latest instant, in milliseconds since the epoch, that the schedule
/// arithmetic takes (about eleven million years ahead): the first whole minute
/// after it still lies on a day whose count from the epoch fits in 32 bits.
pub const MAX_CRON_MS: u64 = 371_085_174_374_339_999;

/// Whether `y` is a leap year of the proleptic Gregorian calendar.
pub open spec fn leap(y: int) -> bool {
    (y % 4 == 0 && y % 100 != 0) || y % 400 == 0
}

/// The number of days of year `y`.
pub open spec fn year_len(y: int) -> int {
    if leap(y) {
        366
    } else {
        365
    }
}

/// The number of days of month `m` (1–12) of year `y`.
pub open spec fn month_len(m: int, y: int) -> int {
    if m == 1 || m == 3 || m == 5 || m == 7 || m == 8 || m == 10 || m == 12 {
        31
    } else if m == 4 || m == 6 || m == 9 || m == 11 {
        30
    } else if m == 2 {
        if leap(y) {
            29
        } else {
            28
        }
    } else {
        28
    }
}

/// The days from 1 January 1970 to 1 January of year `y`.
pub open spec fn days_before_year(y: int) -> int
    decreases y - 1970,
{
    if y <= 1970 {
        0
    } else {
        days_before_year(y - 1) + year_len(y - 1)
    }
}

/// The days of year `y` before the first of month `m`.
pub open spec fn days_before_month(m: int, y: int) -> int
    decreases m,
{
    if m <= 1 {
        0
    } else {
        days_before_month(m - 1, y) + month_len(m - 1, y)
    }
}

/// The days from 1 January 1970 to the date of `dt`.
pub open spec fn days_of(dt: DateTime) -> int {
    days_before_year(dt.year as int) + days_before_month(dt.month as int, dt.year as int) + dt.day - 1
}

/// The minutes from 1 January 1970 00:00 to `dt`.
pub open spec fn minutes_of(dt: DateTime) -> int {
    days_of(dt) * 1440 + dt.hour * 60 + dt.minute
}

/// Whether `dt` is a real date and time from 1970 on, with its weekday
/// (0 = Sunday; 1 January 1970 was a Thursday).
pub open spec fn valid_dt(dt: DateTime) -> bool {
    &&& dt.year >= 1970
    &&& 1 <= dt.month <= 12
    &&& 1 <= dt.day <= month_len(dt.month as int, dt.year as int)
    &&& dt.hour < 24
    &&& dt.minute < 60
    &&& dt.dow == (days_of(dt) + 4) % 7
}

/// The year holding day `days` counted from 1 January of `y`, and the day within it.
pub open spec fn civil(days: int, y: int) -> (int, int)
    decreases days,
{
    if days < year_len(y) {
        (y, days)
    } else {
        civil(days - year_len(y), y + 1)
    }
}

/// The month holding day `d` of year `y` counted from the first of month `m`,
/// and the day within it (from 0).
pub open spec fn month_split(d: int, m: int, y: int) -> (int, int)
    decreases 12 - m,
{
    if m >= 12 || d < month_len(m, y) {
        (m, d)
    } else {
        month_split(d - month_len(m, y), m + 1, y)
    }
}

/// The date and time `t` minutes after 1 January 1970 00:00.
pub open spec fn dt_of_minute(t: nat) -> DateTime {
    let days = (t / 1440) as int;
    let (y, doy) = civil(days, 1970);
    let (mo, dd) = month_split(doy, 1, y);
    DateTime {
        year: y as u32,
        month: mo as u8,
        day: (dd + 1) as u8,
        hour: ((t / 60) % 24) as u8,
        minute: (t % 60) as u8,
        dow: ((days + 4) % 7) as u8,
    }
}

proof fn lemma_year_len_sum(y: int)
    ensures
        days_before_month(12, y) + month_len(12, y) == year_len(y),
{
    reveal_with_fuel(days_before_month, 13);
}

proof fn lemma_months_fit(m: int, y: int)
    requires
        1 <= m <= 12,
    ensures
        days_before_month(m, y) + month_len(m, y) <= year_len(y),
        days_before_month(m, y) >= 0,
    decreases 12 - m,
{
    if m < 12 {
        lemma_months_fit(m + 1, y);
    } else {
        lemma_year_len_sum(y);
    }
    if m > 1 {
        lemma_month_before_nonneg(m, y);
    }
}

proof fn lemma_month_before_nonneg(m: int, y: int)
    ensures
        days_before_month(m, y) >= 0,
    decreases m,
{
    if m > 1 {
        lemma_month_before_nonneg(m - 1, y);
    }
}

proof fn lemma_months_grow(a: int, b: int, y: int)
    requires
        1 <= a < b,
    ensures
        days_before_month(b, y) >= days_before_month(a, y) + month_len(a, y),
    decreases b - a,
{
    if b > a + 1 {
        lemma_months_grow(a, b - 1, y);
    }
}

proof fn lemma_years_grow(a: int, b: int)
    requires
        1970 <= a < b,
    ensures
        days_before_year(b) >= days_before_year(a) + year_len(a),
    decreases b - a,
{
    if b > a + 1 {
        lemma_years_grow(a, b - 1);
    }
}

proof fn lemma_years_nonneg(y: int)
    ensures
        days_before_year(y) >= 0,
    decreases y - 1970,
{
    if y > 1970 {
        lemma_years_nonneg(y - 1);
    }
}

proof fn lemma_civil(days: int, y: int)
    requires
        days >= 0,
        y >= 1970,
    ensures
        civil(days, y).0 >= y,
        civil(days, y).0 <= y + days,
        civil(days, y).0 <= y + days / 365,
        0 <= civil(days, y).1 < year_len(civil(days, y).0),
        days_before_year(civil(days, y).0) + civil(days, y).1 == days_before_year(y) + days,
    decreases days,
{
    if days >= year_len(y) {
        lemma_civil(days - year_len(y), y + 1);
        vstd::arithmetic::div_mod::lemma_div_is_ordered(days - year_len(y), days - 365, 365);
        vstd::arithmetic::div_mod::lemma_div_plus_one(days - 365, 365);
    }
}

proof fn lemma_month_split(d: int, m: int, y: int)
    requires
        1 <= m <= 12,
        0 <= d,
        d + days_before_month(m, y) < year_len(y),
    ensures
        m <= month_split(d, m, y).0 <= 12,
        0 <= month_split(d, m, y).1 < month_len(month_split(d, m, y).0, y),
        days_before_month(month_split(d, m, y).0, y) + month_split(d, m, y).1 == days_before_month(m, y) + d,
    decreases 12 - m,
{
    if m == 12 {
        lemma_year_len_sum(y);
    } else if d >= month_len(m, y) {
        lemma_month_split(d - month_len(m, y), m + 1, y);
    }
}

/// The date of minute `t` is valid and lies `t` minutes after the epoch.
pub proof fn lemma_dt_of_minute(t: nat)
    requires
        t / 1440 <= 4_300_000_000,
    ensures
        valid_dt(dt_of_minute(t)),
        minutes_of(dt_of_minute(t)) == t,
{
    let days = (t / 1440) as int;
    lemma_civil(days, 1970);
    let (y, doy) = civil(days, 1970);
    lemma_month_split(doy, 1, y);
    let (mo, dd) = month_split(doy, 1, y);
    let dt = dt_of_minute(t);
    assert(dt.year == y && dt.month == mo && dt.day == dd + 1);
    assert(days_of(dt) == days);
    assert(t == days * 1440 + ((t / 60) % 24) * 60 + t % 60) by (nonlinear_arith)
        requires days == t / 1440;
}

/// Two valid dates with the same minute count are the same.
pub proof fn lemma_dt_unique(a: DateTime, b: DateTime)
    requires
        valid_dt(a),
        valid_dt(b),
        minutes_of(a) == minutes_of(b),
    ensures
        a == b,
{
    assert(days_of(a) == days_of(b) && a.hour == b.hour && a.minute == b.minute) by (nonlinear_arith)
        requires
            days_of(a) * 1440 + a.hour * 60 + a.minute == days_of(b) * 1440 + b.hour * 60 + b.minute,
            a.hour < 24, b.hour < 24, a.minute < 60, b.minute < 60;
    lemma_months_fit(a.month as int, a.year as int);
    lemma_months_fit(b.month as int, b.year as int);
    if a.year < b.year {
        lemma_years_grow(a.year as int, b.year as int);
    } else if b.year < a.year {
        lemma_years_grow(b.year as int, a.year as int);
    }
    assert(a.year == b.year);
    if a.month < b.month {
        lemma_months_grow(a.month as int, b.month as int, a.year as int);
    } else if b.month < a.month {
        lemma_months_grow(b.month as int, a.month as int, a.year as int);
    }
}

/// Whether `y` is a leap year.
fn is_leap(y: u32) -> (r: bool)
    ensures
        r == leap(y as int),
{
    (y % 4 == 0 && y % 100 != 0) || y % 400 == 0
}

/// The number of days of year `y`.
fn days_in_year(y: u32) -> (r: u32)
    ensures
        r == year_len(y as int),
{
    if is_leap(y) {
        366
    } else {
        365
    }
}

/// The number of days of month `m` of year `y`.
fn days_in_month(m: u8, y: u32) -> (r: u8)
    ensures
        r == month_len(m as int, y as int),
{
    if m == 1 || m == 3 || m == 5 || m == 7 || m == 8 || m == 10 || m == 12 {
        31
    } else if m == 4 || m == 6 || m == 9 || m == 11 {
        30
    } else if m == 2 {
        if is_leap(y) {
            29
        } else {
            28
        }
    } else {
        28
    }
}

/// The date and time of `ms` milliseconds after the epoch.
pub fn ms_to_dt(ms: u64) -> (r: DateTime)
    requires
        ms <= MAX_CRON_MS + 21_038_400 * 60_000,
    ensures
        r == dt_of_minute((ms / 60_000) as nat),
        valid_dt(r),
        minutes_of(r) == ms / 60_000,
{
    let secs = ms / 1000;
    let total_minutes = secs / 60;
    let minute = (total_minutes % 60) as u8;
    let total_hours = total_minutes / 60;
    let hour = (total_hours % 24) as u8;
    let days0 = total_hours / 24;
    let t: Ghost<nat> = Ghost((ms / 60_000) as nat);
    assert(total_minutes == ms / 60_000) by (nonlinear_arith)
        requires secs == ms / 1000, total_minutes == secs / 60;
    assert(days0 == t@ / 1440) by (nonlinear_arith)
        requires total_hours == total_minutes / 60, days0 == total_hours / 24, total_minutes == t@;
    assert(total_hours % 24 == (t@ / 60) % 24);
    assert(days0 <= 4_300_000_000) by (nonlinear_arith)
        requires days0 == t@ / 1440, t@ == ms / 60_000, ms <= MAX_CRON_MS + 21_038_400 * 60_000;
    let mut total_days: u64 = days0;
    let dow = ((total_days + 4) % 7) as u8;
    let mut year: u32 = 1970;
    while total_days >= days_in_year(year) as u64
        invariant
            days0 <= 4_300_000_000,
            1970 <= year,
            (year - 1970) * 365 <= days0 - total_days,
            total_days <= days0,
            civil(days0 as int, 1970) == civil(total_days as int, year as int),
        decreases total_days,
    {
        total_days = total_days - days_in_year(year) as u64;
        year = year + 1;
    }
    let ghost doy = total_days as int;
    proof {
        lemma_civil(days0 as int, 1970);
        assert(civil(days0 as int, 1970) == (year as int, doy));
        assert(days_before_month(1, year as int) == 0);
    }
    let mut month: u8 = 1;
    loop
        invariant
            1 <= month <= 12,
            0 <= doy < year_len(year as int),
            total_days + days_before_month(month as int, year as int) == doy,
            month_split(doy, 1, year as int) == month_split(total_days as int, month as int, year as int),
        ensures
            1 <= month <= 12,
            total_days < month_len(month as int, year as int),
            month_split(doy, 1, year as int) == (month as int, total_days as int),
        decreases 12 - month,
    {
        let d = days_in_month(month, year) as u64;
        if total_days < d {
            break;
        }
        proof {
            if month == 12 {
                lemma_year_len_sum(year as int);
            }
        }
        total_days = total_days - d;
        month = month + 1;
    }
    proof {
        lemma_dt_of_minute(t@);
    }
    let day = (total_days + 1) as u8;
    proof {
        lemma_months_fit(month as int, year as int);
    }
    DateTime { year, month, day, hour, minute, dow }
}

/// The milliseconds from the epoch to `dt`.
pub fn dt_to_ms(dt: &DateTime) -> (r: u64)
    requires
        valid_dt(*dt),
        days_of(*dt) <= 4_300_000_000,
    ensures
        r == minutes_of(*dt) * 60_000,
{
    let ghost target = days_of(*dt);
    proof {
        lemma_months_fit(dt.month as int, dt.year as int);
        lemma_years_nonneg(dt.year as int);
    }
    let mut days: u64 = 0;
    let mut y: u32 = 1970;
    while y < dt.year
        invariant
            1970 <= y <= dt.year,
            days == days_before_year(y as int),
            days_before_year(dt.year as int) <= target,
            target <= 4_300_000_000,
        decreases dt.year - y,
    {
        proof {
            lemma_years_grow(y as int, dt.year as int);
        }
        days = days + days_in_year(y) as u64;
        y = y + 1;
    }
    let mut m: u8 = 1;
    while m < dt.month
        invariant
            1 <= m <= dt.month <= 12,
            days == days_before_year(dt.year as int) + days_before_month(m as int, dt.year as int),
            days_before_year(dt.year as int) + days_before_month(dt.month as int, dt.year as int) <= target,
            target <= 4_300_000_000,
        decreases dt.month - m,
    {
        proof {
            lemma_months_grow(m as int, dt.month as int, dt.year as int);
        }
        days = days + days_in_month(m, dt.year) as u64;
        m = m + 1;
    }
    days = days + (dt.day - 1) as u64;
    (days * 86400 + dt.hour as u64 * 3600 + dt.minute as u64 * 60) * 1000
}

/// The weekday after weekday `w` of day `d`.
proof fn lemma_next_dow(w: int, d: int)
    requires
        d >= 0,
        w == (d + 4) % 7,
    ensures
        (w + 1) % 7 == (d + 1 + 4) % 7,
{
}

/// `dt` one minute later.
#[verifier::spinoff_prover]
fn step_minute(dt: DateTime) -> (r: DateTime)
    requires
        valid_dt(dt),
        dt.year < u32::MAX,
    ensures
        valid_dt(r),
        minutes_of(r) == minutes_of(dt) + 1,
{
    let ghost days = days_of(dt);
    proof {
        lemma_years_nonneg(dt.year as int);
        lemma_month_before_nonneg(dt.month as int, dt.year as int);
    }
    if dt.minute < 59 {
        let r = DateTime { minute: dt.minute + 1, ..dt };
        assert(days_of(r) == days);
        return r;
    }
    if dt.hour < 23 {
        let r = DateTime { minute: 0, hour: dt.hour + 1, ..dt };
        assert(days_of(r) == days);
        return r;
    }
    let dow = (dt.dow + 1) % 7;
    proof {
        lemma_next_dow(dt.dow as int, days);
    }
    if dt.day < days_in_month(dt.month, dt.year) {
        let r = DateTime { minute: 0, hour: 0, day: dt.day + 1, dow, ..dt };
        assert(days_of(r) == days + 1);
        return r;
    }
    if dt.month < 12 {
        let r = DateTime { minute: 0, hour: 0, day: 1, month: dt.month + 1, dow, ..dt };
        assert(days_before_month(r.month as int, r.year as int)
            == days_before_month(dt.month as int, dt.year as int) + month_len(dt.month as int, dt.year as int));
        assert(days_of(r) == days + 1);
        return r;
    }
    let r = DateTime { year: dt.year + 1, month: 1, day: 1, hour: 0, minute: 0, dow };
    proof {
        lemma_year_len_sum(dt.year as int);
        assert(days_before_year(r.year as int) == days_before_year(dt.year as int) + year_len(dt.year as int));
        assert(days_before_month(1, r.year as int) == 0);
        assert(days_of(r) == days + 1);
    }
    r
}

/// The minute after minute `t` is the date after the date of `t`.
proof fn lemma_next_minute(t: nat)
    requires
        (t + 1) / 1440 <= 4_300_000_000,
    ensures
        dt_of_minute(t).year < u32::MAX,
        valid_dt(dt_of_minute(t)),
{
    lemma_dt_of_minute(t);
    lemma_civil((t / 1440) as int, 1970);
}

/// Whether `v` is a wildcard or lists `x`.
pub open spec fn field_fires(v: Seq<u8>, x: u8) -> bool {
    v.len() == 0 || v.contains(x)
}

/// Whether schedule `s` fires at `dt`.
pub open spec fn fires(s: (Seq<u8>, Seq<u8>, Seq<u8>, Seq<u8>, Seq<u8>), dt: DateTime) -> bool {
    &&& field_fires(s.0, dt.minute)
    &&& field_fires(s.1, dt.hour)
    &&& field_fires(s.3, dt.month)
    &&& field_fires(s.4, dt.dow)
    &&& field_fires(s.2, dt.day)
}

/// Whether the date of `dt` (month, day of month, weekday) suits schedule `s`.
pub open spec fn date_fires(s: (Seq<u8>, Seq<u8>, Seq<u8>, Seq<u8>, Seq<u8>), dt: DateTime) -> bool {
    &&& field_fires(s.3, dt.month)
    &&& field_fires(s.4, dt.dow)
    &&& field_fires(s.2, dt.day)
}

/// Whether `values` is a wildcard or lists `v`.
fn field_matches(values: &Vec<u8>, v: u8) -> (r: bool)
    ensures
        r == field_fires(values@, v),
{
    if values.len() == 0 {
        return true;
    }
    let mut i: usize = 0;
    while i < values.len()
        invariant
            i <= values@.len(),
            forall|j: int| 0 <= j < i ==> values@[j] != v,
        decreases values@.len() - i,
    {
        if values[i] == v {
            proof {
                assert(values@.contains(v));
            }
            return true;
        }
        i = i + 1;
    }
    false
}

/// Whether `s` fires at `dt`.
fn schedule_matches(s: &Schedule, dt: &DateTime) -> (r: bool)
    ensures
        r == fires(schedule_view(*s), *dt),
{
    field_matches(&s.minutes, dt.minute) && field_matches(&s.hours, dt.hour) && field_matches(&s.months, dt.month)
        && field_matches(&s.days_of_week, dt.dow) && (s.days_of_month.len() == 0 || field_matches(&s.days_of_month, dt.day))
}

/// Whether the date of `dt` suits `s`.
fn date_matches(s: &Schedule, dt: &DateTime) -> (r: bool)
    ensures
        r == date_fires(schedule_view(*s), *dt),
{
    field_matches(&s.months, dt.month) && field_matches(&s.days_of_week, dt.dow) && field_matches(&s.days_of_month, dt.day)
}

/// Minute `b` lies on the same day as minute `a` when it comes before the
/// midnight after `a`.
proof fn lemma_same_day(a: nat, b: nat)
    requires
        a <= b < a + (1440 - a % 1440),
    ensures
        b / 1440 == a / 1440,
{
    vstd::arithmetic::div_mod::lemma_fundamental_div_mod(a as int, 1440);
    vstd::arithmetic::div_mod::lemma_fundamental_div_mod_converse(b as int, 1440, (a / 1440) as int, (a % 1440 + (b - a)) as int);
}

/// A stretch of minutes of one day whose date does not suit `s` holds no
/// firing: the scan passes over it.
proof fn lemma_scan_skip(s: (Seq<u8>, Seq<u8>, Seq<u8>, Seq<u8>, Seq<u8>), first: nat, k: nat, k2: nat)
    requires
        k <= k2,
        forall|m: nat| k <= m < k2 ==> #[trigger] ((first + m) / 1440) == (first + k) / 1440,
        !date_fires(s, dt_of_minute(first + k)),
    ensures
        scan(s, first, k) == scan(s, first, k2),
    decreases k2 - k,
{
    if k < k2 {
        assert(((first + k) / 1440) == (first + k) / 1440);
        assert(!fires(s, dt_of_minute(first + k)));
        if k + 1 < k2 {
            assert(((first + (k + 1)) / 1440) == (first + k) / 1440);
            assert(dt_of_minute(first + k + 1).month == dt_of_minute(first + k).month);
            assert(dt_of_minute(first + k + 1).day == dt_of_minute(first + k).day);
            assert(dt_of_minute(first + k + 1).dow == dt_of_minute(first + k).dow);
        }
        if k + 1 < k2 {
            lemma_scan_skip(s, first, k + 1, k2);
        }
        if k < SEARCH_MINUTES {
            assert(scan(s, first, k) == scan(s, first, k + 1));
        }
    }
}

/// How many minutes ahead `next_after` looks: 14 610 days, about forty years.
/// Two dates that agree in month, day of month and weekday are never further
/// apart than that in the Gregorian calendar (29 February on a given weekday
/// is the longest wait), so a schedule that fires at all fires within it.
pub const SEARCH_MINUTES: u32 = 21_038_400;

/// The first whole minute strictly after `after_ms`.
pub open spec fn first_minute(after_ms: u64) -> nat {
    (after_ms / 60_000 + 1) as nat
}

/// The first offset from `k` on, within the search window, of a minute
/// (counted from `first`) at which `s` fires.
pub open spec fn scan(s: (Seq<u8>, Seq<u8>, Seq<u8>, Seq<u8>, Seq<u8>), first: nat, k: nat) -> Option<nat>
    decreases SEARCH_MINUTES - k,
{
    if k >= SEARCH_MINUTES {
        None
    } else if fires(s, dt_of_minute(first + k)) {
        Some(k)
    } else {
        scan(s, first, k + 1)
    }
}

/// The first minute strictly after `after_ms`, within `SEARCH_MINUTES` minutes, at which
/// `s` fires, in milliseconds.
pub open spec fn next_fire(s: (Seq<u8>, Seq<u8>, Seq<u8>, Seq<u8>, Seq<u8>), after_ms: u64) -> Option<u64> {
    match scan(s, first_minute(after_ms), 0) {
        Some(k) => Some(((first_minute(after_ms) + k) * 60_000) as u64),
        None => None,
    }
}

/// The first firing time of `s` strictly after `after_ms`, at minute granularity,
/// looking at most `SEARCH_MINUTES` minutes ahead.
pub fn next_after(s: &Schedule, after_ms: u64) -> (r: Option<u64>)
    requires
        after_ms <= MAX_CRON_MS,
    ensures
        r == next_fire(schedule_view(*s), after_ms),
{
    let start_minute: u64 = after_ms / 60_000 + 1;
    let start_ms = start_minute * 60_000;
    let ghost first = first_minute(after_ms);
    assert(start_ms / 60_000 == first);
    let mut dt = ms_to_dt(start_ms);
    let mut k: u32 = 0;
    while k < SEARCH_MINUTES
        invariant
            after_ms <= MAX_CRON_MS,
            first == first_minute(after_ms),
            start_minute == first,
            k <= SEARCH_MINUTES,
            dt == dt_of_minute(first + k as nat),
            valid_dt(dt),
            minutes_of(dt) == first + k,
            scan(schedule_view(*s), first, 0) == scan(schedule_view(*s), first, k as nat),
        decreases SEARCH_MINUTES - k,
    {
        if schedule_matches(s, &dt) {
            let t = dt_to_ms(&dt);
            return Some(t);
        }
        if !date_matches(s, &dt) {
            let here: u64 = start_minute + k as u64;
            let step: u32 = (1440 - here % 1440) as u32;
            proof {
                assert forall|m: nat| k <= m < k + step implies #[trigger] ((first + m) / 1440) == (first + k) / 1440 by {
                    lemma_same_day(first + k as nat, first + m);
                }
            }
            if step >= SEARCH_MINUTES - k {
                proof {
                    lemma_scan_skip(schedule_view(*s), first, k as nat, SEARCH_MINUTES as nat);
                }
                return None;
            }
            let k2: u32 = k + step;
            proof {
                lemma_scan_skip(schedule_view(*s), first, k as nat, k2 as nat);
                assert((start_minute + k2) * 60_000 <= MAX_CRON_MS + 21_038_400 * 60_000) by (nonlinear_arith)
                    requires start_minute == after_ms / 60_000 + 1, after_ms <= MAX_CRON_MS, k2 < SEARCH_MINUTES;
                assert(((start_minute + k2) * 60_000) / 60_000 == start_minute + k2) by (nonlinear_arith);
            }
            dt = ms_to_dt((start_minute + k2 as u64) * 60_000);
            k = k2;
        } else {
            proof {
                lemma_next_minute(first + k as nat);
            }
            let next = step_minute(dt);
            proof {
                lemma_dt_of_minute(first + k as nat + 1);
                lemma_dt_unique(next, dt_of_minute(first + k as nat + 1));
            }
            dt = next;
            k = k + 1;
        }
    }
    None
}

proof fn lemma_scan(s: (Seq<u8>, Seq<u8>, Seq<u8>, Seq<u8>, Seq<u8>), first: nat, k: nat)
    requires
        forall|j: nat| j < k ==> !fires(s, #[trigger] dt_of_minute(first + j)),
    ensures
        scan(s, first, k) matches Some(m) ==> k <= m < SEARCH_MINUTES && fires(s, dt_of_minute(first + m))
            && forall|j: nat| j < m ==> !fires(s, #[trigger] dt_of_minute(first + j)),
        scan(s, first, k) is None ==> forall|j: nat| j < SEARCH_MINUTES ==> !fires(s, #[trigger] dt_of_minute(first + j)),
    decreases SEARCH_MINUTES - k,
{
    if k < SEARCH_MINUTES && !fires(s, dt_of_minute(first + k)) {
        assert forall|j: nat| j < k + 1 implies !fires(s, #[trigger] dt_of_minute(first + j)) by {
            if j == k {
            }
        }
        lemma_scan(s, first, k + 1);
    }
}

/// What `next_after` finds is a whole minute strictly after `after_ms`, within
/// `SEARCH_MINUTES` minutes, at which the schedule fires, and no earlier minute
/// after `after_ms` fires; when it finds nothing, no minute of that window fires.
pub proof fn law_next_fire_is_first(s: (Seq<u8>, Seq<u8>, Seq<u8>, Seq<u8>, Seq<u8>), after_ms: u64)
    requires
        after_ms <= MAX_CRON_MS,
    ensures
        next_fire(s, after_ms) matches Some(t) ==> t > after_ms && t % 60_000 == 0
            && t < after_ms + 60_000 * (SEARCH_MINUTES + 1)
            && fires(s, dt_of_minute((t / 60_000) as nat))
            && forall|m: nat| after_ms < m * 60_000 < t ==> !fires(s, #[trigger] dt_of_minute(m)),
        next_fire(s, after_ms) is None ==> forall|m: nat| after_ms < m * 60_000 && m < first_minute(after_ms) + SEARCH_MINUTES
            ==> !fires(s, #[trigger] dt_of_minute(m)),
{
    let first = first_minute(after_ms);
    lemma_scan(s, first, 0);
    match scan(s, first, 0) {
        Some(k) => {
            let t = ((first + k) * 60_000) as u64;
            assert((t / 60_000) as nat == first + k);
            assert forall|m: nat| after_ms < m * 60_000 < t implies !fires(s, #[trigger] dt_of_minute(m)) by {
                assert(m >= first) by (nonlinear_arith)
                    requires after_ms < m * 60_000, first == after_ms / 60_000 + 1;
                assert(m < first + k) by (nonlinear_arith)
                    requires m * 60_000 < (first + k) * 60_000;
                let j = (m - first) as nat;
                assert(dt_of_minute(first + j) == dt_of_minute(m));
            }
            assert(t > after_ms) by (nonlinear_arith)
                requires t == (first + k) * 60_000, first == after_ms / 60_000 + 1;
            assert(t < after_ms + 60_000 * (SEARCH_MINUTES + 1)) by (nonlinear_arith)
                requires t == (first + k) * 60_000, first == after_ms / 60_000 + 1, k < SEARCH_MINUTES;
        },
        None => {
            assert forall|m: nat| after_ms < m * 60_000 && m < first + SEARCH_MINUTES implies !fires(s, #[trigger] dt_of_minute(m)) by {
                assert(m >= first) by (nonlinear_arith)
                    requires after_ms < m * 60_000, first == after_ms / 60_000 + 1;
                let j = (m - first) as nat;
                assert(dt_of_minute(first + j) == dt_of_minute(m));
            }
        },
    }
}

/// Reading an instant as a date and back gives the instant rounded down to
/// its minute.
pub proof fn law_calendar_roundtrip(ms: u64)
    requires
        ms <= MAX_CRON_MS,
    ensures
        valid_dt(dt_of_minute((ms / 60_000) as nat)),
        minutes_of(dt_of_minute((ms / 60_000) as nat)) * 60_000 == ms - ms % 60_000,
{
    assert((ms / 60_000) / 1440 <= 4_300_000_000) by (nonlinear_arith)
        requires ms <= MAX_CRON_MS;
    lemma_dt_of_minute((ms / 60_000) as nat);
}

// ── Task registry ───────────────────────────────────────────────────────────

/// Every task, by trimmed name.
pub struct CronState {
    pub tasks: KeyedStore<Task>,
}

impl CronState {
    /// The store is well formed.
    pub open spec fn wf(&self) -> bool {
        self.tasks.wf()
    }

    /// No tasks.
    pub fn new() -> (r: Self)
        ensures
            r.wf(),
            r.tasks@ == Map::<Seq<char>, Task>::empty(),
    {
        CronState { tasks: KeyedStore::new() }
    }
}

/// Whether two tasks hold the same values.
pub open spec fn same_task(a: Task, b: Task) -> bool {
    &&& a.name@ == b.name@
    &&& a.expression@ == b.expression@
    &&& schedule_view(a.schedule) == schedule_view(b.schedule)
    &&& a.enabled == b.enabled
    &&& a.last_run_ms == b.last_run_ms
    &&& a.next_run_ms == b.next_run_ms
    &&& a.run_count == b.run_count
}

/// Whether task `t` is due at `now_ms`: enabled, with a next run not after `now_ms`.
pub open spec fn due_at(t: Task, now_ms: u64) -> bool {
    t.enabled && (t.next_run_ms matches Some(n) && now_ms >= n)
}

/// A copy of a byte list.
fn copy_u8s(v: &Vec<u8>) -> (r: Vec<u8>)
    ensures
        r@ == v@,
{
    crate::text::copy_bytes(v)
}

/// A copy of a schedule.
fn copy_schedule(s: &Schedule) -> (r: Schedule)
    ensures
        schedule_view(r) == schedule_view(*s),
{
    Schedule {
        minutes: copy_u8s(&s.minutes),
        hours: copy_u8s(&s.hours),
        days_of_month: copy_u8s(&s.days_of_month),
        months: copy_u8s(&s.months),
        days_of_week: copy_u8s(&s.days_of_week),
    }
}

/// A copy of a task.
fn copy_task(t: &Task) -> (r: Task)
    ensures
        same_task(r, *t),
{
    Task {
        name: t.name.clone(),
        expression: t.expression.clone(),
        schedule: copy_schedule(&t.schedule),
        enabled: t.enabled,
        last_run_ms: t.last_run_ms,
        next_run_ms: t.next_run_ms,
        run_count: t.run_count,
    }
}

/// The trimmed name, when it is not blank.
fn validate_name(name: &str) -> (r: Result<String, CronError>)
    ensures
        trim(name@).len() == 0 ==> r == Err::<String, CronError>(CronError::InvalidName),
        trim(name@).len() != 0 ==> (r matches Ok(n) && n@ == trim(name@)),
{
    let t = crate::text::trimmed(name);
    if t.len() == 0 {
        return Err(CronError::InvalidName);
    }
    Ok(crate::text::string_from_chars(t.as_slice()))
}

/// Register task `name` running on `expression`; its first run is the first
/// firing minute from `now_ms` on.
pub fn register(state: &mut CronState, name: &str, expression: &str, now_ms: u64) -> (r: Result<(), CronError>)
    requires
        old(state).wf(),
        now_ms <= MAX_CRON_MS,
    ensures
        final(state).wf(),
        trim(name@).len() == 0 ==> r == Err::<(), CronError>(CronError::InvalidName),
        trim(name@).len() != 0 && schedule_of(expression@) is None ==> r == Err::<(), CronError>(CronError::InvalidExpression),
        trim(name@).len() != 0 && schedule_of(expression@) is Some && old(state).tasks@.contains_key(trim(name@))
            ==> r == Err::<(), CronError>(CronError::DuplicateTask),
        r is Err ==> final(state).tasks@ == old(state).tasks@,
        trim(name@).len() != 0 && schedule_of(expression@) is Some && !old(state).tasks@.contains_key(trim(name@)) ==> {
            let t = final(state).tasks@[trim(name@)];
            let sc = schedule_of(expression@).unwrap();
            &&& r is Ok
            &&& final(state).tasks@.dom() == old(state).tasks@.dom().insert(trim(name@))
            &&& forall|k: Seq<char>| k != trim(name@) && #[trigger] old(state).tasks@.contains_key(k)
                ==> final(state).tasks@[k] == old(state).tasks@[k]
            &&& t.name@ == trim(name@) && t.expression@ == expression@ && schedule_view(t.schedule) == sc
            &&& t.enabled && t.last_run_ms is None && t.run_count == 0
            &&& t.next_run_ms == next_fire(sc, if now_ms == 0 { 0u64 } else { (now_ms - 1) as u64 })
        },
{
    let n = validate_name(name)?;
    let schedule = parse_expression(expression)?;
    let next = next_after(&schedule, now_ms.saturating_sub(1));
    if state.tasks.contains(&n) {
        return Err(CronError::DuplicateTask);
    }
    let t = Task {
        name: n.clone(),
        expression: crate::text::owned(expression),
        schedule,
        enabled: true,
        last_run_ms: None,
        next_run_ms: next,
        run_count: 0,
    };
    state.tasks.insert(n, t);
    Ok(())
}

/// The first run that `register` gives a task at `now_ms` (what `next_after`
/// finds from the minute before) is the first minute from `now_ms` on at which
/// its schedule fires: that minute fires and no earlier one from `now_ms` on
/// does; when there is none, no minute of the search window fires.
pub proof fn law_register_first_run(sc: (Seq<u8>, Seq<u8>, Seq<u8>, Seq<u8>, Seq<u8>), now_ms: u64)
    requires
        1 <= now_ms <= MAX_CRON_MS,
    ensures
        next_fire(sc, (now_ms - 1) as u64) matches Some(t) ==> now_ms <= t && t % 60_000 == 0
            && fires(sc, dt_of_minute((t / 60_000) as nat))
            && forall|m: nat| now_ms <= m * 60_000 < t ==> !fires(sc, #[trigger] dt_of_minute(m)),
        next_fire(sc, (now_ms - 1) as u64) is None ==> forall|m: nat| now_ms <= m * 60_000
            && m < first_minute((now_ms - 1) as u64) + SEARCH_MINUTES ==> !fires(sc, #[trigger] dt_of_minute(m)),
{
    law_next_fire_is_first(sc, (now_ms - 1) as u64);
}

/// Whether task `name` is due at `now_ms`.
pub fn is_due(state: &CronState, name: &str, now_ms: u64) -> (r: Result<bool, CronError>)
    requires
        state.wf(),
    ensures
        trim(name@).len() == 0 ==> r == Err::<bool, CronError>(CronError::InvalidName),
        trim(name@).len() != 0 && !state.tasks@.contains_key(trim(name@)) ==> r == Err::<bool, CronError>(CronError::NotFound),
        trim(name@).len() != 0 && state.tasks@.contains_key(trim(name@))
            ==> r == Ok::<bool, CronError>(due_at(state.tasks@[trim(name@)], now_ms)),
{
    let n = validate_name(name)?;
    match state.tasks.get(&n) {
        Some(t) => {
            if !t.enabled {
                return Ok(false);
            }
            match t.next_run_ms {
                Some(next) => Ok(now_ms >= next),
                None => Ok(false),
            }
        },
        None => Err(CronError::NotFound),
    }
}

/// Record a run of task `name` at `now_ms` and schedule the next one.
pub fn tick(state: &mut CronState, name: &str, now_ms: u64) -> (r: Result<(), CronError>)
    requires
        old(state).wf(),
        now_ms <= MAX_CRON_MS,
        old(state).tasks@.contains_key(trim(name@)) ==> old(state).tasks@[trim(name@)].run_count < u64::MAX,
    ensures
        final(state).wf(),
        trim(name@).len() == 0 ==> r == Err::<(), CronError>(CronError::InvalidName),
        trim(name@).len() != 0 && !old(state).tasks@.contains_key(trim(name@)) ==> r == Err::<(), CronError>(CronError::NotFound),
        r is Err ==> final(state).tasks@ == old(state).tasks@,
        trim(name@).len() != 0 && old(state).tasks@.contains_key(trim(name@)) ==> {
            let before = old(state).tasks@[trim(name@)];
            let after = final(state).tasks@[trim(name@)];
            &&& r is Ok
            &&& final(state).tasks@.dom() == old(state).tasks@.dom()
            &&& forall|k: Seq<char>| k != trim(name@) && #[trigger] old(state).tasks@.contains_key(k)
                ==> final(state).tasks@[k] == old(state).tasks@[k]
            &&& after.name == before.name && after.expression == before.expression && after.schedule == before.schedule
            &&& after.enabled == before.enabled
            &&& after.last_run_ms == Some(now_ms)
            &&& after.run_count == before.run_count + 1
            &&& after.next_run_ms == next_fire(schedule_view(before.schedule), now_ms)
        },
{
    let n = validate_name(name)?;
    let i = match state.tasks.find(&n) {
        Some(i) => i,
        None => return Err(CronError::NotFound),
    };
    let (k, mut t) = state.tasks.take_at(i);
    t.last_run_ms = Some(now_ms);
    t.run_count = t.run_count + 1;
    t.next_run_ms = next_after(&t.schedule, now_ms);
    state.tasks.restore_at(i, k, t);
    Ok(())
}

/// The names of a list of tasks.
pub open spec fn task_names(v: Seq<Task>) -> Seq<Seq<char>> {
    v.map_values(|t: Task| t.name@)
}

/// Copies of the tasks due at `now_ms`, in registration order.
pub fn due_tasks(state: &CronState, now_ms: u64) -> (r: Result<Vec<Task>, CronError>)
    requires
        state.wf(),
    ensures
        r matches Ok(v) && v@.len() == keys_where(state.tasks.entries(), |t: Task| due_at(t, now_ms)).len()
            && forall|i: int| 0 <= i < v@.len() ==> {
                let k = keys_where(state.tasks.entries(), |t: Task| due_at(t, now_ms))[i];
                state.tasks@.contains_key(k) && same_task(#[trigger] v@[i], state.tasks@[k])
            },
{
    let ghost p = |t: Task| due_at(t, now_ms);
    let n = state.tasks.len();
    let mut v: Vec<Task> = Vec::new();
    let mut i: usize = 0;
    proof {
        assert(state.tasks.entries().take(0) =~= Seq::<(String, Task)>::empty());
    }
    while i < n
        invariant
            state.wf(),
            n == state.tasks.entries().len(),
            i <= n,
            p == (|t: Task| due_at(t, now_ms)),
            v@.len() == keys_where(state.tasks.entries().take(i as int), p).len(),
            forall|j: int| 0 <= j < v@.len() ==>
                same_task(#[trigger] v@[j], state.tasks@[keys_where(state.tasks.entries().take(i as int), p)[j]]),
        decreases n - i,
    {
        proof {
            lemma_keys_where_step(state.tasks.entries(), p, i as int);
        }
        let (k, t) = state.tasks.entry_at(i);
        let due = t.enabled && match t.next_run_ms {
            Some(next) => now_ms >= next,
            None => false,
        };
        let ghost kw0 = keys_where(state.tasks.entries().take(i as int), p);
        let ghost kw1 = keys_where(state.tasks.entries().take(i + 1), p);
        proof {
            assert(state.tasks.entries()[i as int].1 == *t);
            assert(due == p(*t));
        }
        if due {
            let c = copy_task(t);
            let ghost v0 = v@;
            v.push(c);
            proof {
                assert(kw1 == kw0.push(k@));
                assert forall|j: int| 0 <= j < v@.len() implies same_task(#[trigger] v@[j], state.tasks@[kw1[j]]) by {
                    if j < v0.len() {
                        assert(v@[j] == v0[j]);
                        assert(kw1[j] == kw0[j]);
                    } else {
                        assert(kw1[j] == k@);
                    }
                }
            }
        } else {
            proof {
                assert(kw1 == kw0);
            }
        }
        i = i + 1;
    }
    proof {
        assert(state.tasks.entries().take(n as int) =~= state.tasks.entries());
        let kw = keys_where(state.tasks.entries(), p);
        assert(kw == keys_where(state.tasks.entries().take(n as int), p));
        lemma_keys_where(state.tasks.entries(), p);
        assert forall|j: int| 0 <= j < v@.len() implies state.tasks@.contains_key(#[trigger] kw[j]) by {
            assert(kw.contains(kw[j]));
        }
    }
    Ok(v)
}

/// Copy of task `name`.
pub fn get_task(state: &CronState, name: &str) -> (r: Result<Task, CronError>)
    requires
        state.wf(),
    ensures
        trim(name@).len() == 0 ==> r == Err::<Task, CronError>(CronError::InvalidName),
        trim(name@).len() != 0 && !state.tasks@.contains_key(trim(name@)) ==> r == Err::<Task, CronError>(CronError::NotFound),
        trim(name@).len() != 0 && state.tasks@.contains_key(trim(name@))
            ==> (r matches Ok(t) && same_task(t, state.tasks@[trim(name@)])),
{
    let n = validate_name(name)?;
    match state.tasks.get(&n) {
        Some(t) => Ok(copy_task(t)),
        None => Err(CronError::NotFound),
    }
}

/// Copies of every task, in registration order.
pub fn list_tasks(state: &CronState) -> (r: Result<Vec<Task>, CronError>)
    requires
        state.wf(),
    ensures
        r matches Ok(v) && v@.len() == state.tasks.key_order().len()
            && forall|i: int| 0 <= i < v@.len() ==> state.tasks@.contains_key(state.tasks.key_order()[i])
                && same_task(#[trigger] v@[i], state.tasks@[state.tasks.key_order()[i]]),
{
    let n = state.tasks.len();
    let mut v: Vec<Task> = Vec::new();
    let mut i: usize = 0;
    while i < n
        invariant
            state.wf(),
            n == state.tasks.entries().len(),
            i <= n,
            v@.len() == i,
            forall|j: int| 0 <= j < i ==> state.tasks@.contains_key(state.tasks.key_order()[j])
                && same_task(#[trigger] v@[j], state.tasks@[state.tasks.key_order()[j]]),
        decreases n - i,
    {
        let (k, t) = state.tasks.entry_at(i);
        proof {
            assert(state.tasks.key_order()[i as int] == k@);
        }
        v.push(copy_task(t));
        i = i + 1;
    }
    Ok(v)
}

/// Enable or disable task `name`.
pub fn set_enabled(state: &mut CronState, name: &str, enabled: bool) -> (r: Result<(), CronError>)
    requires
        old(state).wf(),
    ensures
        final(state).wf(),
        trim(name@).len() == 0 ==> r == Err::<(), CronError>(CronError::InvalidName),
        trim(name@).len() != 0 && !old(state).tasks@.contains_key(trim(name@)) ==> r == Err::<(), CronError>(CronError::NotFound),
        r is Err ==> final(state).tasks@ == old(state).tasks@,
        trim(name@).len() != 0 && old(state).tasks@.contains_key(trim(name@)) ==> r is Ok
            && final(state).tasks@ == old(state).tasks@.insert(trim(name@), (Task {
                enabled: enabled,
                ..old(state).tasks@[trim(name@)]
            })),
{
    let n = validate_name(name)?;
    let i = match state.tasks.find(&n) {
        Some(i) => i,
        None => return Err(CronError::NotFound),
    };
    let (k, mut t) = state.tasks.take_at(i);
    t.enabled = enabled;
    state.tasks.restore_at(i, k, t);
    proof {
        assert(state.tasks@ =~= old(state).tasks@.insert(trim(name@), (Task {
            enabled: enabled,
            ..old(state).tasks@[trim(name@)]
        })));
    }
    Ok(())
}

/// Remove task `name`.
pub fn deregister(state: &mut CronState, name: &str) -> (r: Result<(), CronError>)
    requires
        old(state).wf(),
    ensures
        final(state).wf(),
        trim(name@).len() == 0 ==> r == Err::<(), CronError>(CronError::InvalidName),
        trim(name@).len() != 0 && !old(state).tasks@.contains_key(trim(name@)) ==> r == Err::<(), CronError>(CronError::NotFound),
        r is Err ==> final(state).tasks@ == old(state).tasks@,
        trim(name@).len() != 0 && old(state).tasks@.contains_key(trim(name@)) ==> r is Ok
            && final(state).tasks@ == old(state).tasks@.remove(trim(name@)),
{
    let n = validate_name(name)?;
    match state.tasks.remove(&n) {
        Some(_) => Ok(()),
        None => Err(CronError::NotFound),
    }
}

} // verus!
