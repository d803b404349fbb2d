//! Splitting, joining, ASCII case folding, prefix tests and ordering of
//! character sequences.
use vstd::prelude::*;

verus! {

// ── ASCII case ───────────────────────────────────────────────────────────────

/// `c` with ASCII upper-case letters mapped to lower case.
pub open spec fn ascii_lower(c: char) -> char {
    if 'A' <= c && c <= 'Z' {
        ((c as u32) + 32) as char
    } else {
        c
    }
}

/// `s` with ASCII upper-case letters mapped to lower case (what `to_ascii_lowercase` returns).
pub open spec fn ascii_lower_seq(s: Seq<char>) -> Seq<char> {
    s.map_values(|c: char| ascii_lower(c))
}

/// Whether `a` and `b` are equal ignoring ASCII case (what `eq_ignore_ascii_case` answers).
pub open spec fn eq_ascii_ci(a: Seq<char>, b: Seq<char>) -> bool {
    ascii_lower_seq(a) == ascii_lower_seq(b)
}

/// `c` with an ASCII upper-case letter mapped to lower case.
pub fn to_ascii_lower(c: char) -> (r: char)
    ensures
        r == ascii_lower(c),
{
    if 'A' <= c && c <= 'Z' {
        ((c as u8) + 32) as char
    } else {
        c
    }
}

/// Whether `a` and `b` are equal ignoring ASCII case.
pub fn eq_ignore_ascii_case(a: &Vec<char>, b: &Vec<char>) -> (r: bool)
    ensures
        r == eq_ascii_ci(a@, b@),
{
    if a.len() != b.len() {
        proof {
            assert(ascii_lower_seq(a@).len() != ascii_lower_seq(b@).len());
        }
        return false;
    }
    let mut i: usize = 0;
    while i < a.len()
        invariant
            a.len() == b.len(),
            i <= a.len(),
            forall|j: int| 0 <= j < i ==> ascii_lower(a@[j]) == ascii_lower(b@[j]),
        decreases a.len() - i,
    {
        if to_ascii_lower(a[i]) != to_ascii_lower(b[i]) {
            proof {
                assert(ascii_lower_seq(a@)[i as int] != ascii_lower_seq(b@)[i as int]);
            }
            return false;
        }
        i = i + 1;
    }
    proof {
        assert(ascii_lower_seq(a@) =~= ascii_lower_seq(b@));
    }
    true
}

/// The ASCII lower-case form of `v`.
pub fn ascii_lowercase(v: &Vec<char>) -> (r: Vec<char>)
    ensures
        r@ == ascii_lower_seq(v@),
{
    let mut r: Vec<char> = Vec::new();
    let mut i: usize = 0;
    while i < v.len()
        invariant
            i <= v.len(),
            r@ == ascii_lower_seq(v@.subrange(0, i as int)),
        decreases v.len() - i,
    {
        r.push(to_ascii_lower(v[i]));
        proof {
            assert(ascii_lower_seq(v@.subrange(0, i + 1)) =~= ascii_lower_seq(v@.subrange(0, i as int)).push(ascii_lower(v@[i as int])));
        }
        i = i + 1;
    }
    proof {
        assert(v@.subrange(0, v@.len() as int) =~= v@);
    }
    r
}

// ── Prefixes and suffixes ────────────────────────────────────────────────────

/// Whether `p` is a prefix of `s`.
pub open spec fn has_prefix(s: Seq<char>, p: Seq<char>) -> bool {
    p.len() <= s.len() && s.take(p.len() as int) == p
}

/// Whether `p` is a suffix of `s`.
pub open spec fn has_suffix(s: Seq<char>, p: Seq<char>) -> bool {
    p.len() <= s.len() && s.skip(s.len() - p.len()) == p
}

/// Whether `v` starts with `p`.
pub fn starts_with(v: &Vec<char>, p: &Vec<char>) -> (r: bool)
    ensures
        r == has_prefix(v@, p@),
{
    if p.len() > v.len() {
        return false;
    }
    let mut i: usize = 0;
    while i < p.len()
        invariant
            p.len() <= v.len(),
            i <= p.len(),
            forall|j: int| 0 <= j < i ==> v@[j] == p@[j],
        decreases p.len() - i,
    {
        if v[i] != p[i] {
            proof {
                assert(v@.take(p.len() as int)[i as int] != p@[i as int]);
            }
            return false;
        }
        i = i + 1;
    }
    proof {
        assert(v@.take(p.len() as int) =~= p@);
    }
    true
}

/// Whether `v` ends with `p`.
pub fn ends_with(v: &Vec<char>, p: &Vec<char>) -> (r: bool)
    ensures
        r == has_suffix(v@, p@),
{
    if p.len() > v.len() {
        return false;
    }
    let off = v.len() - p.len();
    let mut i: usize = 0;
    while i < p.len()
        invariant
            p.len() <= v.len(),
            off == v.len() - p.len(),
            i <= p.len(),
            forall|j: int| 0 <= j < i ==> v@[off + j] == p@[j],
        decreases p.len() - i,
    {
        if v[off + i] != p[i] {
            proof {
                assert(v@.skip(off as int)[i as int] != p@[i as int]);
            }
            return false;
        }
        i = i + 1;
    }
    proof {
        assert(v@.skip(off as int) =~= p@);
    }
    true
}

/// The position of the first `c` in `s`, if any.
pub open spec fn first_index(s: Seq<char>, c: char) -> Option<int> {
    if s.contains(c) {
        Some(choose|i: int| 0 <= i < s.len() && s[i] == c && forall|j: int| 0 <= j < i ==> s[j] != c)
    } else {
        None
    }
}

/// The position of the first `c` in `v`, if any.
pub fn find_char(v: &Vec<char>, c: char) -> (r: Option<usize>)
    ensures
        r is None <==> !v@.contains(c),
        r matches Some(i) ==> i < v.len() && v@[i as int] == c && forall|j: int| 0 <= j < i ==> v@[j] != c,
        r matches Some(i) ==> first_index(v@, c) == Some(i as int),
{
    let mut i: usize = 0;
    while i < v.len()
        invariant
            i <= v.len(),
            forall|j: int| 0 <= j < i ==> v@[j] != c,
        decreases v.len() - i,
    {
        if v[i] == c {
            proof {
                assert(v@.contains(c));
                let k = choose|k: int| 0 <= k < v@.len() && v@[k] == c && forall|j: int| 0 <= j < k ==> v@[j] != c;
                assert(k == i as int) by {
                    if k < i {
                    } else if k > i {
                        assert(v@[i as int] == c);
                    }
                }
            }
            return Some(i);
        }
        i = i + 1;
    }
    None
}

// ── Substrings ──────────────────────────────────────────────────────────────

/// The first position from `i` on where `n` occurs in `h`.
pub open spec fn find_sub(h: Seq<char>, n: Seq<char>, i: int) -> Option<int>
    decreases h.len() - i,
{
    if i < 0 || i >= h.len() || i + n.len() > h.len() {
        None
    } else if h.subrange(i, i + n.len()) == n {
        Some(i)
    } else {
        find_sub(h, n, i + 1)
    }
}

pub proof fn lemma_find_sub(h: Seq<char>, n: Seq<char>, i: int)
    ensures
        find_sub(h, n, i) matches Some(k) ==> i <= k && k + n.len() <= h.len() && h.subrange(k, k + n.len()) == n,
    decreases h.len() - i,
{
    if !(i < 0 || i >= h.len() || i + n.len() > h.len()) && h.subrange(i, i + n.len()) != n {
        lemma_find_sub(h, n, i + 1);
    }
}

/// The first position where the non-empty `n` occurs in `h`.
pub fn find_chars(h: &Vec<char>, n: &Vec<char>) -> (r: Option<usize>)
    requires
        n@.len() > 0,
    ensures
        r is None <==> find_sub(h@, n@, 0) is None,
        r is Some ==> find_sub(h@, n@, 0) == Some(r.unwrap() as int) && r.unwrap() + n@.len() <= h@.len(),
{
    proof {
        lemma_find_sub(h@, n@, 0);
    }
    let hl = h.len();
    let nl = n.len();
    if nl > hl {
        return None;
    }
    let mut i: usize = 0;
    while i <= hl - nl
        invariant
            hl == h@.len(),
            nl == n@.len(),
            0 < nl <= hl,
            find_sub(h@, n@, 0) == find_sub(h@, n@, i as int),
        decreases hl - i,
    {
        let mut k: usize = 0;
        while k < nl && h[i + k] == n[k]
            invariant
                i + nl <= hl == h@.len(),
                nl == n@.len(),
                k <= nl,
                forall|q: int| 0 <= q < k ==> h@[i + q] == n@[q],
            decreases nl - k,
        {
            k = k + 1;
        }
        if k == nl {
            proof {
                assert(h@.subrange(i as int, i + nl) =~= n@);
            }
            return Some(i);
        }
        proof {
            assert(h@.subrange(i as int, i + nl)[k as int] != n@[k as int]);
        }
        i = i + 1;
    }
    None
}

/// Whether `n` occurs in `h` at `j`.
pub open spec fn occurs_at(h: Seq<char>, n: Seq<char>, j: int) -> bool {
    h.subrange(j, j + n.len()) == n
}

/// `find_sub` finds `n` at `k` when it occurs there and nowhere before.
pub proof fn lemma_find_sub_at(h: Seq<char>, n: Seq<char>, i: int, k: int)
    requires
        0 <= i <= k,
        k + n.len() <= h.len(),
        k < h.len(),
        h.subrange(k, k + n.len()) == n,
        forall|j: int| i <= j < k ==> !#[trigger] occurs_at(h, n, j),
    ensures
        find_sub(h, n, i) == Some(k),
    decreases k - i,
{
    if i < k {
        assert(!occurs_at(h, n, i));
        lemma_find_sub_at(h, n, i + 1, k);
    }
}

// ── Splitting and joining ───────────────────────────────────────────────────

/// The pieces of `s` between occurrences of `sep` (what `str::split(sep)` yields):
/// an empty input gives one empty piece.
pub open spec fn split_on(s: Seq<char>, sep: char) -> Seq<Seq<char>>
    decreases s.len(),
{
    if s.len() == 0 {
        seq![Seq::<char>::empty()]
    } else {
        let r = split_on(s.drop_last(), sep);
        if s.last() == sep {
            r.push(Seq::empty())
        } else {
            r.update(r.len() - 1, r.last().push(s.last()))
        }
    }
}

pub proof fn lemma_split_on_nonempty(s: Seq<char>, sep: char)
    ensures
        split_on(s, sep).len() >= 1,
    decreases s.len(),
{
    if s.len() > 0 {
        lemma_split_on_nonempty(s.drop_last(), sep);
    }
}

/// The pieces of `v` between occurrences of `sep`.
pub fn split_char(v: &Vec<char>, sep: char) -> (r: Vec<Vec<char>>)
    ensures
        r@.len() == split_on(v@, sep).len(),
        forall|i: int| 0 <= i < r@.len() ==> #[trigger] r@[i]@ == split_on(v@, sep)[i],
{
    let mut parts: Vec<Vec<char>> = Vec::new();
    let mut cur: Vec<char> = Vec::new();
    let mut i: usize = 0;
    proof {
        assert(v@.take(0) =~= Seq::<char>::empty());
    }
    while i < v.len()
        invariant
            i <= v.len(),
            parts@.len() + 1 == split_on(v@.take(i as int), sep).len(),
            forall|j: int| 0 <= j < parts@.len() ==> #[trigger] parts@[j]@ == split_on(v@.take(i as int), sep)[j],
            cur@ == split_on(v@.take(i as int), sep).last(),
        decreases v.len() - i,
    {
        proof {
            assert(v@.take(i + 1).drop_last() =~= v@.take(i as int));
            lemma_split_on_nonempty(v@.take(i as int), sep);
        }
        if v[i] == sep {
            let mut done: Vec<char> = Vec::new();
            std::mem::swap(&mut done, &mut cur);
            parts.push(done);
        } else {
            cur.push(v[i]);
        }
        i = i + 1;
    }
    parts.push(cur);
    proof {
        assert(v@.take(v@.len() as int) =~= v@);
    }
    parts
}

/// The pieces of `s` joined with `sep` between them (what `join(sep)` returns).
pub open spec fn join_with(parts: Seq<Seq<char>>, sep: Seq<char>) -> Seq<char>
    decreases parts.len(),
{
    if parts.len() == 0 {
        Seq::empty()
    } else if parts.len() == 1 {
        parts[0]
    } else {
        join_with(parts.drop_last(), sep) + sep + parts.last()
    }
}

/// The character views of a list of pieces.
pub open spec fn piece_views(v: Seq<Vec<char>>) -> Seq<Seq<char>> {
    v.map_values(|x: Vec<char>| x@)
}

/// The pieces joined with `sep` between them.
pub fn join_pieces(parts: &Vec<Vec<char>>, sep: &Vec<char>) -> (r: Vec<char>)
    ensures
        r@ == join_with(piece_views(parts@), sep@),
{
    let mut r: Vec<char> = Vec::new();
    let mut i: usize = 0;
    proof {
        assert(piece_views(parts@).take(0) =~= Seq::<Seq<char>>::empty());
    }
    while i < parts.len()
        invariant
            i <= parts.len(),
            r@ == join_with(piece_views(parts@).take(i as int), sep@),
        decreases parts.len() - i,
    {
        proof {
            assert(piece_views(parts@).take(i + 1).drop_last() =~= piece_views(parts@).take(i as int));
        }
        if i > 0 {
            crate::text::push_chars(&mut r, sep);
        } else {
            proof {
                assert(piece_views(parts@).take(1) =~= seq![parts@[0]@]);
            }
        }
        crate::text::push_chars(&mut r, &parts[i]);
        i = i + 1;
    }
    proof {
        assert(piece_views(parts@).take(parts@.len() as int) =~= piece_views(parts@));
    }
    r
}

// ── Ordering ─────────────────────────────────────────────────────────────────

/// Lexicographic order by code point (the order of `str` and `String`).
pub open spec fn str_lt(a: Seq<char>, b: Seq<char>) -> bool
    decreases a.len(),
{
    if a.len() == 0 {
        b.len() > 0
    } else if b.len() == 0 {
        false
    } else if (a[0] as int) < (b[0] as int) {
        true
    } else if (a[0] as int) > (b[0] as int) {
        false
    } else {
        str_lt(a.drop_first(), b.drop_first())
    }
}

/// `a` comes no later than `b`.
pub open spec fn str_le(a: Seq<char>, b: Seq<char>) -> bool {
    str_lt(a, b) || a == b
}

pub proof fn lemma_str_lt_irreflexive(a: Seq<char>)
    ensures
        !str_lt(a, a),
    decreases a.len(),
{
    if a.len() > 0 {
        lemma_str_lt_irreflexive(a.drop_first());
    }
}

pub proof fn lemma_str_lt_total(a: Seq<char>, b: Seq<char>)
    ensures
        str_lt(a, b) || a == b || str_lt(b, a),
        !(str_lt(a, b) && str_lt(b, a)),
    decreases a.len(),
{
    if a.len() == 0 || b.len() == 0 {
        if a.len() == 0 && b.len() == 0 {
            assert(a =~= b);
        }
    } else if a[0] == b[0] {
        lemma_str_lt_total(a.drop_first(), b.drop_first());
        if a.drop_first() == b.drop_first() {
            assert(a =~= seq![a[0]] + a.drop_first());
            assert(b =~= seq![b[0]] + b.drop_first());
        }
    } else {
        assert((a[0] as int) != (b[0] as int));
    }
}

pub proof fn lemma_str_lt_transitive(a: Seq<char>, b: Seq<char>, c: Seq<char>)
    requires
        str_lt(a, b),
        str_lt(b, c),
    ensures
        str_lt(a, c),
    decreases a.len(),
{
    if a.len() > 0 && b.len() > 0 && c.len() > 0 && a[0] == b[0] && b[0] == c[0] {
        lemma_str_lt_transitive(a.drop_first(), b.drop_first(), c.drop_first());
    }
}

/// Whether `a` is `b`, `c`, … in non-decreasing order.
pub open spec fn sorted_strs(s: Seq<Seq<char>>) -> bool {
    forall|i: int, j: int| 0 <= i < j < s.len() ==> str_le(#[trigger] s[i], #[trigger] s[j])
}

/// Whether `a` comes before `b`, by code point.
pub fn chars_lt(a: &Vec<char>, b: &Vec<char>) -> (r: bool)
    ensures
        r == str_lt(a@, b@),
{
    let mut i: usize = 0;
    proof {
        assert(a@.skip(0) =~= a@);
        assert(b@.skip(0) =~= b@);
    }
    while i < a.len() && i < b.len() && a[i] == b[i]
        invariant
            i <= a.len(),
            i <= b.len(),
            str_lt(a@, b@) == str_lt(a@.skip(i as int), b@.skip(i as int)),
        decreases a.len() - i,
    {
        proof {
            assert(a@.skip(i as int).drop_first() =~= a@.skip(i + 1));
            assert(b@.skip(i as int).drop_first() =~= b@.skip(i + 1));
        }
        i = i + 1;
    }
    proof {
        if i < a.len() && i < b.len() {
            assert(a@.skip(i as int)[0] == a@[i as int]);
            assert(b@.skip(i as int)[0] == b@[i as int]);
        }
    }
    if i == a.len() {
        i < b.len()
    } else if i == b.len() {
        false
    } else {
        a[i] < b[i]
    }
}

/// `v` sorted by code point (what `sort_unstable` leaves).
pub fn sort_pieces(v: Vec<Vec<char>>) -> (r: Vec<Vec<char>>)
    ensures
        sorted_strs(piece_views(r@)),
        piece_views(r@).to_multiset() == piece_views(v@).to_multiset(),
        r@.len() == v@.len(),
{
    let mut r: Vec<Vec<char>> = Vec::new();
    let mut src = v;
    let ghost orig = piece_views(src@);
    let n0 = src.len();
    proof {
        assert(piece_views(r@) =~= Seq::<Seq<char>>::empty());
        assert(orig.skip(0) =~= orig);
        assert(orig.take(0) =~= Seq::<Seq<char>>::empty());
    }
    let mut done: usize = 0;
    while src.len() > 0
        invariant
            sorted_strs(piece_views(r@)),
            done + src@.len() == orig.len(),
            orig.len() == n0,
            piece_views(src@) == orig.skip(done as int),
            piece_views(r@).to_multiset() == orig.take(done as int).to_multiset(),
            r@.len() == done,
        decreases src@.len(),
    {
        let ghost old_src = src@;
        let x = src.remove(0);
        proof {
            assert(piece_views(old_src)[0] == x@);
            assert forall|j: int| 0 <= j < piece_views(src@).len() implies #[trigger] piece_views(src@)[j] == orig.skip(done + 1)[j] by {
                assert(src@[j] == old_src[j + 1]);
                assert(piece_views(old_src)[j + 1] == orig.skip(done as int)[j + 1]);
            }
            assert(piece_views(src@) =~= orig.skip(done + 1));
            assert(orig.take(done + 1) =~= orig.take(done as int).push(x@));
            assert(orig[done as int] == x@) by {
                assert(orig.skip(done as int)[0] == x@);
            }
        }
        let mut pos: usize = 0;
        while pos < r.len() && !chars_lt(&x, &r[pos])
            invariant
                pos <= r@.len(),
                forall|j: int| 0 <= j < pos ==> str_le(#[trigger] piece_views(r@)[j], x@),
            decreases r@.len() - pos,
        {
            proof {
                lemma_str_lt_total(x@, r@[pos as int]@);
            }
            pos = pos + 1;
        }
        let ghost before = piece_views(r@);
        proof {
            if pos < r@.len() {
                assert forall|j: int| pos <= j < before.len() implies str_lt(x@, #[trigger] before[j]) by {
                    if j > pos {
                        assert(str_le(before[pos as int], before[j]));
                        if before[pos as int] != before[j] {
                            lemma_str_lt_transitive(x@, before[pos as int], before[j]);
                        }
                    }
                }
            }
        }
        r.insert(pos, x);
        proof {
            let after = piece_views(r@);
            assert(after =~= before.insert(pos as int, x@));
            assert forall|i: int, j: int| 0 <= i < j < after.len() implies str_le(#[trigger] after[i], #[trigger] after[j]) by {
                if j < pos {
                } else if j == pos {
                    assert(after[i] == before[i]);
                } else if i < pos {
                    assert(after[j] == before[j - 1]);
                    assert(str_le(before[i], x@));
                    assert(str_lt(x@, before[j - 1]));
                    if before[i] != x@ {
                        lemma_str_lt_transitive(before[i], x@, before[j - 1]);
                    }
                } else if i == pos {
                    assert(after[j] == before[j - 1]);
                } else {
                    assert(after[i] == before[i - 1]);
                    assert(after[j] == before[j - 1]);
                }
            }
            vstd::seq_lib::to_multiset_insert(before, pos as int, x@);
            vstd::seq_lib::to_multiset_build(orig.take(done as int), x@);
        }
        done = done + 1;
    }
    proof {
        assert(orig.take(done as int) =~= orig);
    }
    r
}

} // verus!
