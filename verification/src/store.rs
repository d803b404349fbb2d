//! A string-keyed store kept as a vector of entries with distinct keys.
//! Its view is a finite map from the key's characters to the stored value;
//! entries keep the order in which their keys were first inserted.
use vstd::prelude::*;

verus! {

/// Whether the keys of `s` are pairwise distinct.
pub open spec fn distinct_keys<V>(s: Seq<(String, V)>) -> bool {
    forall|i: int, j: int|
        0 <= i < s.len() && 0 <= j < s.len() && i != j ==> #[trigger] s[i].0@ != #[trigger] s[j].0@
}

/// Whether some entry of `s` has key `k`.
pub open spec fn has_key<V>(s: Seq<(String, V)>, k: Seq<char>) -> bool {
    exists|i: int| 0 <= i < s.len() && #[trigger] s[i].0@ == k
}

/// The map that the entries `s` describe.
pub open spec fn map_of<V>(s: Seq<(String, V)>) -> Map<Seq<char>, V> {
    Map::new(
        |k: Seq<char>| has_key(s, k),
        |k: Seq<char>| s[choose|i: int| 0 <= i < s.len() && #[trigger] s[i].0@ == k].1,
    )
}

/// The keys of `s`, in order.
pub open spec fn keys_of<V>(s: Seq<(String, V)>) -> Seq<Seq<char>> {
    s.map_values(|e: (String, V)| e.0@)
}

pub proof fn lemma_map_of_index<V>(s: Seq<(String, V)>, i: int)
    requires
        distinct_keys(s),
        0 <= i < s.len(),
    ensures
        map_of(s).contains_key(s[i].0@),
        map_of(s)[s[i].0@] == s[i].1,
{
    let k = s[i].0@;
    assert(has_key(s, k));
    let j = choose|j: int| 0 <= j < s.len() && #[trigger] s[j].0@ == k;
    assert(s[j].0@ == k);
    assert(j == i);
}

pub proof fn lemma_map_of_push<V>(s: Seq<(String, V)>, k: String, v: V)
    requires
        distinct_keys(s),
        !has_key(s, k@),
    ensures
        distinct_keys(s.push((k, v))),
        map_of(s.push((k, v))) =~= map_of(s).insert(k@, v),
{
    let t = s.push((k, v));
    assert(t[t.len() - 1].0@ == k@);
    assert forall|i: int, j: int|
        0 <= i < t.len() && 0 <= j < t.len() && i != j implies #[trigger] t[i].0@
        != #[trigger] t[j].0@ by {
        if i < s.len() && j < s.len() {
            assert(t[i] == s[i] && t[j] == s[j]);
        } else if i < s.len() {
            assert(t[i] == s[i]);
        } else {
            assert(t[j] == s[j]);
        }
    }
    assert forall|q: Seq<char>| #[trigger] map_of(t).contains_key(q) <==> map_of(
        s,
    ).insert(k@, v).contains_key(q) by {
        if has_key(s, q) {
            let i = choose|i: int| 0 <= i < s.len() && #[trigger] s[i].0@ == q;
            assert(t[i] == s[i]);
        }
        if has_key(t, q) && q != k@ {
            let i = choose|i: int| 0 <= i < t.len() && #[trigger] t[i].0@ == q;
            assert(t[i] == s[i]);
        }
    }
    assert forall|q: Seq<char>| #[trigger] map_of(t).contains_key(q) implies map_of(t)[q]
        == map_of(s).insert(k@, v)[q] by {
        let i = choose|i: int| 0 <= i < t.len() && #[trigger] t[i].0@ == q;
        lemma_map_of_index(t, i);
        if i < s.len() {
            assert(t[i] == s[i]);
            lemma_map_of_index(s, i);
        }
    }
}

pub proof fn lemma_map_of_update<V>(s: Seq<(String, V)>, i: int, k: String, v: V)
    requires
        distinct_keys(s),
        0 <= i < s.len(),
        s[i].0@ == k@,
    ensures
        distinct_keys(s.update(i, (k, v))),
        map_of(s.update(i, (k, v))) =~= map_of(s).insert(k@, v),
{
    let t = s.update(i, (k, v));
    assert forall|a: int, b: int|
        0 <= a < t.len() && 0 <= b < t.len() && a != b implies #[trigger] t[a].0@
        != #[trigger] t[b].0@ by {
        assert(t[a].0@ == s[a].0@);
        assert(t[b].0@ == s[b].0@);
    }
    assert forall|q: Seq<char>| #[trigger] map_of(t).contains_key(q) <==> map_of(
        s,
    ).insert(k@, v).contains_key(q) by {
        if has_key(s, q) {
            let j = choose|j: int| 0 <= j < s.len() && #[trigger] s[j].0@ == q;
            assert(t[j].0@ == s[j].0@);
        }
        if has_key(t, q) {
            let j = choose|j: int| 0 <= j < t.len() && #[trigger] t[j].0@ == q;
            assert(t[j].0@ == s[j].0@);
        }
        assert(t[i].0@ == k@);
        assert(s[i].0@ == k@);
    }
    assert forall|q: Seq<char>| #[trigger] map_of(t).contains_key(q) implies map_of(t)[q]
        == map_of(s).insert(k@, v)[q] by {
        let j = choose|j: int| 0 <= j < t.len() && #[trigger] t[j].0@ == q;
        lemma_map_of_index(t, j);
        if j != i {
            assert(t[j] == s[j]);
            lemma_map_of_index(s, j);
        }
    }
}

pub proof fn lemma_map_of_remove<V>(s: Seq<(String, V)>, i: int)
    requires
        distinct_keys(s),
        0 <= i < s.len(),
    ensures
        distinct_keys(s.remove(i)),
        map_of(s.remove(i)) =~= map_of(s).remove(s[i].0@),
{
    let t = s.remove(i);
    let k = s[i].0@;
    assert forall|a: int| 0 <= a < t.len() implies #[trigger] t[a] == (if a < i {
        s[a]
    } else {
        s[a + 1]
    }) by {}
    assert forall|a: int, b: int|
        0 <= a < t.len() && 0 <= b < t.len() && a != b implies #[trigger] t[a].0@
        != #[trigger] t[b].0@ by {
        let a1 = if a < i { a } else { a + 1 };
        let b1 = if b < i { b } else { b + 1 };
        assert(t[a] == s[a1]);
        assert(t[b] == s[b1]);
    }
    assert forall|q: Seq<char>| #[trigger] map_of(t).contains_key(q) <==> map_of(s).remove(
        k,
    ).contains_key(q) by {
        if has_key(s, q) && q != k {
            let j = choose|j: int| 0 <= j < s.len() && #[trigger] s[j].0@ == q;
            assert(j != i);
            let j1 = if j < i { j } else { j - 1 };
            assert(t[j1] == s[j]);
        }
        if has_key(t, q) {
            let j = choose|j: int| 0 <= j < t.len() && #[trigger] t[j].0@ == q;
            let j1 = if j < i { j } else { j + 1 };
            assert(t[j] == s[j1]);
            assert(j1 != i);
        }
    }
    assert forall|q: Seq<char>| #[trigger] map_of(t).contains_key(q) implies map_of(t)[q]
        == map_of(s).remove(k)[q] by {
        let j = choose|j: int| 0 <= j < t.len() && #[trigger] t[j].0@ == q;
        lemma_map_of_index(t, j);
        let j1 = if j < i { j } else { j + 1 };
        assert(t[j] == s[j1]);
        lemma_map_of_index(s, j1);
    }
}

pub proof fn lemma_map_of_len<V>(s: Seq<(String, V)>)
    requires
        distinct_keys(s),
    ensures
        map_of(s).dom().finite(),
        map_of(s).dom().len() == s.len(),
    decreases s.len(),
{
    if s.len() == 0 {
        assert(map_of(s).dom() =~= Set::<Seq<char>>::empty());
    } else {
        let p = s.drop_last();
        assert(distinct_keys(p)) by {
            assert forall|a: int, b: int|
                0 <= a < p.len() && 0 <= b < p.len() && a != b implies #[trigger] p[a].0@
                != #[trigger] p[b].0@ by {
                assert(p[a] == s[a] && p[b] == s[b]);
            }
        }
        lemma_map_of_len(p);
        let last = s.last();
        assert(!has_key(p, last.0@)) by {
            if has_key(p, last.0@) {
                let j = choose|j: int| 0 <= j < p.len() && #[trigger] p[j].0@ == last.0@;
                assert(p[j] == s[j]);
            }
        }
        lemma_map_of_push(p, last.0, last.1);
        assert(p.push(last) =~= s);
    }
}

/// The keys of the entries of `s` whose value satisfies `p`, in order.
pub open spec fn keys_where<V>(s: Seq<(String, V)>, p: spec_fn(V) -> bool) -> Seq<Seq<char>>
    decreases s.len(),
{
    if s.len() == 0 {
        Seq::empty()
    } else {
        let r = keys_where(s.drop_last(), p);
        if p(s.last().1) {
            r.push(s.last().0@)
        } else {
            r
        }
    }
}

/// The views of a list of strings.
pub open spec fn views(v: Seq<String>) -> Seq<Seq<char>> {
    v.map_values(|x: String| x@)
}

pub proof fn lemma_keys_where_step<V>(s: Seq<(String, V)>, p: spec_fn(V) -> bool, i: int)
    requires
        0 <= i < s.len(),
    ensures
        keys_where(s.take(i + 1), p) == if p(s[i].1) {
            keys_where(s.take(i), p).push(s[i].0@)
        } else {
            keys_where(s.take(i), p)
        },
{
    assert(s.take(i + 1).drop_last() =~= s.take(i));
}

pub proof fn lemma_keys_where<V>(s: Seq<(String, V)>, p: spec_fn(V) -> bool)
    requires
        distinct_keys(s),
    ensures
        forall|k: Seq<char>|
            #[trigger] keys_where(s, p).contains(k) <==> (map_of(s).contains_key(k) && p(map_of(s)[k])),
        keys_where(s, p).no_duplicates(),
    decreases s.len(),
{
    if s.len() > 0 {
        let q = s.drop_last();
        assert(distinct_keys(q)) by {
            assert forall|a: int, b: int|
                0 <= a < q.len() && 0 <= b < q.len() && a != b implies #[trigger] q[a].0@
                != #[trigger] q[b].0@ by {
                assert(q[a] == s[a] && q[b] == s[b]);
            }
        }
        lemma_keys_where(q, p);
        let last = s.last();
        assert(!has_key(q, last.0@)) by {
            if has_key(q, last.0@) {
                let j = choose|j: int| 0 <= j < q.len() && #[trigger] q[j].0@ == last.0@;
                assert(q[j] == s[j]);
            }
        }
        lemma_map_of_push(q, last.0, last.1);
        assert(q.push(last) =~= s);
        let r = keys_where(q, p);
        assert(!r.contains(last.0@));
        if p(last.1) {
            assert forall|a: int, b: int|
                0 <= a < r.push(last.0@).len() && 0 <= b < r.push(last.0@).len() && a != b implies
                r.push(last.0@)[a] != r.push(last.0@)[b] by {
                if a < r.len() && b < r.len() {
                } else if a < r.len() {
                    assert(r.contains(r[a]));
                } else {
                    assert(r.contains(r[b]));
                }
            }
            assert forall|k: Seq<char>| #[trigger] r.push(last.0@).contains(k) <==> r.contains(k) || k == last.0@ by {
                if r.push(last.0@).contains(k) {
                    let j = choose|j: int| 0 <= j < r.push(last.0@).len() && r.push(last.0@)[j] == k;
                    if j < r.len() {
                        assert(r[j] == k);
                    }
                }
                if r.contains(k) {
                    let j = choose|j: int| 0 <= j < r.len() && r[j] == k;
                    assert(r.push(last.0@)[j] == k);
                }
                if k == last.0@ {
                    assert(r.push(last.0@)[r.len() as int] == k);
                }
            }
        }
    }
}

/// A store of values of type `V` under string keys.
pub struct KeyedStore<V> {
    entries: Vec<(String, V)>,
}

impl<V> KeyedStore<V> {
    /// Well-formedness: no key occurs twice.
    pub open spec fn wf(&self) -> bool {
        distinct_keys(self.entries())
    }

    /// The entries in store order.
    pub closed spec fn entries(&self) -> Seq<(String, V)> {
        self.entries@
    }

    /// The stored map.
    pub open spec fn view(&self) -> Map<Seq<char>, V> {
        map_of(self.entries())
    }

    /// The keys in store order.
    pub open spec fn key_order(&self) -> Seq<Seq<char>> {
        keys_of(self.entries())
    }

    pub proof fn lemma_wf(&self)
        requires
            self.wf(),
        ensures
            distinct_keys(self.entries()),
            self@.dom().finite(),
            self@.dom().len() == self.entries().len(),
            forall|i: int|
                0 <= i < self.entries().len() ==> self@.contains_key(
                    #[trigger] self.entries()[i].0@,
                ) && self@[self.entries()[i].0@] == self.entries()[i].1,
            forall|k: Seq<char>|
                self@.contains_key(k) ==> exists|i: int|
                    0 <= i < self.entries().len() && #[trigger] self.entries()[i].0@ == k,
    {
        lemma_map_of_len(self.entries@);
        assert forall|i: int| 0 <= i < self.entries().len() implies self@.contains_key(
            #[trigger] self.entries()[i].0@,
        ) && self@[self.entries()[i].0@] == self.entries()[i].1 by {
            lemma_map_of_index(self.entries@, i);
        }
    }

    /// An empty store.
    pub fn new() -> (r: Self)
        ensures
            r.wf(),
            r@ == Map::<Seq<char>, V>::empty(),
            r.entries().len() == 0,
    {
        let r = KeyedStore { entries: Vec::new() };
        assert(r@ =~= Map::<Seq<char>, V>::empty());
        r
    }

    /// The number of entries.
    pub fn len(&self) -> (r: usize)
        requires
            self.wf(),
        ensures
            r == self.entries().len(),
            r == self@.dom().len(),
    {
        proof {
            self.lemma_wf();
        }
        self.entries.len()
    }

    /// The key and value of the entry at position `i`.
    pub fn entry_at(&self, i: usize) -> (r: (&String, &V))
        requires
            self.wf(),
            i < self.entries().len(),
        ensures
            *r.0 == self.entries()[i as int].0,
            *r.1 == self.entries()[i as int].1,
            self@.contains_key(r.0@),
            self@[r.0@] == *r.1,
    {
        proof {
            self.lemma_wf();
        }
        let e = &self.entries[i];
        (&e.0, &e.1)
    }

    /// The position of key `k`, if present.
    pub fn find(&self, k: &String) -> (r: Option<usize>)
        requires
            self.wf(),
        ensures
            r is None ==> !self@.contains_key(k@),
            r matches Some(i) ==> i < self.entries().len() && self.entries()[i as int].0@ == k@
                && self@.contains_key(k@) && self@[k@] == self.entries()[i as int].1,
    {
        proof {
            self.lemma_wf();
        }
        let n = self.entries.len();
        let mut i: usize = 0;
        while i < n
            invariant
                self.wf(),
                n == self.entries().len(),
                i <= n,
                forall|j: int| 0 <= j < i ==> #[trigger] self.entries()[j].0@ != k@,
            decreases n - i,
        {
            if self.entries[i].0 == *k {
                proof {
                    lemma_map_of_index(self.entries@, i as int);
                }
                return Some(i);
            }
            i = i + 1;
        }
        None
    }

    /// The value stored under `k`, if any.
    pub fn get(&self, k: &String) -> (r: Option<&V>)
        requires
            self.wf(),
        ensures
            r is None <==> !self@.contains_key(k@),
            r matches Some(v) ==> self@.contains_key(k@) && *v == self@[k@],
    {
        match self.find(k) {
            Some(i) => Some(&self.entries[i].1),
            None => None,
        }
    }

    /// Whether `k` is present.
    pub fn contains(&self, k: &String) -> (r: bool)
        requires
            self.wf(),
        ensures
            r == self@.contains_key(k@),
    {
        self.find(k).is_some()
    }

    /// Store `v` under `k`, replacing any previous value.
    pub fn insert(&mut self, k: String, v: V)
        requires
            old(self).wf(),
        ensures
            final(self).wf(),
            final(self)@ == old(self)@.insert(k@, v),
            old(self)@.contains_key(k@) ==> final(self).key_order() == old(self).key_order(),
            !old(self)@.contains_key(k@) ==> final(self).key_order() == old(self).key_order().push(
                k@,
            ),
    {
        match self.find(&k) {
            Some(i) => {
                proof {
                    lemma_map_of_update(self.entries@, i as int, k, v);
                    assert(keys_of(self.entries@.update(i as int, (k, v))) =~= keys_of(
                        self.entries@,
                    ));
                }
                self.entries.set(i, (k, v));
            },
            None => {
                proof {
                    if has_key(self.entries@, k@) {
                        let j = choose|j: int|
                            0 <= j < self.entries@.len() && #[trigger] self.entries@[j].0@ == k@;
                        lemma_map_of_index(self.entries@, j);
                    }
                    lemma_map_of_push(self.entries@, k, v);
                    assert(keys_of(self.entries@.push((k, v))) =~= keys_of(self.entries@).push(
                        k@,
                    ));
                }
                self.entries.push((k, v));
            },
        }
    }

    /// Replace the value of the entry at position `i`, keeping its key.
    pub fn set_at(&mut self, i: usize, v: V)
        requires
            old(self).wf(),
            i < old(self).entries().len(),
        ensures
            final(self).wf(),
            final(self)@ == old(self)@.insert(old(self).entries()[i as int].0@, v),
            final(self).key_order() == old(self).key_order(),
            final(self).entries().len() == old(self).entries().len(),
    {
        let k = self.entries[i].0.clone();
        proof {
            lemma_map_of_update(self.entries@, i as int, k, v);
            assert(keys_of(self.entries@.update(i as int, (k, v))) =~= keys_of(self.entries@));
        }
        self.entries.set(i, (k, v));
    }


    /// Replace the value of the entry at position `i`, keeping its key and
    /// position, and return the value it held.
    pub fn replace_at(&mut self, i: usize, v: V) -> (r: V)
        requires
            old(self).wf(),
            i < old(self).entries().len(),
        ensures
            final(self).wf(),
            final(self)@ == old(self)@.insert(old(self).entries()[i as int].0@, v),
            r == old(self).entries()[i as int].1,
            r == old(self)@[old(self).entries()[i as int].0@],
            final(self).key_order() == old(self).key_order(),
    {
        let ghost s0 = self.entries@;
        proof {
            lemma_map_of_index(s0, i as int);
        }
        let e = self.entries.remove(i);
        let k = e.0;
        self.entries.insert(i, (k, v));
        proof {
            assert(self.entries@ =~= s0.update(i as int, (k, v)));
            lemma_map_of_update(s0, i as int, k, v);
            assert(keys_of(s0.update(i as int, (k, v))) =~= keys_of(s0));
        }
        e.1
    }


    /// Take out the entry at position `i`.
    pub fn take_at(&mut self, i: usize) -> (r: (String, V))
        requires
            old(self).wf(),
            i < old(self).entries().len(),
        ensures
            final(self).wf(),
            r == old(self).entries()[i as int],
            old(self)@.contains_key(r.0@),
            r.1 == old(self)@[r.0@],
            final(self)@ == old(self)@.remove(r.0@),
            final(self).key_order() == old(self).key_order().remove(i as int),
            final(self).entries().len() == old(self).entries().len() - 1,
    {
        proof {
            lemma_map_of_remove(self.entries@, i as int);
            lemma_map_of_index(self.entries@, i as int);
            assert(keys_of(self.entries@.remove(i as int)) =~= keys_of(self.entries@).remove(
                i as int,
            ));
        }
        self.entries.remove(i)
    }

    /// Put the entry `(k, v)` back at position `i`.
    pub fn restore_at(&mut self, i: usize, k: String, v: V)
        requires
            old(self).wf(),
            i <= old(self).entries().len(),
            !old(self)@.contains_key(k@),
        ensures
            final(self).wf(),
            final(self)@ == old(self)@.insert(k@, v),
            final(self).key_order() == old(self).key_order().insert(i as int, k@),
            final(self).entries().len() == old(self).entries().len() + 1,
    {
        let ghost s0 = self.entries@;
        proof {
            if has_key(s0, k@) {
                let j = choose|j: int| 0 <= j < s0.len() && #[trigger] s0[j].0@ == k@;
                lemma_map_of_index(s0, j);
            }
            lemma_map_of_push(s0, k, v);
        }
        self.entries.insert(i, (k, v));
        proof {
            let t = self.entries@;
            let p = s0.push((k, v));
            assert(t =~= s0.insert(i as int, (k, v)));
            assert forall|a: int, b: int|
                0 <= a < t.len() && 0 <= b < t.len() && a != b implies #[trigger] t[a].0@
                != #[trigger] t[b].0@ by {
                let a1 = if a < i { a } else if a == i { s0.len() as int } else { a - 1 };
                let b1 = if b < i { b } else if b == i { s0.len() as int } else { b - 1 };
                assert(t[a] == p[a1]);
                assert(t[b] == p[b1]);
            }
            assert forall|q: Seq<char>| #[trigger] map_of(t).contains_key(q) <==> map_of(p).contains_key(q) by {
                if has_key(p, q) {
                    let j = choose|j: int| 0 <= j < p.len() && #[trigger] p[j].0@ == q;
                    let j1 = if j == s0.len() { i as int } else if j < i { j } else { j + 1 };
                    assert(t[j1] == p[j]);
                }
                if has_key(t, q) {
                    let j = choose|j: int| 0 <= j < t.len() && #[trigger] t[j].0@ == q;
                    let j1 = if j < i { j } else if j == i { s0.len() as int } else { j - 1 };
                    assert(t[j] == p[j1]);
                }
            }
            assert forall|q: Seq<char>| #[trigger] map_of(t).contains_key(q) implies map_of(t)[q] == map_of(p)[q] by {
                let j = choose|j: int| 0 <= j < t.len() && #[trigger] t[j].0@ == q;
                let j1 = if j < i { j } else if j == i { s0.len() as int } else { j - 1 };
                assert(t[j] == p[j1]);
                lemma_map_of_index(t, j);
                lemma_map_of_index(p, j1);
            }
            assert(map_of(t) =~= map_of(p));
            assert(keys_of(t) =~= keys_of(s0).insert(i as int, k@));
        }
    }

    /// Remove the entry at position `i` and return its value.
    pub fn remove_at(&mut self, i: usize) -> (r: V)
        requires
            old(self).wf(),
            i < old(self).entries().len(),
        ensures
            final(self).wf(),
            final(self)@ == old(self)@.remove(old(self).entries()[i as int].0@),
            r == old(self).entries()[i as int].1,
            r == old(self)@[old(self).entries()[i as int].0@],
            final(self).key_order() == old(self).key_order().remove(i as int),
    {
        proof {
            lemma_map_of_remove(self.entries@, i as int);
            lemma_map_of_index(self.entries@, i as int);
            assert(keys_of(self.entries@.remove(i as int)) =~= keys_of(self.entries@).remove(
                i as int,
            ));
        }
        let e = self.entries.remove(i);
        e.1
    }

    /// Remove `k`, returning its value if it was present.
    pub fn remove(&mut self, k: &String) -> (r: Option<V>)
        requires
            old(self).wf(),
        ensures
            final(self).wf(),
            final(self)@ == old(self)@.remove(k@),
            r is Some <==> old(self)@.contains_key(k@),
            r matches Some(v) ==> v == old(self)@[k@],
    {
        match self.find(k) {
            Some(i) => Some(self.remove_at(i)),
            None => {
                assert(self@.remove(k@) =~= self@);
                None
            },
        }
    }

    /// Remove every entry.
    pub fn clear(&mut self)
        requires
            old(self).wf(),
        ensures
            final(self).wf(),
            final(self)@ == Map::<Seq<char>, V>::empty(),
            final(self).entries().len() == 0,
    {
        self.entries = Vec::new();
        assert(self@ =~= Map::<Seq<char>, V>::empty());
    }

    /// The keys, in store order.
    pub fn keys(&self) -> (r: Vec<String>)
        requires
            self.wf(),
        ensures
            r@.map_values(|s: String| s@) == self.key_order(),
            r@.len() == self@.dom().len(),
            forall|k: Seq<char>|
                self@.contains_key(k) <==> exists|i: int| 0 <= i < r@.len() && #[trigger] r@[i]@ == k,
            forall|i: int, j: int|
                0 <= i < r@.len() && 0 <= j < r@.len() && i != j ==> #[trigger] r@[i]@ != #[trigger] r@[j]@,
    {
        proof {
            self.lemma_wf();
        }
        let n = self.entries.len();
        let mut r: Vec<String> = Vec::new();
        let mut i: usize = 0;
        while i < n
            invariant
                n == self.entries().len(),
                i <= n,
                r@.len() == i,
                forall|j: int| 0 <= j < i ==> #[trigger] r@[j] == self.entries()[j].0,
            decreases n - i,
        {
            r.push(self.entries[i].0.clone());
            i = i + 1;
        }
        proof {
            assert(r@.map_values(|s: String| s@) =~= self.key_order());
            assert forall|k: Seq<char>| self@.contains_key(k) implies exists|i: int|
                0 <= i < r@.len() && #[trigger] r@[i]@ == k by {
                let i = choose|i: int| 0 <= i < self.entries().len() && #[trigger] self.entries()[i].0@ == k;
                assert(r@[i]@ == k);
            }
            assert forall|i: int, j: int|
                0 <= i < r@.len() && 0 <= j < r@.len() && i != j implies #[trigger] r@[i]@ != #[trigger] r@[j]@ by {
                assert(r@[i] == self.entries()[i].0);
                assert(r@[j] == self.entries()[j].0);
            }
        }
        r
    }
}

} // verus!
