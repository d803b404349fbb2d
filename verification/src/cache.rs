//! Key/value cache with optional time-to-live, plus the HTTP cache-key helpers.
use vstd::prelude::*;
use crate::store::KeyedStore;
use crate::text::{trim, lowercase, lossy};
use crate::strings::{eq_ascii_ci, split_on, join_with, sorted_strs, piece_views};

verus! {

/// A cached value.
#[derive(Debug, Clone)]
pub struct CacheEntry {
    pub value: Vec<u8>,
    pub created_at_ms: u64,
    pub expires_at_ms: Option<u64>,
    pub hit_count: u64,
}

/// Errors of the cache.
#[derive(Debug, Clone, Copy, PartialEq, Eq, Structural)]
pub enum CacheError {
    NotInitialized,
    StorageError,
    SerializationError,
    InvalidKey,
}

/// The key under which `key` is stored: trimmed, then lowercased.
pub open spec fn norm_key(key: Seq<char>) -> Seq<char> {
    lowercase(trim(key))
}

/// Whether `e` has expired at `now`.
pub open spec fn expired(e: CacheEntry, now: u64) -> bool {
    e.expires_at_ms matches Some(exp) && now >= exp
}

/// Whether `a` carries the same contents as `b`.
pub open spec fn same_entry(a: CacheEntry, b: CacheEntry) -> bool {
    a.value@ == b.value@ && a.created_at_ms == b.created_at_ms && a.expires_at_ms == b.expires_at_ms
        && a.hit_count == b.hit_count
}

/// Normalise a cache key: trim whitespace, then lowercase; empty keys are rejected.
pub fn normalise_key(key: &str) -> (r: Result<String, CacheError>)
    ensures
        norm_key(key@).len() == 0 ==> r == Err::<String, CacheError>(CacheError::InvalidKey),
        norm_key(key@).len() != 0 ==> (r matches Ok(k) && k@ == norm_key(key@)),
{
    let t = crate::text::trimmed(key);
    let ts = crate::text::string_from_chars(t.as_slice());
    let k = crate::text::to_lowercase(ts.as_str());
    if k.as_str().is_empty() {
        return Err(CacheError::InvalidKey);
    }
    Ok(k)
}

/// Every cached entry, by normalised key.
pub struct CacheState {
    pub store: KeyedStore<CacheEntry>,
}

impl CacheState {
    /// The store is well formed.
    pub open spec fn wf(&self) -> bool {
        self.store.wf()
    }

    /// An empty cache.
    pub fn new() -> (r: Self)
        ensures
            r.wf(),
            r.store@ == Map::<Seq<char>, CacheEntry>::empty(),
    {
        CacheState { store: KeyedStore::new() }
    }
}

/// The cache map after `get(key)` at `now`, for a valid key: an expired entry
/// is evicted, a live one has its hit count raised.
pub open spec fn after_get(m: Map<Seq<char>, CacheEntry>, k: Seq<char>, now: u64) -> Map<Seq<char>, CacheEntry> {
    if !m.contains_key(k) {
        m
    } else if expired(m[k], now) {
        m.remove(k)
    } else {
        m.insert(k, CacheEntry { hit_count: (m[k].hit_count + 1) as u64, ..m[k] })
    }
}

/// What `get(key)` finds at `now`, for a valid key.
pub open spec fn found(m: Map<Seq<char>, CacheEntry>, k: Seq<char>, now: u64) -> Option<CacheEntry> {
    if m.contains_key(k) && !expired(m[k], now) {
        Some(CacheEntry { hit_count: (m[k].hit_count + 1) as u64, ..m[k] })
    } else {
        None
    }
}

/// The entry that `set` stores.
pub open spec fn new_entry(value: Vec<u8>, ttl_ms: Option<u64>, now: u64) -> CacheEntry {
    CacheEntry {
        value,
        created_at_ms: now,
        expires_at_ms: match ttl_ms {
            Some(t) => Some((now + t) as u64),
            None => None,
        },
        hit_count: 0,
    }
}

/// A copy of a cache entry.
fn copy_entry(e: &CacheEntry) -> (r: CacheEntry)
    ensures
        same_entry(r, *e),
{
    CacheEntry {
        value: crate::text::copy_bytes(&e.value),
        created_at_ms: e.created_at_ms,
        expires_at_ms: e.expires_at_ms,
        hit_count: e.hit_count,
    }
}

/// Return the entry under `key` if it exists and has not expired (counting
/// the hit); an expired entry is evicted and `None` returned.
pub fn get(state: &mut CacheState, key: &str, now_ms: u64) -> (r: Result<Option<CacheEntry>, CacheError>)
    requires
        old(state).wf(),
        old(state).store@.contains_key(norm_key(key@)) ==> old(state).store@[norm_key(key@)].hit_count < u64::MAX,
    ensures
        final(state).wf(),
        norm_key(key@).len() == 0 ==> r == Err::<Option<CacheEntry>, CacheError>(CacheError::InvalidKey)
            && final(state).store@ == old(state).store@,
        norm_key(key@).len() != 0 ==> {
            &&& final(state).store@ == after_get(old(state).store@, norm_key(key@), now_ms)
            &&& r matches Ok(o) && match (o, found(old(state).store@, norm_key(key@), now_ms)) {
                (Some(a), Some(b)) => same_entry(a, b),
                (None, None) => true,
                _ => false,
            }
        },
{
    let k = match normalise_key(key) {
        Ok(k) => k,
        Err(e) => return Err(e),
    };
    let i = match state.store.find(&k) {
        Some(i) => i,
        None => return Ok(None),
    };
    let (kk, mut e) = state.store.take_at(i);
    match e.expires_at_ms {
        Some(exp) => {
            if now_ms >= exp {
                return Ok(None);
            }
        },
        None => {},
    }
    e.hit_count = e.hit_count + 1;
    let c = copy_entry(&e);
    state.store.restore_at(i, kk, e);
    Ok(Some(c))
}

/// Insert or overwrite the entry under `key`; `ttl_ms` counts from `now_ms`.
pub fn set(state: &mut CacheState, key: &str, value: Vec<u8>, ttl_ms: Option<u64>, now_ms: u64) -> (r: Result<(), CacheError>)
    requires
        old(state).wf(),
        norm_key(key@).len() != 0 ==> (ttl_ms matches Some(t) ==> now_ms + t <= u64::MAX),
    ensures
        final(state).wf(),
        norm_key(key@).len() == 0 ==> r == Err::<(), CacheError>(CacheError::InvalidKey)
            && final(state).store@ == old(state).store@,
        norm_key(key@).len() != 0 ==> r is Ok && final(state).store@ == old(state).store@.insert(
            norm_key(key@),
            new_entry(value, ttl_ms, now_ms),
        ),
{
    let k = normalise_key(key)?;
    let expires_at_ms = match ttl_ms {
        Some(t) => Some(now_ms + t),
        None => None,
    };
    state.store.insert(k, CacheEntry { value, created_at_ms: now_ms, expires_at_ms, hit_count: 0 });
    Ok(())
}

/// Remove the entry under `key`; succeeds when it is absent too.
pub fn delete(state: &mut CacheState, key: &str) -> (r: Result<(), CacheError>)
    requires
        old(state).wf(),
    ensures
        final(state).wf(),
        norm_key(key@).len() == 0 ==> r == Err::<(), CacheError>(CacheError::InvalidKey)
            && final(state).store@ == old(state).store@,
        norm_key(key@).len() != 0 ==> r is Ok && final(state).store@ == old(state).store@.remove(norm_key(key@)),
{
    let k = normalise_key(key)?;
    let _ = state.store.remove(&k);
    Ok(())
}

/// Whether `key` holds a live entry at `now_ms` (a lookup: counts a hit or evicts).
pub fn key_exists(state: &mut CacheState, key: &str, now_ms: u64) -> (r: Result<bool, CacheError>)
    requires
        old(state).wf(),
        old(state).store@.contains_key(norm_key(key@)) ==> old(state).store@[norm_key(key@)].hit_count < u64::MAX,
    ensures
        final(state).wf(),
        norm_key(key@).len() == 0 ==> r == Err::<bool, CacheError>(CacheError::InvalidKey)
            && final(state).store@ == old(state).store@,
        norm_key(key@).len() != 0 ==> final(state).store@ == after_get(old(state).store@, norm_key(key@), now_ms)
            && r == Ok::<bool, CacheError>(found(old(state).store@, norm_key(key@), now_ms) is Some),
{
    Ok(get(state, key, now_ms)?.is_some())
}

/// Evict every expired entry; returns how many were evicted.
pub fn flush(state: &mut CacheState, now_ms: u64) -> (r: Result<u64, CacheError>)
    requires
        old(state).wf(),
    ensures
        final(state).wf(),
        final(state).store@ == old(state).store@.restrict(
            old(state).store@.dom().filter(|k: Seq<char>| !expired(old(state).store@[k], now_ms)),
        ),
        r matches Ok(n) && n == old(state).store@.dom().len() - final(state).store@.dom().len(),
{
    let ghost orig = state.store@;
    proof {
        state.store.lemma_wf();
    }
    let before = state.store.len() as u64;
    let mut old_store = KeyedStore::new();
    std::mem::swap(&mut old_store, &mut state.store);
    let mut kept: KeyedStore<CacheEntry> = KeyedStore::new();
    while old_store.len() > 0
        invariant
            old_store.wf(),
            kept.wf(),
            forall|k: Seq<char>| #[trigger] old_store@.contains_key(k) ==> orig.contains_key(k) && old_store@[k] == orig[k],
            forall|k: Seq<char>| #[trigger] kept@.contains_key(k) <==> orig.contains_key(k) && !old_store@.contains_key(k) && !expired(orig[k], now_ms),
            forall|k: Seq<char>| #[trigger] kept@.contains_key(k) ==> kept@[k] == orig[k],
        decreases old_store.entries().len(),
    {
        let (k, e) = old_store.take_at(0);
        let exp = match e.expires_at_ms {
            Some(x) => now_ms >= x,
            None => false,
        };
        if !exp {
            kept.insert(k, e);
        }
    }
    state.store = kept;
    let ghost target = orig.restrict(orig.dom().filter(|k: Seq<char>| !expired(orig[k], now_ms)));
    proof {
        assert(state.store@ =~= target);
        state.store.lemma_wf();
        assert(state.store@.dom().subset_of(orig.dom()));
        vstd::set_lib::lemma_len_subset(state.store@.dom(), orig.dom());
    }
    let after = state.store.len() as u64;
    Ok(before - after)
}

// ── HTTP cache keys ─────────────────────────────────────────────────────────

/// The cache key that `build_cache_key` makes for a GET of `path` with the
/// query pieces `pieces` already sorted.
pub open spec fn http_key(path: Seq<char>, pieces: Option<Seq<Seq<char>>>) -> Seq<char> {
    match pieces {
        Some(ps) => seq!['g', 'e', 't', ':'] + path + seq!['?'] + join_with(ps, seq!['&']),
        None => seq!['g', 'e', 't', ':'] + path,
    }
}

/// Build a cache key from method, path and query string sorted by pair:
/// `get:{path}?{sorted pairs}`, or `get:{path}` without a query.  Only GET
/// requests are cached; other methods get `None`.
pub fn build_cache_key(method: &str, path: &str, query: Option<&str>) -> (r: Option<String>)
    ensures
        !eq_ascii_ci(method@, seq!['G', 'E', 'T']) ==> r is None,
        eq_ascii_ci(method@, seq!['G', 'E', 'T']) ==> r is Some && match query {
            Some(q) if q@.len() > 0 => exists|ps: Seq<Seq<char>>| {
                &&& sorted_strs(ps)
                &&& ps.to_multiset() == split_on(q@, '&').to_multiset()
                &&& (r->0)@ == http_key(path@, Some(ps))
            },
            _ => (r->0)@ == http_key(path@, None),
        },
{
    let m = crate::text::chars_of(method);
    let get = crate::text::chars_of("GET");
    proof {
        reveal_strlit("GET");
        assert(get@ =~= seq!['G', 'E', 'T']);
    }
    if !crate::strings::eq_ignore_ascii_case(&m, &get) {
        return None;
    }
    let mut key: Vec<char> = Vec::new();
    crate::text::push_str(&mut key, "get:");
    crate::text::push_str(&mut key, path);
    proof {
        reveal_strlit("get:");
        assert(key@ =~= http_key(path@, None));
    }
    match query {
        Some(q) => {
            if q.is_empty() {
                return Some(crate::text::string_from_chars(key.as_slice()));
            }
            let qc = crate::text::chars_of(q);
            let pairs = crate::strings::split_char(&qc, '&');
            proof {
                assert(piece_views(pairs@) =~= split_on(q@, '&'));
            }
            let sorted = crate::strings::sort_pieces(pairs);
            let mut amp: Vec<char> = Vec::new();
            amp.push('&');
            let joined = crate::strings::join_pieces(&sorted, &amp);
            key.push('?');
            crate::text::push_chars(&mut key, &joined);
            proof {
                assert(amp@ =~= seq!['&']);
                assert(key@ =~= http_key(path@, Some(piece_views(sorted@))));
            }
            Some(crate::text::string_from_chars(key.as_slice()))
        },
        None => Some(crate::text::string_from_chars(key.as_slice())),
    }
}

/// Whether one comma-separated directive of `value` equals `directive`
/// (whitespace trimmed, ASCII case ignored).
pub open spec fn lists_directive(value: Seq<char>, directive: Seq<char>) -> bool {
    exists|i: int| 0 <= i < split_on(value, ',').len() && eq_ascii_ci(trim(#[trigger] split_on(value, ',')[i]), directive)
}

/// Whether some `Cache-Control` header (name compared ignoring ASCII case)
/// lists `directive`.
pub open spec fn has_directive(headers: Seq<(String, Vec<u8>)>, directive: Seq<char>) -> bool {
    exists|i: int| 0 <= i < headers.len() && eq_ascii_ci(#[trigger] headers[i].0@, "cache-control"@)
        && lists_directive(lossy(headers[i].1@), directive)
}

/// Whether `value` lists `directive`.
fn value_lists(value: &Vec<char>, directive: &Vec<char>) -> (r: bool)
    ensures
        r == lists_directive(value@, directive@),
{
    let parts = crate::strings::split_char(value, ',');
    let mut i: usize = 0;
    while i < parts.len()
        invariant
            i <= parts@.len(),
            parts@.len() == split_on(value@, ',').len(),
            forall|j: int| 0 <= j < parts@.len() ==> #[trigger] parts@[j]@ == split_on(value@, ',')[j],
            forall|j: int| 0 <= j < i ==> !eq_ascii_ci(trim(#[trigger] split_on(value@, ',')[j]), directive@),
        decreases parts@.len() - i,
    {
        let t = crate::text::trim_chars(&parts[i]);
        if crate::strings::eq_ignore_ascii_case(&t, directive) {
            proof {
                assert(parts@[i as int]@ == split_on(value@, ',')[i as int]);
            }
            return true;
        }
        i = i + 1;
    }
    false
}

/// Return true if any `Cache-Control` value contains the given directive.
pub fn has_cache_control(headers: &[(String, Vec<u8>)], directive: &str) -> (r: bool)
    ensures
        r == has_directive(headers@, directive@),
{
    let d = crate::text::chars_of(directive);
    let cc = crate::text::chars_of("cache-control");
    let mut i: usize = 0;
    while i < headers.len()
        invariant
            i <= headers@.len(),
            d@ == directive@,
            cc@ == "cache-control"@,
            forall|j: int| 0 <= j < i ==> !(eq_ascii_ci(#[trigger] headers@[j].0@, "cache-control"@)
                && lists_directive(lossy(headers@[j].1@), directive@)),
        decreases headers@.len() - i,
    {
        let name = crate::text::chars_of(headers[i].0.as_str());
        if crate::strings::eq_ignore_ascii_case(&name, &cc) {
            let v = crate::text::from_utf8_lossy(headers[i].1.as_slice());
            let vc = crate::text::chars_of(v.as_str());
            if value_lists(&vc, &d) {
                return true;
            }
        }
        i = i + 1;
    }
    false
}

// ── The caching middleware ──────────────────────────────────────────────────

/// What the caching middleware answers a request with.
#[derive(Debug)]
pub enum CacheAnswer {
    /// A cached response (`X-Cache: HIT`): its body and its age in whole seconds.
    Hit { body: Vec<u8>, age_secs: u64 },
    /// No cached response (`X-Cache: MISS`).
    Miss,
}

/// The path and the query of a request target, split at the first `?`.
pub open spec fn split_target(t: Seq<char>) -> (Seq<char>, Option<Seq<char>>) {
    match crate::strings::first_index(t, '?') {
        None => (t, None),
        Some(i) => (t.take(i), Some(t.skip(i + 1))),
    }
}

/// `key` is a cache key that `build_cache_key` makes for a GET of `path` with `query`.
pub open spec fn is_http_key(path: Seq<char>, query: Option<Seq<char>>, key: Seq<char>) -> bool {
    match query {
        Some(q) => if q.len() > 0 {
            exists|ps: Seq<Seq<char>>| {
                &&& sorted_strs(ps)
                &&& ps.to_multiset() == split_on(q, '&').to_multiset()
                &&& key == #[trigger] http_key(path, Some(ps))
            }
        } else {
            key == http_key(path, None)
        },
        None => key == http_key(path, None),
    }
}

/// What a lookup under `key` at `now` answers and leaves in the cache `m`.
pub open spec fn lookup_outcome(
    m: Map<Seq<char>, CacheEntry>,
    key: Seq<char>,
    now: u64,
    r: CacheAnswer,
    m2: Map<Seq<char>, CacheEntry>,
) -> bool {
    if norm_key(key).len() == 0 {
        r is Miss && m2 == m
    } else {
        &&& m2 == after_get(m, norm_key(key), now)
        &&& match found(m, norm_key(key), now) {
            Some(e) => r matches CacheAnswer::Hit { body, age_secs } && body@ == e.value@
                && age_secs == (if now >= e.created_at_ms { (now - e.created_at_ms) / 1000 } else { 0 }),
            None => r is Miss,
        }
    }
}

/// Answer a request from the cache: a GET of `target` (path and query) is
/// looked up under its cache key at `now_ms`, unless a `Cache-Control`
/// header asks for `no-cache`; a hit carries the cached body and its age.
pub fn http_lookup(
    state: &mut CacheState,
    method: &str,
    target: &str,
    headers: &[(String, Vec<u8>)],
    now_ms: u64,
) -> (r: CacheAnswer)
    requires
        old(state).wf(),
        forall|k: Seq<char>| #[trigger] old(state).store@.contains_key(k) ==> old(state).store@[k].hit_count < u64::MAX,
    ensures
        final(state).wf(),
        ({
            let (path, query) = split_target(target@);
            if !eq_ascii_ci(method@, seq!['G', 'E', 'T']) || has_directive(headers@, "no-cache"@) {
                r is Miss && final(state).store@ == old(state).store@
            } else {
                exists|key: Seq<char>| #[trigger] is_http_key(path, query, key)
                    && lookup_outcome(old(state).store@, key, now_ms, r, final(state).store@)
            }
        }),
{
    let t = crate::text::chars_of(target);
    let (path, query) = match crate::strings::find_char(&t, '?') {
        Some(i) => {
            let p = crate::text::slice_vec(&t, 0, i);
            let q = crate::text::slice_vec(&t, i + 1, t.len());
            proof {
                assert(p@ =~= target@.take(i as int));
                assert(q@ =~= target@.skip(i + 1));
            }
            (crate::text::string_from_chars(p.as_slice()), Some(crate::text::string_from_chars(q.as_slice())))
        },
        None => (crate::text::owned(target), None),
    };
    let no_cache = has_cache_control(headers, "no-cache");
    let qs: Option<&str> = match &query {
        Some(q) => Some(q.as_str()),
        None => None,
    };
    let cache_key = build_cache_key(method, path.as_str(), qs);
    match cache_key {
        Some(key) => {
            if no_cache {
                return CacheAnswer::Miss;
            }
            let ghost m0 = state.store@;
            let ghost nk = norm_key(key@);
            proof {
                assert(is_http_key(split_target(target@).0, split_target(target@).1, key@));
                if m0.contains_key(nk) {
                    assert(m0[nk].hit_count < u64::MAX);
                }
            }
            match get(state, key.as_str(), now_ms) {
                Ok(Some(entry)) => {
                    let age_secs = now_ms.saturating_sub(entry.created_at_ms) / 1000;
                    CacheAnswer::Hit { body: entry.value, age_secs }
                },
                _ => CacheAnswer::Miss,
            }
        },
        None => CacheAnswer::Miss,
    }
}

// ── Laws ────────────────────────────────────────────────────────────────────

/// A value set under a key is found by a lookup of that key until it expires,
/// with one hit counted.
pub proof fn law_get_after_set(m: Map<Seq<char>, CacheEntry>, k: Seq<char>, value: Vec<u8>, ttl_ms: Option<u64>, now: u64, later: u64)
    requires
        ttl_ms matches Some(t) ==> later < now + t && now + t <= u64::MAX,
    ensures
        found(m.insert(k, new_entry(value, ttl_ms, now)), k, later) == Some(CacheEntry { hit_count: 1, ..new_entry(value, ttl_ms, now) }),
        after_get(m.insert(k, new_entry(value, ttl_ms, now)), k, later)[k].hit_count == 1,
{
}

/// Once its time-to-live has passed, a value is no longer found and the lookup evicts it.
pub proof fn law_expired_evicted(m: Map<Seq<char>, CacheEntry>, k: Seq<char>, value: Vec<u8>, t: u64, now: u64, later: u64)
    requires
        now + t <= u64::MAX,
        later >= now + t,
    ensures
        found(m.insert(k, new_entry(value, Some(t), now)), k, later) is None,
        !after_get(m.insert(k, new_entry(value, Some(t), now)), k, later).contains_key(k),
{
}

/// After a delete, nothing is found under the key.
pub proof fn law_get_after_delete(m: Map<Seq<char>, CacheEntry>, k: Seq<char>, now: u64)
    ensures
        found(m.remove(k), k, now) is None,
{
}

/// Overwriting a key replaces its value: the later `set` wins.
pub proof fn law_overwrite(m: Map<Seq<char>, CacheEntry>, k: Seq<char>, v1: Vec<u8>, v2: Vec<u8>, now: u64)
    ensures
        found(m.insert(k, new_entry(v1, None, now)).insert(k, new_entry(v2, None, now)), k, now) == Some(CacheEntry { hit_count: 1, ..new_entry(v2, None, now) }),
{
}

/// A flush keeps exactly the live entries, unchanged.
pub proof fn law_flush_keeps_live(m: Map<Seq<char>, CacheEntry>, k: Seq<char>, now: u64)
    ensures
        ({
            let f = m.restrict(m.dom().filter(|q: Seq<char>| !expired(m[q], now)));
            &&& f.contains_key(k) <==> m.contains_key(k) && !expired(m[k], now)
            &&& f.contains_key(k) ==> f[k] == m[k]
        }),
{
}

} // verus!
