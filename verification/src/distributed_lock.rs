//! Distributed lock: expiring locks under validated keys, released by token.
use vstd::prelude::*;
use crate::store::KeyedStore;
use crate::text::{trim, key_ok, dec};

verus! {

/// What `get_lock` reports about a lock.
#[derive(Debug, Clone)]
pub struct LockInfo {
    pub key: String,
    pub owner_id: String,
    pub acquired_at_ms: u64,
    pub expires_at_ms: u64,
}

/// Errors of the lock service.
#[derive(Debug, Clone, Copy, PartialEq, Eq, Structural)]
pub enum LockError {
    AlreadyLocked,
    NotFound,
    InvalidToken,
    InvalidKey,
    StorageError,
}

/// A held (or expired, not yet evicted) lock.
#[derive(Debug, Clone)]
pub struct LockEntry {
    pub owner_id: String,
    pub token: String,
    pub acquired_at_ms: u64,
    pub expires_at_ms: u64,
}

/// The characters besides alphanumerics that keys may hold.
pub open spec fn key_extra() -> Seq<char> {
    seq!['-', '_', '.', ':']
}

/// Whether `key` is accepted.
pub open spec fn valid_key(key: Seq<char>) -> bool {
    key_ok(key, key_extra())
}

/// The trimmed key, when it is non-empty and made of alphanumerics and `- _ . :`.
pub fn validate_key(key: &str) -> (r: Result<String, LockError>)
    ensures
        !valid_key(key@) ==> r == Err::<String, LockError>(LockError::InvalidKey),
        valid_key(key@) ==> (r matches Ok(k) && k@ == trim(key@)),
{
    let extra = ['-', '_', '.', ':'];
    proof {
        assert(extra@ =~= key_extra());
    }
    match crate::text::checked_key(key, &extra) {
        Some(k) => Ok(k),
        None => Err(LockError::InvalidKey),
    }
}

/// The token for a lock: `{key}:{owner}:{acquired_at_ms}`.
pub open spec fn token_of(key: Seq<char>, owner_id: Seq<char>, acquired_at_ms: u64) -> Seq<char> {
    key + seq![':'] + owner_id + seq![':'] + dec(acquired_at_ms as nat)
}

/// Deterministic token from key, owner and acquisition time.
pub fn make_token(key: &str, owner_id: &str, acquired_at_ms: u64) -> (r: String)
    ensures
        r@ == token_of(key@, owner_id@, acquired_at_ms),
{
    let mut v: Vec<char> = Vec::new();
    crate::text::push_str(&mut v, key);
    v.push(':');
    crate::text::push_str(&mut v, owner_id);
    v.push(':');
    let d = crate::text::u64_to_dec(acquired_at_ms);
    crate::text::push_chars(&mut v, &d);
    proof {
        assert(v@ =~= token_of(key@, owner_id@, acquired_at_ms));
    }
    crate::text::string_from_chars(v.as_slice())
}

/// Every lock, by trimmed key.
pub struct LockState {
    pub locks: KeyedStore<LockEntry>,
}

impl LockState {
    /// The store is well formed.
    pub open spec fn wf(&self) -> bool {
        self.locks.wf()
    }

    /// No locks.
    pub fn new() -> (r: Self)
        ensures
            r.wf(),
            r.locks@ == Map::<Seq<char>, LockEntry>::empty(),
    {
        LockState { locks: KeyedStore::new() }
    }
}

/// Whether the lock under `k` is held at `now`.
pub open spec fn is_held(m: Map<Seq<char>, LockEntry>, k: Seq<char>, now: u64) -> bool {
    m.contains_key(k) && now < m[k].expires_at_ms
}

/// The lock that `acquire` stores.
pub open spec fn acquired(k: Seq<char>, owner: Seq<char>, ttl_ms: u64, now: u64, e: LockEntry) -> bool {
    e.owner_id@ == owner && e.token@ == token_of(k, owner, now) && e.acquired_at_ms == now
        && e.expires_at_ms == now + ttl_ms
}

/// Acquire the lock `key` for `owner_id` for `ttl_ms`; an expired lock is
/// evicted first.  Returns the release token.
pub fn acquire(state: &mut LockState, key: &str, owner_id: &str, ttl_ms: u64, now_ms: u64) -> (r: Result<String, LockError>)
    requires
        old(state).wf(),
        valid_key(key@) && !is_held(old(state).locks@, trim(key@), now_ms) ==> now_ms + ttl_ms <= u64::MAX,
    ensures
        final(state).wf(),
        !valid_key(key@) ==> r == Err::<String, LockError>(LockError::InvalidKey),
        valid_key(key@) && is_held(old(state).locks@, trim(key@), now_ms) ==> r == Err::<String, LockError>(LockError::AlreadyLocked),
        r is Err ==> final(state).locks@ == old(state).locks@,
        valid_key(key@) && !is_held(old(state).locks@, trim(key@), now_ms) ==> {
            let k = trim(key@);
            &&& r matches Ok(t) && t@ == token_of(k, owner_id@, now_ms)
            &&& final(state).locks@.dom() == old(state).locks@.dom().insert(k)
            &&& forall|q: Seq<char>| q != k && #[trigger] old(state).locks@.contains_key(q) ==> final(state).locks@[q] == old(state).locks@[q]
            &&& acquired(k, owner_id@, ttl_ms, now_ms, final(state).locks@[k])
        },
{
    let k = validate_key(key)?;
    match state.locks.find(&k) {
        Some(i) => {
            if now_ms < state.locks.entry_at(i).1.expires_at_ms {
                return Err(LockError::AlreadyLocked);
            }
            let _ = state.locks.remove_at(i);
        },
        None => {},
    }
    let token = make_token(k.as_str(), owner_id, now_ms);
    let e = LockEntry {
        owner_id: crate::text::owned(owner_id),
        token: token.clone(),
        acquired_at_ms: now_ms,
        expires_at_ms: now_ms + ttl_ms,
    };
    state.locks.insert(k, e);
    Ok(token)
}

/// Release the lock `key`; the token must match.
pub fn release(state: &mut LockState, key: &str, token: &str) -> (r: Result<(), LockError>)
    requires
        old(state).wf(),
    ensures
        final(state).wf(),
        !valid_key(key@) ==> r == Err::<(), LockError>(LockError::InvalidKey),
        valid_key(key@) && !old(state).locks@.contains_key(trim(key@)) ==> r == Err::<(), LockError>(LockError::NotFound),
        valid_key(key@) && old(state).locks@.contains_key(trim(key@)) && old(state).locks@[trim(key@)].token@ != token@
            ==> r == Err::<(), LockError>(LockError::InvalidToken),
        valid_key(key@) && old(state).locks@.contains_key(trim(key@)) && old(state).locks@[trim(key@)].token@ == token@
            ==> r is Ok && final(state).locks@ == old(state).locks@.remove(trim(key@)),
        r is Err ==> final(state).locks@ == old(state).locks@,
{
    let k = validate_key(key)?;
    let i = match state.locks.find(&k) {
        Some(i) => i,
        None => return Err(LockError::NotFound),
    };
    let t = crate::text::owned(token);
    if state.locks.entry_at(i).1.token != t {
        return Err(LockError::InvalidToken);
    }
    let _ = state.locks.remove_at(i);
    Ok(())
}

/// Extend the lock `key` to expire `ttl_ms` after `now_ms`; the token must match.
pub fn extend(state: &mut LockState, key: &str, token: &str, ttl_ms: u64, now_ms: u64) -> (r: Result<(), LockError>)
    requires
        old(state).wf(),
        valid_key(key@) && old(state).locks@.contains_key(trim(key@)) && old(state).locks@[trim(key@)].token@ == token@
            ==> now_ms + ttl_ms <= u64::MAX,
    ensures
        final(state).wf(),
        !valid_key(key@) ==> r == Err::<(), LockError>(LockError::InvalidKey),
        valid_key(key@) && !old(state).locks@.contains_key(trim(key@)) ==> r == Err::<(), LockError>(LockError::NotFound),
        valid_key(key@) && old(state).locks@.contains_key(trim(key@)) && old(state).locks@[trim(key@)].token@ != token@
            ==> r == Err::<(), LockError>(LockError::InvalidToken),
        valid_key(key@) && old(state).locks@.contains_key(trim(key@)) && old(state).locks@[trim(key@)].token@ == token@
            ==> r is Ok && final(state).locks@ == old(state).locks@.insert(
                trim(key@),
                LockEntry { expires_at_ms: (now_ms + ttl_ms) as u64, ..old(state).locks@[trim(key@)] },
            ),
        r is Err ==> final(state).locks@ == old(state).locks@,
{
    let k = validate_key(key)?;
    let i = match state.locks.find(&k) {
        Some(i) => i,
        None => return Err(LockError::NotFound),
    };
    let t = crate::text::owned(token);
    if state.locks.entry_at(i).1.token != t {
        return Err(LockError::InvalidToken);
    }
    let (kk, mut e) = state.locks.take_at(i);
    e.expires_at_ms = now_ms + ttl_ms;
    state.locks.restore_at(i, kk, e);
    Ok(())
}

/// Whether `key` is locked at `now_ms` (an expired lock is not).
pub fn is_locked(state: &LockState, key: &str, now_ms: u64) -> (r: Result<bool, LockError>)
    requires
        state.wf(),
    ensures
        !valid_key(key@) ==> r == Err::<bool, LockError>(LockError::InvalidKey),
        valid_key(key@) ==> r == Ok::<bool, LockError>(is_held(state.locks@, trim(key@), now_ms)),
{
    let k = validate_key(key)?;
    match state.locks.get(&k) {
        Some(e) => Ok(now_ms < e.expires_at_ms),
        None => Ok(false),
    }
}

/// Report the lock under `key`.
pub fn get_lock(state: &LockState, key: &str) -> (r: Result<LockInfo, LockError>)
    requires
        state.wf(),
    ensures
        !valid_key(key@) ==> r == Err::<LockInfo, LockError>(LockError::InvalidKey),
        valid_key(key@) && !state.locks@.contains_key(trim(key@)) ==> r == Err::<LockInfo, LockError>(LockError::NotFound),
        valid_key(key@) && state.locks@.contains_key(trim(key@)) ==> (r matches Ok(info) && {
            let e = state.locks@[trim(key@)];
            info.key@ == trim(key@) && info.owner_id == e.owner_id && info.acquired_at_ms == e.acquired_at_ms
                && info.expires_at_ms == e.expires_at_ms
        }),
{
    let k = validate_key(key)?;
    match state.locks.get(&k) {
        Some(e) => Ok(LockInfo {
            key: k.clone(),
            owner_id: e.owner_id.clone(),
            acquired_at_ms: e.acquired_at_ms,
            expires_at_ms: e.expires_at_ms,
        }),
        None => Err(LockError::NotFound),
    }
}

// ── Laws ────────────────────────────────────────────────────────────────────

/// A lock acquired with a positive time-to-live is held until it expires and
/// free from then on, so a second `acquire` fails exactly while it is held.
pub proof fn law_acquired_lock_is_held(m: Map<Seq<char>, LockEntry>, k: Seq<char>, owner: Seq<char>, ttl_ms: u64, now: u64, e: LockEntry, later: u64)
    requires
        acquired(k, owner, ttl_ms, now, e),
        now <= later,
    ensures
        is_held(m.insert(k, e), k, later) <==> later < now + ttl_ms,
{
}

/// Releasing frees the lock.
pub proof fn law_release_frees(m: Map<Seq<char>, LockEntry>, k: Seq<char>, now: u64)
    ensures
        !is_held(m.remove(k), k, now),
{
}

/// Extending moves the expiry to `now + ttl_ms`.
pub proof fn law_extend_moves_expiry(m: Map<Seq<char>, LockEntry>, k: Seq<char>, now: u64, ttl_ms: u64, later: u64)
    requires
        m.contains_key(k),
        now + ttl_ms <= u64::MAX,
    ensures
        is_held(m.insert(k, LockEntry { expires_at_ms: (now + ttl_ms) as u64, ..m[k] }), k, later) <==> later < now + ttl_ms,
{
}

} // verus!
