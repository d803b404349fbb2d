//! Idempotency keys: the first request with a key is new, later ones see the
//! stored record until it expires.
use vstd::prelude::*;
use crate::store::KeyedStore;
use crate::text::{trim, key_ok};

verus! {

/// The status of an idempotent operation.
#[derive(Debug, Clone, Copy, PartialEq, Eq, Structural)]
pub enum KeyStatus {
    Pending,
    Completed,
    Failed,
}

/// The record kept for a key.
#[derive(Debug, Clone)]
pub struct IdempotencyRecord {
    pub key: String,
    pub status: KeyStatus,
    pub response: Option<String>,
    pub created_at_ms: u64,
    pub expires_at_ms: Option<u64>,
}

/// Errors of the idempotency store.
#[derive(Debug, Clone, Copy, PartialEq, Eq, Structural)]
pub enum IdempotencyError {
    InvalidKey,
    StorageError,
    NotFound,
}

/// The answer of `check_or_create`.
#[derive(Debug)]
pub struct CheckResult {
    pub is_new: bool,
    pub cached_record: Option<IdempotencyRecord>,
}

/// The characters besides alphanumerics that keys may hold.
pub open spec fn key_extra() -> Seq<char> {
    seq!['-', '_', '.', ':']
}

/// Whether `key` is accepted.
pub open spec fn valid_key(key: Seq<char>) -> bool {
    key_ok(key, key_extra())
}

/// The trimmed key, when it is non-empty and made of alphanumerics and `- _ . :`.
pub fn validate_key(key: &str) -> (r: Result<String, IdempotencyError>)
    ensures
        !valid_key(key@) ==> r == Err::<String, IdempotencyError>(IdempotencyError::InvalidKey),
        valid_key(key@) ==> (r matches Ok(k) && k@ == trim(key@)),
{
    let extra = ['-', '_', '.', ':'];
    proof {
        assert(extra@ =~= key_extra());
    }
    match crate::text::checked_key(key, &extra) {
        Some(k) => Ok(k),
        None => Err(IdempotencyError::InvalidKey),
    }
}

/// Every record, by trimmed key.
pub struct IdempotencyState {
    pub records: KeyedStore<IdempotencyRecord>,
}

impl IdempotencyState {
    /// The store is well formed.
    pub open spec fn wf(&self) -> bool {
        self.records.wf()
    }

    /// No records.
    pub fn new() -> (r: Self)
        ensures
            r.wf(),
            r.records@ == Map::<Seq<char>, IdempotencyRecord>::empty(),
    {
        IdempotencyState { records: KeyedStore::new() }
    }
}

/// Whether the record under `k` is live (present and not expired) at `now`.
pub open spec fn live(m: Map<Seq<char>, IdempotencyRecord>, k: Seq<char>, now: u64) -> bool {
    m.contains_key(k) && !(m[k].expires_at_ms matches Some(exp) && now >= exp)
}

/// Whether `rec` is the fresh pending record for key `k`.
pub open spec fn fresh_record(rec: IdempotencyRecord, k: Seq<char>, ttl_ms: Option<u64>, now: u64) -> bool {
    &&& rec.key@ == k
    &&& rec.status == KeyStatus::Pending
    &&& rec.response is None
    &&& rec.created_at_ms == now
    &&& rec.expires_at_ms == match ttl_ms {
        Some(t) => Some((now + t) as u64),
        None => None,
    }
}

/// A copy of a record.
fn copy_record(r: &IdempotencyRecord) -> (c: IdempotencyRecord)
    ensures
        c == *r,
{
    IdempotencyRecord {
        key: r.key.clone(),
        status: r.status,
        response: crate::text::copy_opt_string(&r.response),
        created_at_ms: r.created_at_ms,
        expires_at_ms: r.expires_at_ms,
    }
}

/// Check the key: a live record is returned as not new; otherwise (absent or
/// expired) a pending record is stored and the key reported as new.
pub fn check_or_create(state: &mut IdempotencyState, key: &str, ttl_ms: Option<u64>, now_ms: u64) -> (r: Result<CheckResult, IdempotencyError>)
    requires
        old(state).wf(),
        valid_key(key@) && !live(old(state).records@, trim(key@), now_ms) ==> (ttl_ms matches Some(t) ==> now_ms + t <= u64::MAX),
    ensures
        final(state).wf(),
        !valid_key(key@) ==> r is Err && final(state).records@ == old(state).records@,
        !valid_key(key@) ==> r == Err::<CheckResult, IdempotencyError>(IdempotencyError::InvalidKey),
        valid_key(key@) && live(old(state).records@, trim(key@), now_ms) ==> (r matches Ok(c) && !c.is_new
            && c.cached_record == Some(old(state).records@[trim(key@)]))
            && final(state).records@ == old(state).records@,
        valid_key(key@) && !live(old(state).records@, trim(key@), now_ms) ==> (r matches Ok(c) && c.is_new && c.cached_record is None)
            && final(state).records@.dom() == old(state).records@.dom().insert(trim(key@))
            && (forall|q: Seq<char>| q != trim(key@) && #[trigger] old(state).records@.contains_key(q) ==> final(state).records@[q] == old(state).records@[q])
            && fresh_record(final(state).records@[trim(key@)], trim(key@), ttl_ms, now_ms),
{
    let k = validate_key(key)?;
    match state.records.find(&k) {
        Some(i) => {
            let expired = match state.records.entry_at(i).1.expires_at_ms {
                Some(exp) => now_ms >= exp,
                None => false,
            };
            if expired {
                let _ = state.records.remove_at(i);
            } else {
                let rec = copy_record(state.records.entry_at(i).1);
                return Ok(CheckResult { is_new: false, cached_record: Some(rec) });
            }
        },
        None => {},
    }
    let expires_at_ms = match ttl_ms {
        Some(t) => Some(now_ms + t),
        None => None,
    };
    let record = IdempotencyRecord {
        key: k.clone(),
        status: KeyStatus::Pending,
        response: None,
        created_at_ms: now_ms,
        expires_at_ms,
    };
    state.records.insert(k, record);
    Ok(CheckResult { is_new: true, cached_record: None })
}

/// Mark `key` completed with an optional response.
pub fn complete(state: &mut IdempotencyState, key: &str, response: Option<String>) -> (r: Result<(), IdempotencyError>)
    requires
        old(state).wf(),
    ensures
        final(state).wf(),
        !valid_key(key@) ==> r == Err::<(), IdempotencyError>(IdempotencyError::InvalidKey),
        valid_key(key@) && !old(state).records@.contains_key(trim(key@)) ==> r == Err::<(), IdempotencyError>(IdempotencyError::NotFound),
        r is Err ==> final(state).records@ == old(state).records@,
        valid_key(key@) && old(state).records@.contains_key(trim(key@)) ==> r is Ok && final(state).records@ == old(state).records@.insert(
            trim(key@),
            IdempotencyRecord { status: KeyStatus::Completed, response, ..old(state).records@[trim(key@)] },
        ),
{
    let k = validate_key(key)?;
    let i = match state.records.find(&k) {
        Some(i) => i,
        None => return Err(IdempotencyError::NotFound),
    };
    let (kk, mut rec) = state.records.take_at(i);
    rec.status = KeyStatus::Completed;
    rec.response = response;
    state.records.restore_at(i, kk, rec);
    Ok(())
}

/// Mark `key` failed with an optional error payload.
pub fn fail(state: &mut IdempotencyState, key: &str, error_payload: Option<String>) -> (r: Result<(), IdempotencyError>)
    requires
        old(state).wf(),
    ensures
        final(state).wf(),
        !valid_key(key@) ==> r == Err::<(), IdempotencyError>(IdempotencyError::InvalidKey),
        valid_key(key@) && !old(state).records@.contains_key(trim(key@)) ==> r == Err::<(), IdempotencyError>(IdempotencyError::NotFound),
        r is Err ==> final(state).records@ == old(state).records@,
        valid_key(key@) && old(state).records@.contains_key(trim(key@)) ==> r is Ok && final(state).records@ == old(state).records@.insert(
            trim(key@),
            IdempotencyRecord { status: KeyStatus::Failed, response: error_payload, ..old(state).records@[trim(key@)] },
        ),
{
    let k = validate_key(key)?;
    let i = match state.records.find(&k) {
        Some(i) => i,
        None => return Err(IdempotencyError::NotFound),
    };
    let (kk, mut rec) = state.records.take_at(i);
    rec.status = KeyStatus::Failed;
    rec.response = error_payload;
    state.records.restore_at(i, kk, rec);
    Ok(())
}

/// The record under `key`.
pub fn get(state: &IdempotencyState, key: &str) -> (r: Result<IdempotencyRecord, IdempotencyError>)
    requires
        state.wf(),
    ensures
        !valid_key(key@) ==> r == Err::<IdempotencyRecord, IdempotencyError>(IdempotencyError::InvalidKey),
        valid_key(key@) && !state.records@.contains_key(trim(key@)) ==> r == Err::<IdempotencyRecord, IdempotencyError>(IdempotencyError::NotFound),
        valid_key(key@) && state.records@.contains_key(trim(key@)) ==> r == Ok::<IdempotencyRecord, IdempotencyError>(state.records@[trim(key@)]),
{
    let k = validate_key(key)?;
    match state.records.get(&k) {
        Some(rec) => Ok(copy_record(rec)),
        None => Err(IdempotencyError::NotFound),
    }
}

/// Delete the record under `key`; succeeds when it is absent too.
pub fn delete(state: &mut IdempotencyState, key: &str) -> (r: Result<(), IdempotencyError>)
    requires
        old(state).wf(),
    ensures
        final(state).wf(),
        !valid_key(key@) ==> r == Err::<(), IdempotencyError>(IdempotencyError::InvalidKey) && final(state).records@ == old(state).records@,
        valid_key(key@) ==> r is Ok && final(state).records@ == old(state).records@.remove(trim(key@)),
{
    let k = validate_key(key)?;
    let _ = state.records.remove(&k);
    Ok(())
}

// ── Laws ────────────────────────────────────────────────────────────────────

/// After a key was created at `now` with time-to-live `ttl_ms`, the key is
/// live (so a repeated check is not new) exactly until it expires.
pub proof fn law_repeat_check_not_new(m: Map<Seq<char>, IdempotencyRecord>, k: Seq<char>, rec: IdempotencyRecord, ttl_ms: Option<u64>, now: u64, later: u64)
    requires
        fresh_record(rec, k, ttl_ms, now),
        ttl_ms matches Some(t) ==> now + t <= u64::MAX,
    ensures
        live(m.insert(k, rec), k, later) <==> match ttl_ms {
            Some(t) => later < now + t,
            None => true,
        },
{
}

} // verus!
