//! Tenant context: tenant registration and tenant-scoped keys `{tenant}:{key}`.
use vstd::prelude::*;
use crate::store::KeyedStore;
use crate::text::{trim, key_ok};

verus! {

/// Registration data of a tenant.
#[derive(Debug, Clone)]
pub struct TenantInfo {
    pub id: String,
    pub display_name: Option<String>,
    pub created_at_ms: u64,
}

/// Errors of the tenant registry.
#[derive(Debug, Clone, Copy, PartialEq, Eq, Structural)]
pub enum TenantError {
    InvalidTenantId,
    NotFound,
    DuplicateTenant,
    InvalidKey,
}

/// Whether `id` is an accepted tenant id: trimmed, non-empty, alphanumerics,
/// `-` and `_` (no colon: the colon separates scope from key).
pub open spec fn valid_tenant_id(id: Seq<char>) -> bool {
    key_ok(id, seq!['-', '_'])
}

/// Whether `key` is an accepted key: trimmed, non-empty, alphanumerics and `- _ . :`.
pub open spec fn valid_key(key: Seq<char>) -> bool {
    key_ok(key, seq!['-', '_', '.', ':'])
}

/// The trimmed tenant id, when accepted.
pub fn validate_tenant_id(id: &str) -> (r: Result<String, TenantError>)
    ensures
        !valid_tenant_id(id@) ==> r == Err::<String, TenantError>(TenantError::InvalidTenantId),
        valid_tenant_id(id@) ==> (r matches Ok(k) && k@ == trim(id@)),
{
    let extra = ['-', '_'];
    proof {
        assert(extra@ =~= seq!['-', '_']);
    }
    match crate::text::checked_key(id, &extra) {
        Some(k) => Ok(k),
        None => Err(TenantError::InvalidTenantId),
    }
}

/// The trimmed key, when accepted.
pub fn validate_key(key: &str) -> (r: Result<String, TenantError>)
    ensures
        !valid_key(key@) ==> r == Err::<String, TenantError>(TenantError::InvalidKey),
        valid_key(key@) ==> (r matches Ok(k) && k@ == trim(key@)),
{
    let extra = ['-', '_', '.', ':'];
    proof {
        assert(extra@ =~= seq!['-', '_', '.', ':']);
    }
    match crate::text::checked_key(key, &extra) {
        Some(k) => Ok(k),
        None => Err(TenantError::InvalidKey),
    }
}

/// Every registered tenant, by trimmed id.
pub struct TenantState {
    pub tenants: KeyedStore<TenantInfo>,
}

impl TenantState {
    /// The store is well formed.
    pub open spec fn wf(&self) -> bool {
        self.tenants.wf()
    }

    /// No tenants.
    pub fn new() -> (r: Self)
        ensures
            r.wf(),
            r.tenants@ == Map::<Seq<char>, TenantInfo>::empty(),
    {
        TenantState { tenants: KeyedStore::new() }
    }
}

/// Register tenant `id`.
pub fn register(state: &mut TenantState, id: &str, display_name: Option<String>, now_ms: u64) -> (r: Result<(), TenantError>)
    requires
        old(state).wf(),
    ensures
        final(state).wf(),
        !valid_tenant_id(id@) ==> r == Err::<(), TenantError>(TenantError::InvalidTenantId),
        valid_tenant_id(id@) && old(state).tenants@.contains_key(trim(id@)) ==> r == Err::<(), TenantError>(TenantError::DuplicateTenant),
        r is Err ==> final(state).tenants@ == old(state).tenants@,
        valid_tenant_id(id@) && !old(state).tenants@.contains_key(trim(id@)) ==> r is Ok
            && final(state).tenants@.dom() == old(state).tenants@.dom().insert(trim(id@))
            && (forall|q: Seq<char>| q != trim(id@) && #[trigger] old(state).tenants@.contains_key(q) ==> final(state).tenants@[q] == old(state).tenants@[q])
            && ({
                let t = final(state).tenants@[trim(id@)];
                t.id@ == trim(id@) && t.display_name == display_name && t.created_at_ms == now_ms
            }),
{
    let tid = validate_tenant_id(id)?;
    if state.tenants.contains(&tid) {
        return Err(TenantError::DuplicateTenant);
    }
    let info = TenantInfo { id: tid.clone(), display_name, created_at_ms: now_ms };
    state.tenants.insert(tid, info);
    Ok(())
}

/// The scoped key `{tenant}:{key}` of two trimmed parts.
pub open spec fn scoped(tenant: Seq<char>, key: Seq<char>) -> Seq<char> {
    tenant + seq![':'] + key
}

/// Produce the scoped key `{tenant_id}:{key}`; both parts are validated, the
/// tenant need not be registered.
pub fn scope(tenant_id: &str, key: &str) -> (r: Result<String, TenantError>)
    ensures
        !valid_tenant_id(tenant_id@) ==> r == Err::<String, TenantError>(TenantError::InvalidTenantId),
        valid_tenant_id(tenant_id@) && !valid_key(key@) ==> r == Err::<String, TenantError>(TenantError::InvalidKey),
        valid_tenant_id(tenant_id@) && valid_key(key@) ==> (r matches Ok(s) && s@ == scoped(trim(tenant_id@), trim(key@))),
{
    let tid = validate_tenant_id(tenant_id)?;
    let k = validate_key(key)?;
    let mut v = crate::text::chars_of(tid.as_str());
    v.push(':');
    crate::text::push_str(&mut v, k.as_str());
    Ok(crate::text::string_from_chars(v.as_slice()))
}

/// The part of `s` before its first colon, if it has one.
pub open spec fn before_colon(s: Seq<char>) -> Option<Seq<char>> {
    match crate::strings::first_index(s, ':') {
        Some(i) => Some(s.take(i)),
        None => None,
    }
}

/// The tenant id of a scoped key: the trimmed key's part before the first colon, validated.
pub fn parse_tenant(scoped_key: &str) -> (r: Result<String, TenantError>)
    ensures
        before_colon(trim(scoped_key@)) is None ==> r == Err::<String, TenantError>(TenantError::InvalidKey),
        before_colon(trim(scoped_key@)) matches Some(t) ==> (
            (!valid_tenant_id(t) ==> r == Err::<String, TenantError>(TenantError::InvalidTenantId))
            && (valid_tenant_id(t) ==> (r matches Ok(id) && id@ == trim(t)))),
{
    let s = crate::text::trimmed(scoped_key);
    let colon = match crate::strings::find_char(&s, ':') {
        Some(i) => i,
        None => return Err(TenantError::InvalidKey),
    };
    let tid = crate::text::slice_vec(&s, 0, colon);
    proof {
        assert(tid@ =~= s@.take(colon as int));
    }
    let ts = crate::text::string_from_chars(tid.as_slice());
    validate_tenant_id(ts.as_str())
}

/// A copy of a tenant record.
fn copy_info(t: &TenantInfo) -> (r: TenantInfo)
    ensures
        r == *t,
{
    TenantInfo { id: t.id.clone(), display_name: crate::text::copy_opt_string(&t.display_name), created_at_ms: t.created_at_ms }
}

/// The registration of tenant `id`.
pub fn get(state: &TenantState, id: &str) -> (r: Result<TenantInfo, TenantError>)
    requires
        state.wf(),
    ensures
        !valid_tenant_id(id@) ==> r == Err::<TenantInfo, TenantError>(TenantError::InvalidTenantId),
        valid_tenant_id(id@) && !state.tenants@.contains_key(trim(id@)) ==> r == Err::<TenantInfo, TenantError>(TenantError::NotFound),
        valid_tenant_id(id@) && state.tenants@.contains_key(trim(id@)) ==> r == Ok::<TenantInfo, TenantError>(state.tenants@[trim(id@)]),
{
    let tid = validate_tenant_id(id)?;
    match state.tenants.get(&tid) {
        Some(t) => Ok(copy_info(t)),
        None => Err(TenantError::NotFound),
    }
}

/// Every registered tenant id, each once.
pub fn list_tenants(state: &TenantState) -> (r: Result<Vec<String>, TenantError>)
    requires
        state.wf(),
    ensures
        r matches Ok(v) && v@.len() == state.tenants@.dom().len()
            && (forall|k: Seq<char>| state.tenants@.contains_key(k) <==> exists|i: int| 0 <= i < v@.len() && #[trigger] v@[i]@ == k),
{
    Ok(state.tenants.keys())
}

/// Remove the registration of tenant `id`.
pub fn deregister(state: &mut TenantState, id: &str) -> (r: Result<(), TenantError>)
    requires
        old(state).wf(),
    ensures
        final(state).wf(),
        !valid_tenant_id(id@) ==> r == Err::<(), TenantError>(TenantError::InvalidTenantId),
        valid_tenant_id(id@) && !old(state).tenants@.contains_key(trim(id@)) ==> r == Err::<(), TenantError>(TenantError::NotFound),
        valid_tenant_id(id@) && old(state).tenants@.contains_key(trim(id@)) ==> r is Ok && final(state).tenants@ == old(state).tenants@.remove(trim(id@)),
        r is Err ==> final(state).tenants@ == old(state).tenants@,
{
    let tid = validate_tenant_id(id)?;
    match state.tenants.remove(&tid) {
        Some(_) => Ok(()),
        None => Err(TenantError::NotFound),
    }
}

// ── Laws ────────────────────────────────────────────────────────────────────

pub proof fn lemma_trim_fixed(s: Seq<char>)
    requires
        s.len() > 0,
        !crate::text::is_ws(s[0]),
        !crate::text::is_ws(s.last()),
    ensures
        trim(s) == s,
{
    assert(crate::text::trim_start(s) == s);
}

/// The first colon of `a:b` is the one after `a`, when `a` holds none.
proof fn lemma_before_colon_scoped(a: Seq<char>, b: Seq<char>)
    requires
        !a.contains(':'),
    ensures
        before_colon(scoped(a, b)) == Some(a),
{
    let s = scoped(a, b);
    assert(s[a.len() as int] == ':');
    assert(s.contains(':'));
    let i = crate::strings::first_index(s, ':')->0;
    assert(0 <= i < s.len() && s[i] == ':' && forall|j: int| 0 <= j < i ==> s[j] != ':');
    if i < a.len() {
        assert(s[i] == a[i]);
        assert(a.contains(':'));
    }
    if i > a.len() {
        assert(s[a.len() as int] != ':');
    }
    assert(i == a.len());
    assert(s.take(i) =~= a);
}

/// The tenant id read back from a scoped key is the tenant it was scoped
/// with.
pub proof fn law_parse_scope_roundtrip(t: Seq<char>, k: Seq<char>)
    requires
        valid_tenant_id(t),
        valid_key(k),
    ensures
        before_colon(trim(scoped(trim(t), trim(k)))) == Some(trim(t)),
        trim(trim(t)) == trim(t),
{
    let a = trim(t);
    let b = trim(k);
    assert(!a.contains(':')) by {
        if a.contains(':') {
            let i = choose|i: int| 0 <= i < a.len() && a[i] == ':';
            assert(crate::text::key_char(a[i], seq!['-', '_']));
            assert(seq!['-', '_'][0] == '-' && seq!['-', '_'][1] == '_');
        }
    }
    let s = scoped(a, b);
    lemma_trim_nonws_ends(t);
    lemma_trim_nonws_ends(k);
    assert(s[0] == a[0]);
    assert(s.last() == b.last());
    lemma_trim_fixed(s);
    lemma_trim_fixed(a);
    lemma_before_colon_scoped(a, b);
}

/// A non-empty trimmed sequence starts and ends with non-whitespace.
pub proof fn lemma_trim_nonws_ends(s: Seq<char>)
    requires
        trim(s).len() > 0,
    ensures
        !crate::text::is_ws(trim(s)[0]),
        !crate::text::is_ws(trim(s).last()),
{
    crate::text::lemma_trim_start_empty(s);
    lemma_trim_end_nonws(crate::text::trim_start(s));
}

pub proof fn lemma_trim_end_nonws(s: Seq<char>)
    requires
        crate::text::trim_end(s).len() > 0,
        !crate::text::is_ws(s[0]),
    ensures
        !crate::text::is_ws(crate::text::trim_end(s)[0]),
        !crate::text::is_ws(crate::text::trim_end(s).last()),
        crate::text::trim_end(s)[0] == s[0],
    decreases s.len(),
{
    if s.len() > 0 && crate::text::is_ws(s.last()) {
        crate::text::lemma_trim_end_len(s.drop_last());
        lemma_trim_end_nonws(s.drop_last());
    }
}

} // verus!
