//! Configuration store: string values under validated keys.
use vstd::prelude::*;
use crate::store::KeyedStore;
use crate::text::{trim, key_ok};

verus! {

/// A configuration value.
#[derive(Debug, Clone)]
pub struct ConfigEntry {
    pub key: String,
    pub value: String,
    pub is_secret: bool,
    pub loaded_at_ms: u64,
}

/// Errors of the configuration store.
#[derive(Debug, Clone, Copy, PartialEq, Eq, Structural)]
pub enum ConfigError {
    InvalidKey,
    NotFound,
    StorageError,
}

/// The characters besides alphanumerics that keys may hold.
pub open spec fn key_extra() -> Seq<char> {
    seq!['-', '_', '.', ':']
}

/// Whether `key` is accepted.
pub open spec fn valid_key(key: Seq<char>) -> bool {
    key_ok(key, key_extra())
}

/// The trimmed key, when it is non-empty and made of alphanumerics and `- _ . :`.
pub fn validate_key(key: &str) -> (r: Result<String, ConfigError>)
    ensures
        !valid_key(key@) ==> r == Err::<String, ConfigError>(ConfigError::InvalidKey),
        valid_key(key@) ==> (r matches Ok(k) && k@ == trim(key@)),
{
    let extra = ['-', '_', '.', ':'];
    proof {
        assert(extra@ =~= key_extra());
    }
    match crate::text::checked_key(key, &extra) {
        Some(k) => Ok(k),
        None => Err(ConfigError::InvalidKey),
    }
}

/// Every configuration entry, by trimmed key.
pub struct ConfigState {
    pub store: KeyedStore<ConfigEntry>,
}

impl ConfigState {
    /// The store is well formed.
    pub open spec fn wf(&self) -> bool {
        self.store.wf()
    }

    /// An empty configuration.
    pub fn new() -> (r: Self)
        ensures
            r.wf(),
            r.store@ == Map::<Seq<char>, ConfigEntry>::empty(),
    {
        ConfigState { store: KeyedStore::new() }
    }
}

/// The value stored under `k`, if any.
pub open spec fn value_of(m: Map<Seq<char>, ConfigEntry>, k: Seq<char>) -> Option<Seq<char>> {
    if m.contains_key(k) {
        Some(m[k].value@)
    } else {
        None
    }
}

/// Set a configuration entry.
pub fn set(state: &mut ConfigState, key: &str, value: &str, is_secret: bool, now_ms: u64) -> (r: Result<(), ConfigError>)
    requires
        old(state).wf(),
    ensures
        final(state).wf(),
        !valid_key(key@) ==> r == Err::<(), ConfigError>(ConfigError::InvalidKey) && final(state).store@ == old(state).store@,
        valid_key(key@) ==> r is Ok && final(state).store@.dom() == old(state).store@.dom().insert(trim(key@))
            && (forall|k: Seq<char>| k != trim(key@) && #[trigger] old(state).store@.contains_key(k) ==> final(state).store@[k] == old(state).store@[k])
            && ({
                let e = final(state).store@[trim(key@)];
                e.key@ == trim(key@) && e.value@ == value@ && e.is_secret == is_secret && e.loaded_at_ms == now_ms
            }),
{
    let k = validate_key(key)?;
    let e = ConfigEntry { key: k.clone(), value: crate::text::owned(value), is_secret, loaded_at_ms: now_ms };
    state.store.insert(k, e);
    Ok(())
}

/// The value under `key`, or `None` when absent.
pub fn get(state: &ConfigState, key: &str) -> (r: Result<Option<String>, ConfigError>)
    requires
        state.wf(),
    ensures
        !valid_key(key@) ==> r == Err::<Option<String>, ConfigError>(ConfigError::InvalidKey),
        valid_key(key@) ==> (r matches Ok(o) && crate::text::opt_view(o) == value_of(state.store@, trim(key@))),
{
    let k = validate_key(key)?;
    match state.store.get(&k) {
        Some(e) => Ok(Some(e.value.clone())),
        None => Ok(None),
    }
}

/// The value under `key`, or `default` when absent.
pub fn get_or_default(state: &ConfigState, key: &str, default: &str) -> (r: Result<String, ConfigError>)
    requires
        state.wf(),
    ensures
        !valid_key(key@) ==> r == Err::<String, ConfigError>(ConfigError::InvalidKey),
        valid_key(key@) ==> (r matches Ok(v) && v@ == match value_of(state.store@, trim(key@)) {
            Some(x) => x,
            None => default@,
        }),
{
    match get(state, key)? {
        Some(v) => Ok(v),
        None => Ok(crate::text::owned(default)),
    }
}

/// Whether `key` is present.
pub fn contains(state: &ConfigState, key: &str) -> (r: Result<bool, ConfigError>)
    requires
        state.wf(),
    ensures
        !valid_key(key@) ==> r == Err::<bool, ConfigError>(ConfigError::InvalidKey),
        valid_key(key@) ==> r == Ok::<bool, ConfigError>(state.store@.contains_key(trim(key@))),
{
    let k = validate_key(key)?;
    Ok(state.store.contains(&k))
}

/// Every key, secrets included, each once.
pub fn list_keys(state: &ConfigState) -> (r: Result<Vec<String>, ConfigError>)
    requires
        state.wf(),
    ensures
        r matches Ok(v) && v@.len() == state.store@.dom().len()
            && (forall|k: Seq<char>| state.store@.contains_key(k) <==> exists|i: int| 0 <= i < v@.len() && #[trigger] v@[i]@ == k)
            && (forall|i: int, j: int| 0 <= i < v@.len() && 0 <= j < v@.len() && i != j ==> #[trigger] v@[i]@ != #[trigger] v@[j]@),
{
    Ok(state.store.keys())
}

/// Delete `key`; succeeds when it is absent too.
pub fn delete(state: &mut ConfigState, key: &str) -> (r: Result<(), ConfigError>)
    requires
        old(state).wf(),
    ensures
        final(state).wf(),
        !valid_key(key@) ==> r == Err::<(), ConfigError>(ConfigError::InvalidKey) && final(state).store@ == old(state).store@,
        valid_key(key@) ==> r is Ok && final(state).store@ == old(state).store@.remove(trim(key@)),
{
    let k = validate_key(key)?;
    let _ = state.store.remove(&k);
    Ok(())
}

// ── Laws ────────────────────────────────────────────────────────────────────

/// A value read back after it was set is the value that was set; other keys are unaffected.
pub proof fn law_get_after_set(m: Map<Seq<char>, ConfigEntry>, k: Seq<char>, e: ConfigEntry, other: Seq<char>)
    requires
        other != k,
    ensures
        value_of(m.insert(k, e), k) == Some(e.value@),
        value_of(m.insert(k, e), other) == value_of(m, other),
{
}

/// After a delete, the key reads as absent.
pub proof fn law_get_after_delete(m: Map<Seq<char>, ConfigEntry>, k: Seq<char>)
    ensures
        value_of(m.remove(k), k) is None,
{
}

} // verus!
