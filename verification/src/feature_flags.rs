//! Feature flags: boolean, text and integer flags under normalised keys.
use vstd::prelude::*;
use crate::store::KeyedStore;
use crate::text::{trim, lowercase, key_chars};

verus! {

/// The value of a flag.
#[derive(Debug, Clone, PartialEq)]
pub enum FlagValue {
    Boolean(bool),
    Text(String),
    Integer(i64),
}

/// A stored flag.
#[derive(Debug, Clone)]
pub struct Flag {
    pub key: String,
    pub value: FlagValue,
    pub description: Option<String>,
    pub updated_at_ms: u64,
}

/// Errors of the flag store.
#[derive(Debug, Clone, Copy, PartialEq, Eq, Structural)]
pub enum FlagError {
    NotInitialized,
    NotFound,
    InvalidKey,
    StorageError,
    TypeMismatch,
}

/// The key a flag is stored under: trimmed, then lowercased.
pub open spec fn flag_key(key: Seq<char>) -> Seq<char> {
    lowercase(trim(key))
}

/// Whether `key` is accepted: its normalised form is non-empty and made of
/// alphanumerics, hyphens, underscores and dots.
pub open spec fn valid_key(key: Seq<char>) -> bool {
    flag_key(key).len() > 0 && key_chars(flag_key(key), seq!['-', '_', '.'])
}

/// The normalised key, when accepted.
pub fn validate_key(key: &str) -> (r: Result<String, FlagError>)
    ensures
        !valid_key(key@) ==> r == Err::<String, FlagError>(FlagError::InvalidKey),
        valid_key(key@) ==> (r matches Ok(k) && k@ == flag_key(key@)),
{
    let t = crate::text::trimmed(key);
    let ts = crate::text::string_from_chars(t.as_slice());
    let k = crate::text::to_lowercase(ts.as_str());
    let kc = crate::text::chars_of(k.as_str());
    if kc.len() == 0 {
        return Err(FlagError::InvalidKey);
    }
    let extra = ['-', '_', '.'];
    proof {
        assert(extra@ =~= seq!['-', '_', '.']);
    }
    if !crate::text::all_key_chars(&kc, &extra) {
        return Err(FlagError::InvalidKey);
    }
    Ok(k)
}

/// Every flag, by normalised key.
pub struct FlagState {
    pub flags: KeyedStore<Flag>,
}

impl FlagState {
    /// The store is well formed.
    pub open spec fn wf(&self) -> bool {
        self.flags.wf()
    }

    /// No flags.
    pub fn new() -> (r: Self)
        ensures
            r.wf(),
            r.flags@ == Map::<Seq<char>, Flag>::empty(),
    {
        FlagState { flags: KeyedStore::new() }
    }
}

/// What `is_enabled` answers for a valid key `k`.
pub open spec fn enabled_of(m: Map<Seq<char>, Flag>, k: Seq<char>) -> Result<bool, FlagError> {
    if !m.contains_key(k) {
        Ok(false)
    } else {
        match m[k].value {
            FlagValue::Boolean(b) => Ok(b),
            _ => Err(FlagError::TypeMismatch),
        }
    }
}

/// A copy of a flag value.
fn copy_value(v: &FlagValue) -> (r: FlagValue)
    ensures
        r == *v,
{
    match v {
        FlagValue::Boolean(b) => FlagValue::Boolean(*b),
        FlagValue::Text(t) => FlagValue::Text(t.clone()),
        FlagValue::Integer(i) => FlagValue::Integer(*i),
    }
}

/// A copy of a flag.
fn copy_flag(f: &Flag) -> (r: Flag)
    ensures
        r == *f,
{
    Flag {
        key: f.key.clone(),
        value: copy_value(&f.value),
        description: crate::text::copy_opt_string(&f.description),
        updated_at_ms: f.updated_at_ms,
    }
}

/// Whether the boolean flag `key` is on; an absent flag is off, a
/// non-boolean one is a type mismatch.
pub fn is_enabled(state: &FlagState, key: &str) -> (r: Result<bool, FlagError>)
    requires
        state.wf(),
    ensures
        !valid_key(key@) ==> r == Err::<bool, FlagError>(FlagError::InvalidKey),
        valid_key(key@) ==> r == enabled_of(state.flags@, flag_key(key@)),
{
    let k = validate_key(key)?;
    match state.flags.get(&k) {
        Some(f) => match &f.value {
            FlagValue::Boolean(v) => Ok(*v),
            _ => Err(FlagError::TypeMismatch),
        },
        None => Ok(false),
    }
}

/// The full record of flag `key`.
pub fn get(state: &FlagState, key: &str) -> (r: Result<Flag, FlagError>)
    requires
        state.wf(),
    ensures
        !valid_key(key@) ==> r == Err::<Flag, FlagError>(FlagError::InvalidKey),
        valid_key(key@) && !state.flags@.contains_key(flag_key(key@)) ==> r == Err::<Flag, FlagError>(FlagError::NotFound),
        valid_key(key@) && state.flags@.contains_key(flag_key(key@)) ==> r == Ok::<Flag, FlagError>(state.flags@[flag_key(key@)]),
{
    let k = validate_key(key)?;
    match state.flags.get(&k) {
        Some(f) => Ok(copy_flag(f)),
        None => Err(FlagError::NotFound),
    }
}

/// Create or overwrite flag `key`.
pub fn set(state: &mut FlagState, key: &str, value: FlagValue, description: Option<String>, now_ms: u64) -> (r: Result<(), FlagError>)
    requires
        old(state).wf(),
    ensures
        final(state).wf(),
        !valid_key(key@) ==> r == Err::<(), FlagError>(FlagError::InvalidKey) && final(state).flags@ == old(state).flags@,
        valid_key(key@) ==> r is Ok && final(state).flags@.dom() == old(state).flags@.dom().insert(flag_key(key@))
            && (forall|q: Seq<char>| q != flag_key(key@) && #[trigger] old(state).flags@.contains_key(q) ==> final(state).flags@[q] == old(state).flags@[q])
            && ({
                let f = final(state).flags@[flag_key(key@)];
                f.key@ == flag_key(key@) && f.value == value && f.description == description && f.updated_at_ms == now_ms
            }),
{
    let k = validate_key(key)?;
    let f = Flag { key: k.clone(), value, description, updated_at_ms: now_ms };
    state.flags.insert(k, f);
    Ok(())
}

/// Delete flag `key`; succeeds when it is absent too.
pub fn delete(state: &mut FlagState, key: &str) -> (r: Result<(), FlagError>)
    requires
        old(state).wf(),
    ensures
        final(state).wf(),
        !valid_key(key@) ==> r == Err::<(), FlagError>(FlagError::InvalidKey) && final(state).flags@ == old(state).flags@,
        valid_key(key@) ==> r is Ok && final(state).flags@ == old(state).flags@.remove(flag_key(key@)),
{
    let k = validate_key(key)?;
    let _ = state.flags.remove(&k);
    Ok(())
}

/// Every stored flag, in store order.
pub fn list(state: &FlagState) -> (r: Result<Vec<Flag>, FlagError>)
    requires
        state.wf(),
    ensures
        r matches Ok(v) && v@ == state.flags.entries().map_values(|e: (String, Flag)| e.1),
{
    let n = state.flags.len();
    let mut v: Vec<Flag> = Vec::new();
    let mut i: usize = 0;
    while i < n
        invariant
            state.wf(),
            n == state.flags.entries().len(),
            i <= n,
            v@ == state.flags.entries().take(i as int).map_values(|e: (String, Flag)| e.1),
        decreases n - i,
    {
        let (_, f) = state.flags.entry_at(i);
        v.push(copy_flag(f));
        proof {
            assert(state.flags.entries().take(i + 1).map_values(|e: (String, Flag)| e.1) =~= state.flags.entries().take(i as int).map_values(|e: (String, Flag)| e.1).push(*f));
        }
        i = i + 1;
    }
    proof {
        assert(state.flags.entries().take(n as int) =~= state.flags.entries());
    }
    Ok(v)
}

// ── Laws ────────────────────────────────────────────────────────────────────

/// A boolean flag reads back as set; a missing flag reads as off; any other
/// kind of value is a type mismatch.
pub proof fn law_is_enabled_after_set(m: Map<Seq<char>, Flag>, k: Seq<char>, f: Flag)
    ensures
        f.value matches FlagValue::Boolean(b) ==> enabled_of(m.insert(k, f), k) == Ok::<bool, FlagError>(b),
        !(f.value is Boolean) ==> enabled_of(m.insert(k, f), k) == Err::<bool, FlagError>(FlagError::TypeMismatch),
        enabled_of(m.remove(k), k) == Ok::<bool, FlagError>(false),
{
}

} // verus!
