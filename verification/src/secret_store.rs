//! The secrets component and its admin HTTP API: the component's
//! configuration, and for each operation on the key-value store what is read,
//! what is checked and what is written.  The store itself is reached by the
//! caller, which hands in what it read and performs the writes returned.
use vstd::prelude::*;
use vstd::utf8::{decode_utf8, valid_utf8};
use crate::secrets::{
    decrypt, encrypt, error_text, kv_data_key, kv_meta_key, opened, sealed_with, SecretError, SecretMetadata,
    SecretValue, SecretsConfig,
};
use crate::strings::{first_index, has_prefix, has_suffix};
use crate::store::views;

verus! {

/// The component's state: its configuration, once initialised.
pub struct SecretsState {
    pub config: Option<SecretsConfig>,
}

impl SecretsState {
    /// Not initialised.
    pub fn new() -> (r: Self)
        ensures
            r.config is None,
    {
        SecretsState { config: None }
    }
}

/// The namespace of `cfg`: the configured one, else `secrets`.
pub open spec fn ns_of(cfg: SecretsConfig) -> Seq<char> {
    match cfg.namespace {
        Some(n) => n@,
        None => "secrets"@,
    }
}

/// The namespace of `cfg`.
fn namespace(cfg: &SecretsConfig) -> (r: String)
    ensures
        r@ == ns_of(*cfg),
{
    match &cfg.namespace {
        Some(n) => n.clone(),
        None => crate::text::owned("secrets"),
    }
}

/// The encryption key of `cfg`.
fn enc_key(cfg: &SecretsConfig) -> (r: Result<String, SecretError>)
    ensures
        cfg.encryption_key is None ==> r == Err::<String, SecretError>(SecretError::InvalidConfig),
        cfg.encryption_key matches Some(k) ==> (r matches Ok(s) && s@ == k@),
{
    match &cfg.encryption_key {
        Some(k) => Ok(k.clone()),
        None => Err(SecretError::InvalidConfig),
    }
}

/// Whether `s` is the string `lit`.
fn str_is(s: &str, lit: &str) -> (r: bool)
    ensures
        r == (s@ == lit@),
{
    crate::text::owned(s) == crate::text::owned(lit)
}

/// Initialise the component: the backend must be `kv` and an encryption key
/// must be given.
pub fn core_init(state: &mut SecretsState, config: SecretsConfig) -> (r: Result<(), SecretError>)
    ensures
        config.backend@ == "kv"@ && config.encryption_key is Some ==> r is Ok && final(state).config == Some(config),
        !(config.backend@ == "kv"@ && config.encryption_key is Some) ==> r == Err::<(), SecretError>(SecretError::InvalidConfig)
            && final(state).config == old(state).config,
{
    if !str_is(config.backend.as_str(), "kv") {
        return Err(SecretError::InvalidConfig);
    }
    if config.encryption_key.is_none() {
        return Err(SecretError::InvalidConfig);
    }
    state.config = Some(config);
    Ok(())
}

/// Initialise the admin API: the backend must be `kv`.
pub fn init_state(state: &mut SecretsState, config: SecretsConfig) -> (r: Result<(), SecretError>)
    ensures
        config.backend@ == "kv"@ ==> r is Ok && final(state).config == Some(config),
        config.backend@ != "kv"@ ==> r == Err::<(), SecretError>(SecretError::InvalidConfig)
            && final(state).config == old(state).config,
{
    if !str_is(config.backend.as_str(), "kv") {
        return Err(SecretError::InvalidConfig);
    }
    state.config = Some(config);
    Ok(())
}

// ── Where a secret lives ────────────────────────────────────────────────────

/// The keys of one secret in the key-value store.
#[derive(Debug)]
pub struct SecretKeys {
    pub namespace: String,
    pub data_key: String,
    pub meta_key: String,
}

/// `k` holds the keys of secret `name` under configuration `cfg`.
pub open spec fn keys_of(k: SecretKeys, cfg: SecretsConfig, name: Seq<char>) -> bool {
    &&& k.namespace@ == ns_of(cfg)
    &&& k.data_key@ == ns_of(cfg) + ":"@ + name
    &&& k.meta_key@ == ns_of(cfg) + ":"@ + name + ":meta"@
}

/// The keys of `name` under `cfg`.
fn keys_for(cfg: &SecretsConfig, name: &str) -> (r: SecretKeys)
    ensures
        keys_of(r, *cfg, name@),
{
    let ns = namespace(cfg);
    let data_key = kv_data_key(ns.as_str(), name);
    let meta_key = kv_meta_key(ns.as_str(), name);
    SecretKeys { namespace: ns, data_key, meta_key }
}

/// The keys of secret `name`, once the component is initialised.
pub fn secret_keys(state: &SecretsState, name: &str) -> (r: Result<SecretKeys, SecretError>)
    ensures
        state.config is None ==> (r matches Err(e) && e == SecretError::NotInitialized),
        state.config matches Some(cfg) ==> (r matches Ok(k) && keys_of(k, cfg, name@)),
{
    match &state.config {
        Some(cfg) => Ok(keys_for(cfg, name)),
        None => Err(SecretError::NotInitialized),
    }
}

/// Delete secret `name`: the data key and then the metadata key are removed.
pub fn core_delete(state: &SecretsState, name: &str) -> (r: Result<SecretKeys, SecretError>)
    ensures
        state.config is None ==> (r matches Err(e) && e == SecretError::NotInitialized),
        state.config matches Some(cfg) ==> (r matches Ok(k) && keys_of(k, cfg, name@)),
{
    secret_keys(state, name)
}

// ── Reading ─────────────────────────────────────────────────────────────────

/// The value of a secret from what the store holds under its data key
/// (`stored`, `None` when nothing): the stored text opened with the
/// configured key.
pub fn core_get(state: &SecretsState, stored: Option<Vec<u8>>) -> (r: Result<SecretValue, SecretError>)
    ensures
        state.config is None ==> (r matches Err(e) && e == SecretError::NotInitialized),
        state.config matches Some(cfg) ==> match cfg.encryption_key {
            None => r matches Err(e) && e == SecretError::InvalidConfig,
            Some(k) => match stored {
                None => r matches Err(e) && e == SecretError::NotFound,
                Some(raw) => if !valid_utf8(raw@) {
                    r matches Err(e) && e == SecretError::StorageError
                } else {
                    match opened(k@, decode_utf8(raw@)) {
                        Ok(p) => r matches Ok(v) && v.data@ == p,
                        Err(e0) => r matches Err(e) && e == e0,
                    }
                },
            },
        },
{
    let cfg = match &state.config {
        Some(c) => c,
        None => return Err(SecretError::NotInitialized),
    };
    let key = enc_key(cfg)?;
    let raw = match stored {
        Some(b) => b,
        None => return Err(SecretError::NotFound),
    };
    let encoded = match crate::text::string_from_utf8(raw) {
        Some(s) => s,
        None => return Err(SecretError::StorageError),
    };
    let data = decrypt(key.as_str(), encoded.as_str())?;
    Ok(SecretValue { data })
}

/// The metadata of a secret from what the store holds under its metadata key.
pub fn core_metadata(state: &SecretsState, stored: Option<SecretMetadata>) -> (r: Result<SecretMetadata, SecretError>)
    ensures
        state.config is None ==> (r matches Err(e) && e == SecretError::NotInitialized),
        state.config is Some && stored is None ==> (r matches Err(e) && e == SecretError::NotFound),
        state.config is Some && stored is Some ==> r == Ok::<SecretMetadata, SecretError>(stored.unwrap()),
{
    if state.config.is_none() {
        return Err(SecretError::NotInitialized);
    }
    match stored {
        Some(m) => Ok(m),
        None => Err(SecretError::NotFound),
    }
}

/// The secret names among the store keys `keys` under namespace `ns`: the
/// data keys `ns:name`, in order, metadata keys left out.
pub open spec fn names_in(ns: Seq<char>, keys: Seq<Seq<char>>) -> Seq<Seq<char>>
    decreases keys.len(),
{
    if keys.len() == 0 {
        Seq::empty()
    } else {
        let k = keys.last();
        names_in(ns, keys.drop_last()) + if !has_suffix(k, ":meta"@) && has_prefix(k, ns + ":"@) {
            seq![k.skip(ns.len() + 1int)]
        } else {
            Seq::<Seq<char>>::empty()
        }
    }
}

/// The names of the stored secrets, from the keys the store lists.
pub fn core_list_names(state: &SecretsState, keys: Vec<String>) -> (r: Result<Vec<String>, SecretError>)
    ensures
        state.config is None ==> (r matches Err(e) && e == SecretError::NotInitialized),
        state.config matches Some(cfg) ==> (r matches Ok(v) && views(v@) == names_in(ns_of(cfg), views(keys@))),
{
    let cfg = match &state.config {
        Some(c) => c,
        None => return Err(SecretError::NotInitialized),
    };
    let ns = namespace(cfg);
    let mut out: Vec<String> = Vec::new();
    let mut i: usize = 0;
    proof {
        assert(views(keys@).take(0) =~= Seq::<Seq<char>>::empty());
        assert(views(out@) =~= Seq::<Seq<char>>::empty());
    }
    while i < keys.len()
        invariant
            i <= keys@.len(),
            ns@ == ns_of(*cfg),
            views(out@) == names_in(ns@, views(keys@).take(i as int)),
        decreases keys@.len() - i,
    {
        let k = &keys[i];
        proof {
            assert(views(keys@).take(i + 1).drop_last() =~= views(keys@).take(i as int));
            assert(views(keys@).take(i + 1).last() == k@);
        }
        if !crate::secrets::is_meta_key(k.as_str()) {
            match crate::secrets::name_from_data_key(ns.as_str(), k.as_str()) {
                Some(n) => {
                    out.push(n);
                    proof {
                        assert(views(out@) =~= views(out@.drop_last()).push(out@.last()@));
                    }
                },
                None => {},
            }
        }
        i = i + 1;
    }
    proof {
        assert(views(keys@).take(keys@.len() as int) =~= views(keys@));
    }
    Ok(out)
}

// ── Writing ─────────────────────────────────────────────────────────────────

/// What a set or a rotation writes: the sealed value under the data key,
/// then the metadata under the metadata key.
#[derive(Debug)]
pub struct SecretWrite {
    pub keys: SecretKeys,
    pub sealed: String,
    pub meta: SecretMetadata,
}

/// The metadata a set writes over the stored `prev`: the next version, the
/// first creation time, and `now` as the update time.
pub open spec fn set_meta_ok(m: SecretMetadata, name: Seq<char>, prev: Option<SecretMetadata>, now: u64) -> bool {
    &&& m.name@ == name
    &&& m.version == match prev {
        Some(p) => (p.version + 1) as u32,
        None => 1u32,
    }
    &&& m.created_at_ms == match prev {
        Some(p) => p.created_at_ms,
        None => now,
    }
    &&& m.updated_at_ms == now
}

/// The metadata a rotation writes over the stored `prev`: the next version
/// and `now` as the update time.
pub open spec fn rotate_meta_ok(m: SecretMetadata, prev: SecretMetadata, now: u64) -> bool {
    &&& m.name@ == prev.name@
    &&& m.version == prev.version + 1
    &&& m.created_at_ms == prev.created_at_ms
    &&& m.updated_at_ms == now
}

/// What a set answers once sealing gave `sealed`.
pub open spec fn set_result(
    r: Result<SecretWrite, SecretError>,
    cfg: SecretsConfig,
    name: Seq<char>,
    sealed: Result<Seq<char>, SecretError>,
    stored_meta: Result<Option<SecretMetadata>, SecretError>,
    now: u64,
) -> bool {
    match sealed {
        Err(e0) => r matches Err(e) && e == e0,
        Ok(c) => match stored_meta {
            Err(e0) => r matches Err(e) && e == e0,
            Ok(prev) => r matches Ok(w) && keys_of(w.keys, cfg, name) && w.sealed@ == c && set_meta_ok(w.meta, name, prev, now),
        },
    }
}

/// What a rotation of a secret with stored metadata `prev` answers once
/// sealing gave `sealed`.
pub open spec fn rotate_result(
    r: Result<SecretWrite, SecretError>,
    cfg: SecretsConfig,
    name: Seq<char>,
    sealed: Result<Seq<char>, SecretError>,
    prev: SecretMetadata,
    now: u64,
) -> bool {
    match sealed {
        Err(e0) => r matches Err(e) && e == e0,
        Ok(c) => r matches Ok(w) && keys_of(w.keys, cfg, name) && w.sealed@ == c && rotate_meta_ok(w.meta, prev, now),
    }
}

/// What an admin set answers once sealing gave `sealed`: the version moves on
/// one and both times are 0.
pub open spec fn admin_set_result(
    r: Result<SecretWrite, SecretError>,
    cfg: SecretsConfig,
    name: Seq<char>,
    sealed: Result<Seq<char>, SecretError>,
    stored_meta: Result<Option<SecretMetadata>, SecretError>,
) -> bool {
    match sealed {
        Err(e0) => r matches Err(e) && e == e0,
        Ok(c) => match stored_meta {
            Err(e0) => r matches Err(e) && e == e0,
            Ok(prev) => r matches Ok(w) && keys_of(w.keys, cfg, name) && w.sealed@ == c
                && w.meta.name@ == name && w.meta.created_at_ms == 0 && w.meta.updated_at_ms == 0
                && w.meta.version == match prev {
                    Some(p) => (p.version + 1) as u32,
                    None => 1u32,
                },
        },
    }
}

/// The next version after `v`.
fn next_version(v: u32) -> (r: u32)
    requires
        v < u32::MAX,
    ensures
        r == v + 1,
{
    v + 1
}

/// The write for a set, once the value is sealed (`sealed`) and the stored
/// metadata read (`stored_meta`).
pub fn set_write(
    name: &str,
    keys: SecretKeys,
    sealed: Result<String, SecretError>,
    stored_meta: Result<Option<SecretMetadata>, SecretError>,
    now_ms: u64,
) -> (r: Result<SecretWrite, SecretError>)
    requires
        stored_meta matches Ok(Some(m)) ==> m.version < u32::MAX,
    ensures
        sealed matches Err(e0) ==> (r matches Err(e) && e == e0),
        sealed is Ok ==> (stored_meta matches Err(e0) ==> (r matches Err(e) && e == e0)),
        sealed matches Ok(c) ==> (stored_meta matches Ok(prev) ==> (r matches Ok(w) && w.keys == keys
            && w.sealed@ == c@ && set_meta_ok(w.meta, name@, prev, now_ms))),
{
    let sealed = sealed?;
    let prev = stored_meta?;
    let meta = match prev {
        Some(p) => SecretMetadata {
            name: crate::text::owned(name),
            version: next_version(p.version),
            created_at_ms: p.created_at_ms,
            updated_at_ms: now_ms,
        },
        None => SecretMetadata { name: crate::text::owned(name), version: 1, created_at_ms: now_ms, updated_at_ms: now_ms },
    };
    Ok(SecretWrite { keys, sealed, meta })
}

/// Set secret `name` to `value` at `now_ms`, given what the store holds under
/// its metadata key (`stored_meta`; an error when it could not be read): the
/// value is sealed under a fresh nonce and the metadata moves on one version.
pub fn core_set(
    state: &SecretsState,
    name: &str,
    value: &SecretValue,
    stored_meta: Result<Option<SecretMetadata>, SecretError>,
    now_ms: u64,
) -> (r: Result<SecretWrite, SecretError>)
    requires
        stored_meta matches Ok(Some(m)) ==> m.version < u32::MAX,
    ensures
        state.config is None ==> (r matches Err(e) && e == SecretError::NotInitialized),
        state.config matches Some(cfg) ==> (cfg.encryption_key is None ==> (r matches Err(e) && e == SecretError::InvalidConfig)),
        state.config matches Some(cfg) ==> (cfg.encryption_key matches Some(k) ==> exists|nonce: Seq<u8>|
            nonce.len() == 12 && set_result(r, cfg, name@, #[trigger] sealed_with(k@, value.data@, nonce), stored_meta, now_ms)),
        r matches Ok(w) ==> (state.config matches Some(cfg) && cfg.encryption_key matches Some(k)
            && crate::secrets::opened(k@, w.sealed@) == Ok::<Seq<u8>, SecretError>(value.data@)),
{
    let cfg = match &state.config {
        Some(c) => c,
        None => return Err(SecretError::NotInitialized),
    };
    let key = enc_key(cfg)?;
    let keys = keys_for(cfg, name);
    let sealed = encrypt(key.as_str(), value.data.as_slice());
    let ghost nonce = choose|nonce: Seq<u8>|
        nonce.len() == 12 && crate::secrets::result_view(sealed) == #[trigger] sealed_with(key@, value.data@, nonce);
    let ghost sv = crate::secrets::result_view(sealed);
    let r = set_write(name, keys, sealed, stored_meta, now_ms);
    proof {
        assert(sv == sealed_with(key@, value.data@, nonce));
        assert(set_result(r, *cfg, name@, sealed_with(key@, value.data@, nonce), stored_meta, now_ms));
    }
    r
}

/// Rotate secret `name` to `new_value` at `now_ms`: it must have metadata in
/// the store (`stored_meta`); the new value is sealed under a fresh nonce and
/// the metadata moves on one version.
pub fn core_rotate(
    state: &SecretsState,
    name: &str,
    new_value: &SecretValue,
    stored_meta: Result<Option<SecretMetadata>, SecretError>,
    now_ms: u64,
) -> (r: Result<SecretWrite, SecretError>)
    requires
        stored_meta matches Ok(Some(m)) ==> m.version < u32::MAX,
    ensures
        state.config is None ==> (r matches Err(e) && e == SecretError::NotInitialized),
        state.config matches Some(cfg) ==> (cfg.encryption_key is None ==> (r matches Err(e) && e == SecretError::InvalidConfig)),
        state.config matches Some(cfg) ==> (cfg.encryption_key is Some
            ==> (stored_meta matches Err(e0) ==> (r matches Err(e) && e == e0))),
        state.config is Some && state.config->0.encryption_key is Some
            && stored_meta == Ok::<Option<SecretMetadata>, SecretError>(None)
            ==> (r matches Err(e) && e == SecretError::NotFound),
        state.config matches Some(cfg) ==> (cfg.encryption_key matches Some(k)
            ==> (stored_meta matches Ok(Some(prev)) ==> exists|nonce: Seq<u8>| nonce.len() == 12
                && rotate_result(r, cfg, name@, #[trigger] sealed_with(k@, new_value.data@, nonce), prev, now_ms))),
        r matches Ok(w) ==> (state.config matches Some(cfg) && cfg.encryption_key matches Some(k)
            && crate::secrets::opened(k@, w.sealed@) == Ok::<Seq<u8>, SecretError>(new_value.data@)),
{
    let cfg = match &state.config {
        Some(c) => c,
        None => return Err(SecretError::NotInitialized),
    };
    let key = enc_key(cfg)?;
    let keys = keys_for(cfg, name);
    let prev = match stored_meta {
        Ok(Some(m)) => m,
        Ok(None) => return Err(SecretError::NotFound),
        Err(e) => return Err(e),
    };
    let sealed = encrypt(key.as_str(), new_value.data.as_slice());
    let ghost nonce = choose|nonce: Seq<u8>|
        nonce.len() == 12 && crate::secrets::result_view(sealed) == #[trigger] sealed_with(key@, new_value.data@, nonce);
    let ghost sv = crate::secrets::result_view(sealed);
    let ghost prev0 = prev;
    let r = match sealed {
        Ok(c) => {
            let meta = SecretMetadata {
                name: prev.name,
                version: next_version(prev.version),
                created_at_ms: prev.created_at_ms,
                updated_at_ms: now_ms,
            };
            Ok(SecretWrite { keys, sealed: c, meta })
        },
        Err(e) => Err(e),
    };
    proof {
        assert(sv == sealed_with(key@, new_value.data@, nonce));
        assert(rotate_result(r, *cfg, name@, sealed_with(key@, new_value.data@, nonce), prev0, now_ms));
    }
    r
}

// ── The admin API over the store ────────────────────────────────────────────

/// The admin API never hands out secret values.
pub fn admin_get() -> (r: Result<SecretValue, SecretError>)
    ensures
        r matches Err(e) && e == SecretError::PermissionDenied,
{
    Err(SecretError::PermissionDenied)
}

/// The write for an admin set, once the value is sealed and the stored
/// metadata read.
fn admin_write(
    name: &str,
    cfg: &SecretsConfig,
    sealed: Result<String, SecretError>,
    stored_meta: Result<Option<SecretMetadata>, SecretError>,
) -> (r: Result<SecretWrite, SecretError>)
    requires
        stored_meta matches Ok(Some(m)) ==> m.version < u32::MAX,
    ensures
        admin_set_result(r, *cfg, name@, crate::secrets::result_view(sealed), stored_meta),
{
    let sealed = sealed?;
    let keys = keys_for(cfg, name);
    let prev = stored_meta?;
    let version = match prev {
        Some(p) => next_version(p.version),
        None => 1,
    };
    let meta = SecretMetadata { name: crate::text::owned(name), version, created_at_ms: 0, updated_at_ms: 0 };
    Ok(SecretWrite { keys, sealed, meta })
}

/// Set secret `name` through the admin API: the value is sealed under a
/// fresh nonce, the version moves on one, and both times are left at 0.
pub fn admin_set(
    state: &SecretsState,
    name: &str,
    value: &SecretValue,
    stored_meta: Result<Option<SecretMetadata>, SecretError>,
) -> (r: Result<SecretWrite, SecretError>)
    requires
        stored_meta matches Ok(Some(m)) ==> m.version < u32::MAX,
    ensures
        state.config is None ==> (r matches Err(e) && e == SecretError::NotInitialized),
        state.config matches Some(cfg) ==> (cfg.encryption_key is None ==> (r matches Err(e) && e == SecretError::InvalidConfig)),
        state.config matches Some(cfg) ==> (cfg.encryption_key matches Some(k) ==> exists|nonce: Seq<u8>|
            nonce.len() == 12 && admin_set_result(r, cfg, name@, #[trigger] sealed_with(k@, value.data@, nonce), stored_meta)),
{
    let cfg = match &state.config {
        Some(c) => c,
        None => return Err(SecretError::NotInitialized),
    };
    let key = enc_key(cfg)?;
    let sealed = encrypt(key.as_str(), value.data.as_slice());
    let ghost nonce = choose|nonce: Seq<u8>|
        nonce.len() == 12 && crate::secrets::result_view(sealed) == #[trigger] sealed_with(key@, value.data@, nonce);
    let ghost sv = crate::secrets::result_view(sealed);
    let r = admin_write(name, cfg, sealed, stored_meta);
    proof {
        assert(sv == sealed_with(key@, value.data@, nonce));
    }
    r
}

/// Rotate secret `name` through the admin API: as `core_rotate`, with the
/// update time left at 0.
pub fn admin_rotate(
    state: &SecretsState,
    name: &str,
    new_value: &SecretValue,
    stored_meta: Result<Option<SecretMetadata>, SecretError>,
) -> (r: Result<SecretWrite, SecretError>)
    requires
        stored_meta matches Ok(Some(m)) ==> m.version < u32::MAX,
    ensures
        state.config is None ==> (r matches Err(e) && e == SecretError::NotInitialized),
        state.config matches Some(cfg) ==> (cfg.encryption_key is None ==> (r matches Err(e) && e == SecretError::InvalidConfig)),
        state.config matches Some(cfg) ==> (cfg.encryption_key is Some
            ==> (stored_meta matches Err(e0) ==> (r matches Err(e) && e == e0))),
        state.config is Some && state.config->0.encryption_key is Some
            && stored_meta == Ok::<Option<SecretMetadata>, SecretError>(None)
            ==> (r matches Err(e) && e == SecretError::NotFound),
        state.config matches Some(cfg) ==> (cfg.encryption_key matches Some(k)
            ==> (stored_meta matches Ok(Some(prev)) ==> exists|nonce: Seq<u8>| nonce.len() == 12
                && rotate_result(r, cfg, name@, #[trigger] sealed_with(k@, new_value.data@, nonce), prev, 0))),
{
    core_rotate(state, name, new_value, stored_meta, 0)
}

// ── The admin HTTP API ──────────────────────────────────────────────────────

/// The HTTP status for each error.
pub open spec fn status_of(e: SecretError) -> u16 {
    match e {
        SecretError::NotFound => 404,
        SecretError::AlreadyExists => 409,
        SecretError::NotInitialized => 503,
        SecretError::PermissionDenied => 403,
        SecretError::InvalidConfig => 400,
        _ => 500,
    }
}

/// The HTTP status for `e`.
pub fn secret_err_to_status(e: &SecretError) -> (r: u16)
    ensures
        r == status_of(*e),
{
    match e {
        SecretError::NotFound => 404,
        SecretError::AlreadyExists => 409,
        SecretError::NotInitialized => 503,
        SecretError::PermissionDenied => 403,
        SecretError::InvalidConfig => 400,
        _ => 500,
    }
}

/// `s` without its leading `/` characters.
pub open spec fn trim_slashes(s: Seq<char>) -> Seq<char>
    decreases s.len(),
{
    if s.len() > 0 && s[0] == '/' {
        trim_slashes(s.drop_first())
    } else {
        s
    }
}

/// The secret name and the action a request path names: `secrets` lists,
/// `secrets/<name>` is one secret, `secrets/<name>/rotate` rotates it (leading
/// slashes ignored); anything else is not found.
pub open spec fn path_route(path: Seq<char>) -> (Option<Seq<char>>, Seq<char>) {
    let p = trim_slashes(path);
    match first_index(p, '/') {
        None => if p == "secrets"@ {
            (None, "list"@)
        } else {
            (None, "not_found"@)
        },
        Some(i) => if p.take(i) != "secrets"@ {
            (None, "not_found"@)
        } else {
            let rest = p.skip(i + 1);
            match first_index(rest, '/') {
                None => (Some(rest), "resource"@),
                Some(j) => if rest.skip(j + 1) == "rotate"@ {
                    (Some(rest.take(j)), "rotate"@)
                } else {
                    (None, "not_found"@)
                },
            }
        },
    }
}

/// The secret name and action of a request path.
pub fn parse_path(path: &str) -> (r: (Option<String>, &'static str))
    ensures
        crate::text::opt_view(r.0) == path_route(path@).0,
        r.1@ == path_route(path@).1,
{
    let v = crate::text::chars_of(path);
    let mut k: usize = 0;
    proof {
        assert(v@.skip(0) =~= v@);
    }
    while k < v.len() && v[k] == '/'
        invariant
            k <= v@.len(),
            v@ == path@,
            trim_slashes(v@.skip(k as int)) == trim_slashes(path@),
        decreases v@.len() - k,
    {
        proof {
            assert(v@.skip(k as int).drop_first() =~= v@.skip(k + 1));
        }
        k = k + 1;
    }
    let p = crate::text::slice_vec(&v, k, v.len());
    proof {
        assert(p@ =~= v@.skip(k as int));
        reveal_strlit("secrets");
        reveal_strlit("rotate");
    }
    let secrets = crate::text::chars_of("secrets");
    let rotate = crate::text::chars_of("rotate");
    match crate::strings::find_char(&p, '/') {
        None => {
            if vec_eq(&p, &secrets) {
                (None, "list")
            } else {
                (None, "not_found")
            }
        },
        Some(i) => {
            let head = crate::text::slice_vec(&p, 0, i);
            proof {
                assert(head@ =~= p@.take(i as int));
            }
            if !vec_eq(&head, &secrets) {
                return (None, "not_found");
            }
            let rest = crate::text::slice_vec(&p, i + 1, p.len());
            proof {
                assert(rest@ =~= p@.skip(i + 1));
            }
            match crate::strings::find_char(&rest, '/') {
                None => (Some(crate::text::string_from_chars(rest.as_slice())), "resource"),
                Some(j) => {
                    let tail = crate::text::slice_vec(&rest, j + 1, rest.len());
                    let name = crate::text::slice_vec(&rest, 0, j);
                    proof {
                        assert(tail@ =~= rest@.skip(j + 1));
                        assert(name@ =~= rest@.take(j as int));
                    }
                    if vec_eq(&tail, &rotate) {
                        (Some(crate::text::string_from_chars(name.as_slice())), "rotate")
                    } else {
                        (None, "not_found")
                    }
                },
            }
        },
    }
}

/// Whether two character vectors are equal.
fn vec_eq(a: &Vec<char>, b: &Vec<char>) -> (r: bool)
    ensures
        r == (a@ == b@),
{
    if a.len() != b.len() {
        return false;
    }
    let mut i: usize = 0;
    while i < a.len()
        invariant
            a@.len() == b@.len(),
            i <= a@.len(),
            forall|q: int| 0 <= q < i ==> a@[q] == b@[q],
        decreases a@.len() - i,
    {
        if a[i] != b[i] {
            return false;
        }
        i = i + 1;
    }
    proof {
        assert(a@ =~= b@);
    }
    true
}

/// The names the admin API lists: none are read on this host, once initialised.
pub fn handle_list(state: &SecretsState) -> (r: Result<Vec<String>, SecretError>)
    ensures
        state.config is None ==> (r matches Err(e) && e == SecretError::NotInitialized),
        state.config is Some ==> (r matches Ok(v) && v@.len() == 0),
{
    if state.config.is_none() {
        return Err(SecretError::NotInitialized);
    }
    Ok(Vec::new())
}

/// The metadata the admin API shows: none is read on this host.
pub fn handle_get_meta(_name: &str) -> (r: Result<SecretMetadata, SecretError>)
    ensures
        r matches Err(e) && e == SecretError::NotFound,
{
    Err(SecretError::NotFound)
}

/// Accept a value for `name` when initialised with a key and the value is
/// valid base64; nothing is written on this host.
pub fn handle_set(state: &SecretsState, _name: &str, value_b64: &str) -> (r: Result<(), SecretError>)
    ensures
        state.config is None ==> (r matches Err(e) && e == SecretError::NotInitialized),
        state.config matches Some(cfg) ==> (cfg.encryption_key is None ==> (r matches Err(e) && e == SecretError::InvalidConfig)),
        state.config matches Some(cfg) ==> (cfg.encryption_key is Some ==> (
            crate::secrets::base64_std_decoded(value_b64@) is None ==> (r matches Err(e) && e == SecretError::InvalidConfig))),
        state.config matches Some(cfg) ==> (cfg.encryption_key is Some ==> (
            crate::secrets::base64_std_decoded(value_b64@) is Some ==> r is Ok)),
{
    let cfg = match &state.config {
        Some(c) => c,
        None => return Err(SecretError::NotInitialized),
    };
    let _key = enc_key(cfg)?;
    match crate::secrets::b64_decode(value_b64) {
        Some(_) => Ok(()),
        None => Err(SecretError::InvalidConfig),
    }
}

/// Accept a delete once initialised; nothing is removed on this host.
pub fn handle_delete(state: &SecretsState, _name: &str) -> (r: Result<(), SecretError>)
    ensures
        state.config is None ==> (r matches Err(e) && e == SecretError::NotInitialized),
        state.config is Some ==> r is Ok,
{
    if state.config.is_none() {
        return Err(SecretError::NotInitialized);
    }
    Ok(())
}

/// A rotation through the admin API: no secret is found on this host.
pub fn handle_rotate(_name: &str, _value_b64: &str) -> (r: Result<SecretMetadata, SecretError>)
    ensures
        r matches Err(e) && e == SecretError::NotFound,
{
    Err(SecretError::NotFound)
}

/// What the admin API answers, before it is written out as JSON.
#[derive(Debug)]
pub enum Reply {
    /// `{"ok":true}`
    Done,
    /// An array of secret names.
    Names(Vec<String>),
    /// A secret's metadata.
    Meta(SecretMetadata),
    /// `{"error": <message>}`
    Error(String),
}

/// `r` is the answer for error `e`: its status and its message.
pub open spec fn error_reply(r: (u16, Reply), e: SecretError) -> bool {
    r.0 == status_of(e) && (r.1 matches Reply::Error(m) && m@ == error_text(e))
}

/// `r` is the `404 not found` answer.
pub open spec fn not_found_reply(r: (u16, Reply)) -> bool {
    r.0 == 404 && (r.1 matches Reply::Error(m) && m@ == "not found"@)
}

/// `r` is the `400 invalid JSON body` answer.
pub open spec fn bad_body_reply(r: (u16, Reply)) -> bool {
    r.0 == 400 && (r.1 matches Reply::Error(m) && m@ == "invalid JSON body"@)
}

/// The answer for error `e`.
fn error_response(e: SecretError) -> (r: (u16, Reply))
    ensures
        error_reply(r, e),
{
    (secret_err_to_status(&e), Reply::Error(e.message()))
}

/// Answer a request to the admin API: `method` on `path`, with `body_value`
/// the `value` of a JSON body `{"value": "<base64>"}` (`None` when the body
/// is not such an object).
pub fn dispatch(state: &SecretsState, method: &str, path: &str, body_value: Option<String>) -> (r: (u16, Reply))
    ensures
        ({
            let (name, action) = path_route(path@);
            if method@ == "GET"@ && action == "list"@ {
                match state.config {
                    None => error_reply(r, SecretError::NotInitialized),
                    Some(_) => r.0 == 200 && (r.1 matches Reply::Names(v) && v@.len() == 0),
                }
            } else if method@ == "GET"@ && action == "resource"@ {
                error_reply(r, SecretError::NotFound)
            } else if method@ == "POST"@ && action == "resource"@ {
                match body_value {
                    None => bad_body_reply(r),
                    Some(b) => match state.config {
                        None => error_reply(r, SecretError::NotInitialized),
                        Some(cfg) => if cfg.encryption_key is None || crate::secrets::base64_std_decoded(b@) is None {
                            error_reply(r, SecretError::InvalidConfig)
                        } else {
                            r.0 == 200 && r.1 is Done
                        },
                    },
                }
            } else if method@ == "DELETE"@ && action == "resource"@ {
                match state.config {
                    None => error_reply(r, SecretError::NotInitialized),
                    Some(_) => r.0 == 200 && r.1 is Done,
                }
            } else if method@ == "POST"@ && action == "rotate"@ {
                match body_value {
                    None => bad_body_reply(r),
                    Some(_) => error_reply(r, SecretError::NotFound),
                }
            } else {
                not_found_reply(r)
            }
        }),
{
    let (name, action) = parse_path(path);
    proof {
        reveal_strlit("list");
        reveal_strlit("resource");
        reveal_strlit("rotate");
        reveal_strlit("not_found");
    }
    let get = str_is(method, "GET");
    let post = str_is(method, "POST");
    let delete = str_is(method, "DELETE");
    let list = str_is(action, "list");
    let resource = str_is(action, "resource");
    let rotate = str_is(action, "rotate");
    if get && list {
        match handle_list(state) {
            Ok(names) => (200, Reply::Names(names)),
            Err(e) => error_response(e),
        }
    } else if get && resource {
        let n = match name {
            Some(n) => n,
            None => String::new(),
        };
        match handle_get_meta(n.as_str()) {
            Ok(m) => (200, Reply::Meta(m)),
            Err(e) => error_response(e),
        }
    } else if post && resource {
        let n = match name {
            Some(n) => n,
            None => String::new(),
        };
        match body_value {
            Some(b) => match handle_set(state, n.as_str(), b.as_str()) {
                Ok(()) => (200, Reply::Done),
                Err(e) => error_response(e),
            },
            None => (400, Reply::Error(crate::text::owned("invalid JSON body"))),
        }
    } else if delete && resource {
        let n = match name {
            Some(n) => n,
            None => String::new(),
        };
        match handle_delete(state, n.as_str()) {
            Ok(()) => (200, Reply::Done),
            Err(e) => error_response(e),
        }
    } else if post && rotate {
        let n = match name {
            Some(n) => n,
            None => String::new(),
        };
        match body_value {
            Some(b) => match handle_rotate(n.as_str(), b.as_str()) {
                Ok(m) => (200, Reply::Meta(m)),
                Err(e) => error_response(e),
            },
            None => (400, Reply::Error(crate::text::owned("invalid JSON body"))),
        }
    } else {
        (404, Reply::Error(crate::text::owned("not found")))
    }
}

/// What a set writes reads back: the sealed text, stored as its UTF-8 bytes,
/// is valid UTF-8 and opens under the same key to the value that was set
/// (see `core_set` and `core_get`).
pub proof fn law_get_after_set(key: Seq<char>, sealed: Seq<char>, value: Seq<u8>)
    requires
        crate::secrets::opened(key, sealed) == Ok::<Seq<u8>, SecretError>(value),
    ensures
        valid_utf8(vstd::utf8::encode_utf8(sealed)),
        crate::secrets::opened(key, decode_utf8(vstd::utf8::encode_utf8(sealed))) == Ok::<Seq<u8>, SecretError>(value),
{
    vstd::utf8::encode_utf8_valid_utf8(sealed);
    vstd::utf8::encode_utf8_decode_utf8(sealed);
}

} // verus!
