//! Secrets: AES-256-GCM sealing of values under a base64 key, and the
//! key-value layout of secret data and metadata.
use vstd::prelude::*;
use crate::strings::{has_prefix, has_suffix};

verus! {

/// Errors of the secrets store.
#[derive(Debug, Clone, Copy, PartialEq, Eq, Structural)]
pub enum SecretError {
    NotInitialized,
    NotFound,
    AlreadyExists,
    InvalidConfig,
    EncryptionError,
    StorageError,
    PermissionDenied,
}

/// The text shown for each error.
pub open spec fn error_text(e: SecretError) -> Seq<char> {
    match e {
        SecretError::NotInitialized => "not initialized"@,
        SecretError::NotFound => "not found"@,
        SecretError::AlreadyExists => "already exists"@,
        SecretError::InvalidConfig => "invalid config"@,
        SecretError::EncryptionError => "encryption error"@,
        SecretError::StorageError => "storage error"@,
        SecretError::PermissionDenied => "permission denied"@,
    }
}

impl SecretError {
    /// The text shown for the error.
    pub fn message(&self) -> (r: String)
        ensures
            r@ == error_text(*self),
    {
        match self {
            SecretError::NotInitialized => crate::text::owned("not initialized"),
            SecretError::NotFound => crate::text::owned("not found"),
            SecretError::AlreadyExists => crate::text::owned("already exists"),
            SecretError::InvalidConfig => crate::text::owned("invalid config"),
            SecretError::EncryptionError => crate::text::owned("encryption error"),
            SecretError::StorageError => crate::text::owned("storage error"),
            SecretError::PermissionDenied => crate::text::owned("permission denied"),
        }
    }
}

/// A secret's bytes.
#[derive(Debug, Clone)]
pub struct SecretValue {
    pub data: Vec<u8>,
}

/// What is kept beside a secret.
#[derive(Debug, Clone)]
pub struct SecretMetadata {
    pub name: String,
    pub version: u32,
    pub created_at_ms: u64,
    pub updated_at_ms: u64,
}

/// Where and how secrets are kept.
#[derive(Debug, Clone)]
pub struct SecretsConfig {
    pub backend: String,
    pub namespace: Option<String>,
    pub encryption_key: Option<String>,
}

// ── Outside functions ───────────────────────────────────────────────────────

/// What the `base64` crate's standard engine decodes from `s`.
pub uninterp spec fn base64_std_decoded(s: Seq<char>) -> Option<Seq<u8>>;

/// What the `base64` crate's standard engine encodes `b` as.
pub uninterp spec fn base64_std_encoded(b: Seq<u8>) -> Seq<char>;

/// What AES-256-GCM sealing of `pt` under `key` and `nonce` gives (`aes-gcm` crate).
pub uninterp spec fn gcm_sealed(key: Seq<u8>, nonce: Seq<u8>, pt: Seq<u8>) -> Option<Seq<u8>>;

/// What AES-256-GCM opening of `ct` under `key` and `nonce` gives (`aes-gcm` crate).
pub uninterp spec fn gcm_opened(key: Seq<u8>, nonce: Seq<u8>, ct: Seq<u8>) -> Option<Seq<u8>>;

/// The bytes of an optional byte vector.
pub open spec fn opt_bytes(o: Option<Vec<u8>>) -> Option<Seq<u8>> {
    crate::text::opt_bytes(o)
}

/// Wraps `Engine::decode` of `base64::engine::general_purpose::STANDARD`:
/// the bytes that `s` encodes, or `None` when it is not valid padded base64.
#[verifier::external_body]
pub(crate) fn b64_decode(s: &str) -> (r: Option<Vec<u8>>)
    ensures
        opt_bytes(r) == base64_std_decoded(s@),
{
    match base64::Engine::decode(&base64::engine::general_purpose::STANDARD, s) {
        Ok(v) => Some(v),
        Err(_) => None,
    }
}

/// Wraps `Engine::encode` of `base64::engine::general_purpose::STANDARD`:
/// padded standard base64 of `b`, which the same engine decodes back to `b`.
#[verifier::external_body]
fn b64_encode(b: &[u8]) -> (r: String)
    ensures
        r@ == base64_std_encoded(b@),
        base64_std_decoded(r@) == Some(b@),
{
    base64::Engine::encode(&base64::engine::general_purpose::STANDARD, b)
}

/// Wraps `AeadCore::generate_nonce` of `Aes256Gcm` with `OsRng`: twelve
/// random bytes from the operating system.
#[verifier::external_body]
fn random_nonce() -> (r: Vec<u8>)
    ensures
        r@.len() == 12,
{
    let n = <aes_gcm::Aes256Gcm as aes_gcm::aead::AeadCore>::generate_nonce(&mut aes_gcm::aead::OsRng);
    n.to_vec()
}

/// Wraps `Aead::encrypt` of `Aes256Gcm` (built with `KeyInit::new` from the
/// 32-byte `key`): the ciphertext and tag of `pt` under `nonce`, which
/// `Aead::decrypt` with the same key and nonce opens back to `pt`; it fails
/// only for a plaintext longer than 2^36 bytes.
#[verifier::external_body]
fn gcm_seal(key: &[u8], nonce: &[u8], pt: &[u8]) -> (r: Option<Vec<u8>>)
    requires
        key@.len() == 32,
        nonce@.len() == 12,
    ensures
        opt_bytes(r) == gcm_sealed(key@, nonce@, pt@),
        r matches Some(c) ==> gcm_opened(key@, nonce@, c@) == Some(pt@),
        pt@.len() <= 68_719_476_736 ==> r is Some,
{
    let cipher = <aes_gcm::Aes256Gcm as aes_gcm::aead::KeyInit>::new(aes_gcm::Key::<aes_gcm::Aes256Gcm>::from_slice(key));
    match aes_gcm::aead::Aead::encrypt(&cipher, aes_gcm::Nonce::from_slice(nonce), pt) {
        Ok(v) => Some(v),
        Err(_) => None,
    }
}

/// Wraps `Aead::decrypt` of `Aes256Gcm` (built with `KeyInit::new` from the
/// 32-byte `key`): the plaintext of `ct` under `nonce`, or `None` when it
/// does not authenticate.
#[verifier::external_body]
fn gcm_open(key: &[u8], nonce: &[u8], ct: &[u8]) -> (r: Option<Vec<u8>>)
    requires
        key@.len() == 32,
        nonce@.len() == 12,
    ensures
        opt_bytes(r) == gcm_opened(key@, nonce@, ct@),
{
    let cipher = <aes_gcm::Aes256Gcm as aes_gcm::aead::KeyInit>::new(aes_gcm::Key::<aes_gcm::Aes256Gcm>::from_slice(key));
    match aes_gcm::aead::Aead::decrypt(&cipher, aes_gcm::Nonce::from_slice(nonce), ct) {
        Ok(v) => Some(v),
        Err(_) => None,
    }
}

// ── Sealing ─────────────────────────────────────────────────────────────────

/// What sealing `plaintext` under `key_b64` with `nonce` gives: base64 of the
/// nonce followed by the ciphertext.
pub open spec fn sealed_with(key_b64: Seq<char>, plaintext: Seq<u8>, nonce: Seq<u8>) -> Result<Seq<char>, SecretError> {
    match base64_std_decoded(key_b64) {
        None => Err(SecretError::InvalidConfig),
        Some(k) => if k.len() != 32 {
            Err(SecretError::InvalidConfig)
        } else {
            match gcm_sealed(k, nonce, plaintext) {
                None => Err(SecretError::EncryptionError),
                Some(c) => Ok(base64_std_encoded(nonce + c)),
            }
        },
    }
}

/// Whether `key_b64` is base64 of a 32-byte key.
pub open spec fn key_ok(key_b64: Seq<char>) -> bool {
    base64_std_decoded(key_b64) matches Some(k) && k.len() == 32
}

/// The view of a sealing result.
pub open spec fn result_view(r: Result<String, SecretError>) -> Result<Seq<char>, SecretError> {
    match r {
        Ok(s) => Ok(s@),
        Err(e) => Err(e),
    }
}

/// The 32-byte key that `key_b64` encodes.
fn decode_key(key_b64: &str) -> (r: Result<Vec<u8>, SecretError>)
    ensures
        match base64_std_decoded(key_b64@) {
            Some(k) => if k.len() == 32 {
                r matches Ok(v) && v@ == k
            } else {
                r == Err::<Vec<u8>, SecretError>(SecretError::InvalidConfig)
            },
            None => r == Err::<Vec<u8>, SecretError>(SecretError::InvalidConfig),
        },
{
    let key = match b64_decode(key_b64) {
        Some(k) => k,
        None => return Err(SecretError::InvalidConfig),
    };
    if key.len() != 32 {
        return Err(SecretError::InvalidConfig);
    }
    Ok(key)
}

/// Seal `plaintext` under `key_b64` with the 12-byte `nonce`; what comes out
/// opens back to `plaintext` under the same key.
pub fn encrypt_with_nonce(key_b64: &str, plaintext: &[u8], nonce: &[u8]) -> (r: Result<String, SecretError>)
    requires
        nonce@.len() == 12,
    ensures
        result_view(r) == sealed_with(key_b64@, plaintext@, nonce@),
        r matches Ok(s) ==> opened(key_b64@, s@) == Ok::<Seq<u8>, SecretError>(plaintext@),
        key_ok(key_b64@) && plaintext@.len() <= 68_719_476_736 ==> r is Ok,
{
    let key = decode_key(key_b64)?;
    let ct = match gcm_seal(key.as_slice(), nonce, plaintext) {
        Some(c) => c,
        None => return Err(SecretError::EncryptionError),
    };
    let mut combined: Vec<u8> = Vec::new();
    let mut i: usize = 0;
    while i < nonce.len()
        invariant
            i <= nonce@.len(),
            combined@ == nonce@.take(i as int),
        decreases nonce@.len() - i,
    {
        combined.push(nonce[i]);
        proof {
            assert(combined@ =~= nonce@.take(i + 1));
        }
        i = i + 1;
    }
    let mut j: usize = 0;
    while j < ct.len()
        invariant
            j <= ct@.len(),
            combined@ == nonce@ + ct@.take(j as int),
        decreases ct@.len() - j,
    {
        combined.push(ct[j]);
        proof {
            assert(combined@ =~= nonce@ + ct@.take(j + 1));
        }
        j = j + 1;
    }
    proof {
        assert(nonce@.take(nonce@.len() as int) =~= nonce@);
        assert(ct@.take(ct@.len() as int) =~= ct@);
        assert(combined@.take(12) =~= nonce@);
        assert(combined@.skip(12) =~= ct@);
    }
    Ok(b64_encode(combined.as_slice()))
}

/// Seal `plaintext` under `key_b64` with a fresh random nonce: base64 of the
/// nonce followed by the ciphertext.
pub fn encrypt(key_b64: &str, plaintext: &[u8]) -> (r: Result<String, SecretError>)
    ensures
        exists|nonce: Seq<u8>| nonce.len() == 12 && result_view(r) == #[trigger] sealed_with(key_b64@, plaintext@, nonce),
        r matches Ok(s) ==> opened(key_b64@, s@) == Ok::<Seq<u8>, SecretError>(plaintext@),
        key_ok(key_b64@) && plaintext@.len() <= 68_719_476_736 ==> r is Ok,
{
    let nonce = random_nonce();
    encrypt_with_nonce(key_b64, plaintext, nonce.as_slice())
}

/// What opening `encoded` under `key_b64` gives.
pub open spec fn opened(key_b64: Seq<char>, encoded: Seq<char>) -> Result<Seq<u8>, SecretError> {
    match base64_std_decoded(key_b64) {
        None => Err(SecretError::InvalidConfig),
        Some(k) => if k.len() != 32 {
            Err(SecretError::InvalidConfig)
        } else {
            match base64_std_decoded(encoded) {
                None => Err(SecretError::EncryptionError),
                Some(c) => if c.len() < 12 {
                    Err(SecretError::EncryptionError)
                } else {
                    match gcm_opened(k, c.take(12), c.skip(12)) {
                        None => Err(SecretError::EncryptionError),
                        Some(p) => Ok(p),
                    }
                },
            }
        },
    }
}

/// Open base64 `encoded` (nonce then ciphertext) under `key_b64`.
pub fn decrypt(key_b64: &str, encoded: &str) -> (r: Result<Vec<u8>, SecretError>)
    ensures
        match opened(key_b64@, encoded@) {
            Ok(p) => r matches Ok(v) && v@ == p,
            Err(e) => r == Err::<Vec<u8>, SecretError>(e),
        },
{
    let key = decode_key(key_b64)?;
    let combined = match b64_decode(encoded) {
        Some(c) => c,
        None => return Err(SecretError::EncryptionError),
    };
    if combined.len() < 12 {
        return Err(SecretError::EncryptionError);
    }
    let nonce = crate::text::slice_bytes(&combined, 0, 12);
    let ct = crate::text::slice_bytes(&combined, 12, combined.len());
    proof {
        assert(nonce@ =~= combined@.take(12));
        assert(ct@ =~= combined@.skip(12));
    }
    match gcm_open(key.as_slice(), nonce.as_slice(), ct.as_slice()) {
        Some(p) => Ok(p),
        None => Err(SecretError::EncryptionError),
    }
}

// ── Key layout ──────────────────────────────────────────────────────────────

/// The key of a secret's data: `namespace:name`.
pub fn kv_data_key(namespace: &str, name: &str) -> (r: String)
    ensures
        r@ == namespace@ + ":"@ + name@,
{
    let mut v: Vec<char> = Vec::new();
    crate::text::push_str(&mut v, namespace);
    crate::text::push_str(&mut v, ":");
    crate::text::push_str(&mut v, name);
    crate::text::string_from_chars(v.as_slice())
}

/// The key of a secret's metadata: `namespace:name:meta`.
pub fn kv_meta_key(namespace: &str, name: &str) -> (r: String)
    ensures
        r@ == namespace@ + ":"@ + name@ + ":meta"@,
{
    let mut v: Vec<char> = Vec::new();
    crate::text::push_str(&mut v, namespace);
    crate::text::push_str(&mut v, ":");
    crate::text::push_str(&mut v, name);
    crate::text::push_str(&mut v, ":meta");
    crate::text::string_from_chars(v.as_slice())
}

/// Whether `key` is a metadata key (ends with `:meta`).
pub fn is_meta_key(key: &str) -> (r: bool)
    ensures
        r == has_suffix(key@, ":meta"@),
{
    let k = crate::text::chars_of(key);
    let s = crate::text::chars_of(":meta");
    crate::strings::ends_with(&k, &s)
}

/// The secret name of a data key under `namespace`: what follows `namespace:`.
pub fn name_from_data_key(namespace: &str, key: &str) -> (r: Option<String>)
    ensures
        has_prefix(key@, namespace@ + ":"@) ==> (r matches Some(n) && n@ == key@.skip(namespace@.len() + 1int)),
        !has_prefix(key@, namespace@ + ":"@) ==> r is None,
{
    let k = crate::text::chars_of(key);
    let mut p: Vec<char> = Vec::new();
    crate::text::push_str(&mut p, namespace);
    crate::text::push_str(&mut p, ":");
    proof {
        reveal_strlit(":");
    }
    if crate::strings::starts_with(&k, &p) {
        let rest = crate::text::slice_vec(&k, p.len(), k.len());
        proof {
            assert(rest@ =~= key@.skip(namespace@.len() + 1int));
        }
        Some(crate::text::string_from_chars(rest.as_slice()))
    } else {
        None
    }
}

// ── Laws ────────────────────────────────────────────────────────────────────

/// A metadata key is recognised as one; a data key is not, unless the
/// secret's name itself ends in `:meta` or is `meta`; and the name is read
/// back from the data key.
pub proof fn law_key_layout(namespace: Seq<char>, name: Seq<char>)
    requires
        !has_suffix(name, ":meta"@),
        name != "meta"@,
    ensures
        has_suffix(namespace + ":"@ + name + ":meta"@, ":meta"@),
        !has_suffix(namespace + ":"@ + name, ":meta"@),
        has_prefix(namespace + ":"@ + name, namespace + ":"@),
        (namespace + ":"@ + name).skip(namespace.len() + 1int) == name,
{
    reveal_strlit(":meta");
    reveal_strlit(":");
    reveal_strlit("meta");
    let d = namespace + ":"@ + name;
    let m = d + ":meta"@;
    assert(m.skip(m.len() - 5) =~= ":meta"@);
    assert(d.take(namespace.len() + 1int) =~= namespace + ":"@);
    assert(d.skip(namespace.len() + 1int) =~= name);
    if has_suffix(d, ":meta"@) {
        let k = name.len() as int;
        if k >= 5 {
            assert(d.skip(d.len() - 5) =~= name.skip(k - 5));
            assert(has_suffix(name, ":meta"@));
        } else {
            let t = d.skip(d.len() - 5);
            assert(t[4 - k] == d[namespace.len() as int]);
            assert(d[namespace.len() as int] == ':');
            assert(t[4 - k] == ":meta"@[4 - k]);
            assert(k == 4);
            assert(name =~= t.skip(1));
            assert(":meta"@.skip(1) =~= "meta"@);
        }
    }
}

} // verus!
