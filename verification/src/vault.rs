//! Vault manifests (`inkstone.json`): what opening a vault reads from them,
//! how encrypted manifests wrap the master key, and how it is unwrapped.
use vstd::prelude::*;
use vstd::utf8::encode_utf8;
use vstd::string::StringSliceAdditionalSpecFns;
use crate::codec::{base64_decoded, base64_standard, decode_base64, encode_base64};
use crate::crypto::{
    aead_open, argon2_params_valid, argon2id_v13, default_argon2_params, derive_kek_from_password,
    derive_kek_from_recovery, has_prefix, hkdf_sha256, random_bytes, xchacha20poly1305_seal, recovery_kek_info, seal, Argon2Params,
    Envelope, MK_LEN, NONCE_LEN, RECOVERY_CODE_LEN, SALT_LEN,
};
use crate::json::{json_get, member_count, or_default, str_eq, str_field, u64_field, Json};
use crate::recovery::{
    ascii_lower, ascii_upper, generate_recovery_code, parse_recovery_code, parse_recovery_spec, recovery_code_text,
};
use crate::text::{chars_of, contains_seq, decimal, is_err_with, push_char, push_decimal, str_contains};

verus! {

pub const VAULT_FORMAT_VERSION: u64 = 1;
pub const KEYS_FORMAT_VERSION: u64 = 1;

/// What the app reports about an opened vault.
#[derive(Debug)]
pub struct VaultInfo {
    pub path: String,
    pub vault_id: String,
    pub format_version: u64,
    pub encryption: String,
}

/// An ASCII digit.
pub open spec fn is_digit(c: char) -> bool {
    '0' <= c && c <= '9'
}

/// The shape of a UTC time in RFC 3339 as `time` writes it:
/// `YYYY-MM-DDTHH:MM:SS`, an optional fraction, then `Z`.
pub open spec fn rfc3339_utc_shape(t: Seq<char>) -> bool {
    &&& t.len() >= 20
    &&& is_digit(t[0]) && is_digit(t[1]) && is_digit(t[2]) && is_digit(t[3])
    &&& t[4] == '-' && is_digit(t[5]) && is_digit(t[6])
    &&& t[7] == '-' && is_digit(t[8]) && is_digit(t[9])
    &&& t[10] == 'T' && is_digit(t[11]) && is_digit(t[12])
    &&& t[13] == ':' && is_digit(t[14]) && is_digit(t[15])
    &&& t[16] == ':' && is_digit(t[17]) && is_digit(t[18])
    &&& t.last() == 'Z'
}

/// The current UTC time in RFC 3339 (`time::OffsetDateTime::now_utc()`
/// formatted with `Rfc3339`). Claims only its shape, which the formatter
/// writes for every UTC time: four-digit year, two-digit month, day, hour,
/// minute and second with their separators, and `Z` for the UTC offset.
/// Which time it is depends on the clock and is not claimed. Formatting
/// fails only for years outside 0..=9999 or offsets with seconds, which the
/// current UTC time does not have.
#[verifier::external_body]
pub fn now_rfc3339() -> (now: String)
    ensures
        rfc3339_utc_shape(now@),
{
    time::OffsetDateTime::now_utc()
        .format(&time::format_description::well_known::Rfc3339)
        .expect("RFC 3339 formatting of current time cannot fail")
}

/// A symbol of the upper-case Crockford Base32 alphabet.
pub open spec fn is_crockford_upper(c: char) -> bool {
    ('0' <= c && c <= '9') || ('A' <= c && c <= 'Z' && c != 'I' && c != 'L' && c != 'O' && c != 'U')
}

/// `ulid::Ulid::new().to_string()`: a ULID made from the clock and the OS
/// random source, written as 26 symbols of the upper-case Crockford Base32
/// alphabet (`base32::encode`). Claims only that shape.
#[verifier::external_body]
fn new_ulid_text() -> (text: String)
    ensures
        text@.len() == 26,
        forall|i: int| 0 <= i < 26 ==> is_crockford_upper(#[trigger] text@[i]),
{
    ulid::Ulid::new().to_string()
}

/// `s` with ASCII capitals lowered, which is what `str::to_lowercase` does
/// to an ASCII string.
fn ascii_lowercase(s: &str) -> (res: String)
    ensures
        res@ == s@.map_values(|c: char| ascii_lower(c)),
{
    let chars = chars_of(s);
    let mut res = String::new();
    let n = chars.len();
    for i in 0..n
        invariant
            n == chars@.len(),
            chars@ == s@,
            res@ == s@.take(i as int).map_values(|c: char| ascii_lower(c)),
    {
        let c = chars[i];
        let l = if 'A' <= c && c <= 'Z' {
            ((c as u8) + 32) as char
        } else {
            c
        };
        push_char(&mut res, l);
        assert(s@.take(i + 1).map_values(|c: char| ascii_lower(c))
            =~= s@.take(i as int).map_values(|c: char| ascii_lower(c)).push(ascii_lower(c)));
    }
    assert(s@.take(n as int) =~= s@);
    res
}

/// A new ULID in lower case: 26 symbols of the lower-case Crockford alphabet.
pub fn new_id() -> (id: String)
    ensures
        id@.len() == 26,
        forall|i: int| 0 <= i < 26 ==> #[trigger] id@[i] == ascii_lower(id@[i]) && is_crockford_upper(ascii_upper(id@[i])),
{
    let text = new_ulid_text();
    let id = ascii_lowercase(text.as_str());
    assert forall|i: int| 0 <= i < 26 implies #[trigger] id@[i] == ascii_lower(id@[i]) && is_crockford_upper(ascii_upper(id@[i])) by {
        assert(id@[i] == ascii_lower(text@[i]));
        assert(is_crockford_upper(text@[i]));
    }
    id
}

/// A file name holding `.tmp-`: a temporary file of an atomic write.
pub open spec fn is_temp_name(name: Seq<char>) -> bool {
    contains_seq(name, ".tmp-"@)
}

/// The name of the temporary file an atomic write of `file_name` goes
/// through: `{file_name}.tmp-{new id}`, in the same directory.
pub fn temp_file_name(file_name: &str) -> (name: String)
    ensures
        exists|id: Seq<char>| id.len() == 26 && name@ == file_name@ + ".tmp-"@ + id,
        is_temp_name(name@),
{
    let mut name = String::from_str(file_name);
    name.append(".tmp-");
    let id = new_id();
    name.append(id.as_str());
    proof {
        let i = file_name@.len() as int;
        assert(name@.subrange(i, i + ".tmp-"@.len()) =~= ".tmp-"@);
    }
    name
}

/// Whether a file left in a vault directory is a temporary file, which
/// opening the vault sweeps away.
pub fn is_temp_file(name: &str) -> (res: bool)
    ensures
        res == is_temp_name(name@),
{
    str_contains(name, ".tmp-")
}

/// Reads `formatVersion` as a non-negative integer.
pub fn format_version_of(value: &Json, path: &str) -> (res: Result<u64, String>)
    ensures
        match res {
            Ok(v) => u64_field(*value, "formatVersion"@) == Some(v),
            Err(e) => u64_field(*value, "formatVersion"@) is None && e@ == "missing formatVersion in "@ + path@,
        },
{
    let found = match value.get("formatVersion") {
        Some(v) => v.as_u64(),
        None => None,
    };
    match found {
        Some(v) => Ok(v),
        None => {
            let mut msg = String::from_str("missing formatVersion in ");
            msg.append(path);
            Err(msg)
        },
    }
}

pub open spec fn newer_vault_msg(v: u64) -> Seq<char> {
    "vault requires a newer version of Inkstone (vault formatVersion "@ + decimal(v as nat) + ", supported 1)"@
}

/// The vault information a manifest gives, or why it cannot be opened.
/// `root` is the vault directory and `manifest_path` its manifest's path,
/// both as displayed.
pub fn info_from_manifest(root: &str, manifest_path: &str, manifest: &Json) -> (res: Result<VaultInfo, String>)
    ensures
        match u64_field(*manifest, "formatVersion"@) {
            None => is_err_with(res, "missing formatVersion in "@ + manifest_path@),
            Some(v) => if v > VAULT_FORMAT_VERSION {
                is_err_with(res, newer_vault_msg(v))
            } else {
                res matches Ok(info) && info.path@ == root@
                    && info.vault_id@ == or_default(str_field(*manifest, "vaultId"@), Seq::empty())
                    && info.format_version == v
                    && info.encryption@ == or_default(str_field(*manifest, "encryption"@), "none"@)
            },
        },
{
    let format_version = match format_version_of(manifest, manifest_path) {
        Ok(v) => v,
        Err(e) => return Err(e),
    };
    if format_version > VAULT_FORMAT_VERSION {
        let mut msg = String::from_str("vault requires a newer version of Inkstone (vault formatVersion ");
        push_decimal(&mut msg, format_version);
        msg.append(", supported 1)");
        return Err(msg);
    }
    let vault_id = match manifest.get("vaultId") {
        Some(v) => match v.as_str() {
            Some(s) => String::from_str(s),
            None => String::new(),
        },
        None => String::new(),
    };
    let encryption = match manifest.get("encryption") {
        Some(v) => match v.as_str() {
            Some(s) => String::from_str(s),
            None => String::from_str("none"),
        },
        None => String::from_str("none"),
    };
    Ok(VaultInfo { path: String::from_str(root), vault_id, format_version, encryption })
}

pub open spec fn not_a_vault_msg(root: Seq<char>) -> Seq<char> {
    root + " is not an Inkstone vault"@
}

/// Opening the vault at `root`: `manifest` is its parsed manifest, or `None`
/// where `manifest_path` does not exist.
pub fn open(root: &str, manifest_path: &str, manifest: Option<&Json>) -> (res: Result<VaultInfo, String>)
    ensures
        match manifest {
            None => is_err_with(res, not_a_vault_msg(root@)),
            Some(m) => match u64_field(*m, "formatVersion"@) {
                None => is_err_with(res, "missing formatVersion in "@ + manifest_path@),
                Some(v) => if v > VAULT_FORMAT_VERSION {
                    is_err_with(res, newer_vault_msg(v))
                } else {
                    res matches Ok(info) && info.path@ == root@
                        && info.vault_id@ == or_default(str_field(*m, "vaultId"@), Seq::empty())
                        && info.format_version == v
                        && info.encryption@ == or_default(str_field(*m, "encryption"@), "none"@)
                },
            },
        },
{
    match manifest {
        None => {
            let mut msg = String::from_str(root);
            msg.append(" is not an Inkstone vault");
            Err(msg)
        },
        Some(m) => info_from_manifest(root, manifest_path, m),
    }
}

/// The manifest of a new plaintext vault.
pub fn plain_manifest(vault_id: &str, created_at: &str) -> (m: Json)
    ensures
        m is Object,
        u64_field(m, "formatVersion"@) == Some(VAULT_FORMAT_VERSION),
        str_field(m, "vaultId"@) == Some(vault_id@),
        str_field(m, "createdAt"@) == Some(created_at@),
        str_field(m, "encryption"@) == Some("none"@),
        member_count(m) == 4,
        forall|k: Seq<char>| k != "formatVersion"@ && k != "vaultId"@ && k != "createdAt"@ && k != "encryption"@
            ==> #[trigger] json_get(m, k) is None,
{
    proof {
        reveal_strlit("formatVersion");
        reveal_strlit("vaultId");
        reveal_strlit("createdAt");
        reveal_strlit("encryption");
        assert("formatVersion"@[0] == 'f');
        assert("vaultId"@[0] == 'v');
        assert("createdAt"@[0] == 'c');
        assert("encryption"@[0] == 'e');
    }
    let mut m = Json::object();
    m.set("formatVersion", Json::uint(VAULT_FORMAT_VERSION));
    m.set("vaultId", Json::string(vault_id));
    m.set("createdAt", Json::string(created_at));
    m.set("encryption", Json::string("none"));
    m
}


// ---------------------------------------------------------------------------
// Key envelopes in the manifest.
// ---------------------------------------------------------------------------

/// The bytes the Base64 text member `key` of `j` holds.
pub open spec fn base64_field(j: Json, key: Seq<char>) -> Option<Seq<u8>> {
    match str_field(j, key) {
        Some(t) => base64_decoded(t),
        None => None,
    }
}

/// The nonce and ciphertext of a `{nonce, ciphertext}` envelope object.
pub open spec fn envelope_of(w: Json) -> Option<(Seq<u8>, Seq<u8>)> {
    match (base64_field(w, "nonce"@), base64_field(w, "ciphertext"@)) {
        (Some(n), Some(c)) => Some((n, c)),
        _ => None,
    }
}

/// The master key the envelope `w` wraps under `kek`: the plaintext it
/// opens to, when that is a 32-byte key.
pub open spec fn unwrap_key(w: Json, kek: Seq<u8>) -> Option<Seq<u8>> {
    match envelope_of(w) {
        Some((n, c)) => if n.len() != NONCE_LEN {
            None
        } else {
            match aead_open(kek, n, c) {
                Some(p) => if p.len() == MK_LEN {
                    Some(p)
                } else {
                    None
                },
                None => None,
            }
        },
        None => None,
    }
}

/// The 16-byte salt of a key entry.
pub open spec fn salt_of(entry: Json) -> Option<Seq<u8>> {
    match base64_field(entry, "salt"@) {
        Some(salt) => if salt.len() == SALT_LEN {
            Some(salt)
        } else {
            None
        },
        None => None,
    }
}

/// The Argon2id costs of a password entry, each read as a `u64` and cut to
/// 32 bits.
pub open spec fn entry_params(entry: Json) -> Option<(u32, u32, u32)> {
    match json_get(entry, "kdfParams"@) {
        Some(params) => match (
            u64_field(params, "memoryKib"@),
            u64_field(params, "iterations"@),
            u64_field(params, "parallelism"@),
        ) {
            (Some(m), Some(t), Some(p)) => Some((m as u32, t as u32, p as u32)),
            _ => None,
        },
        None => None,
    }
}

/// The key-encryption key that `password` gives for a password entry.
pub open spec fn password_kek(entry: Json, password: Seq<char>) -> Option<Seq<u8>> {
    match (salt_of(entry), entry_params(entry)) {
        (Some(salt), Some((m, t, p))) => if argon2_params_valid(m, t, p) && encode_utf8(password).len()
            <= 0xFFFF_FFFF {
            Some(argon2id_v13(encode_utf8(password), salt, m, t, p))
        } else {
            None
        },
        _ => None,
    }
}

/// The key-encryption key that the typed recovery code `code` gives for a
/// recovery entry.
pub open spec fn recovery_kek(entry: Json, code: Seq<char>) -> Option<Seq<u8>> {
    match (salt_of(entry), parse_recovery_spec(code)) {
        (Some(salt), Ok(rb)) => Some(hkdf_sha256(rb, salt, recovery_kek_info())),
        _ => None,
    }
}

/// Which secret unlocks the vault.
pub enum UnlockPath {
    Password,
    Recovery,
}

/// The member of `keys` that each path reads.
pub open spec fn entry_name(which: UnlockPath) -> Seq<char> {
    match which {
        UnlockPath::Password => "password"@,
        UnlockPath::Recovery => "recovery"@,
    }
}

/// The master key that `secret` unwraps from a key entry.
pub open spec fn entry_key(entry: Json, secret: Seq<char>, which: UnlockPath) -> Option<Seq<u8>> {
    let kek = match which {
        UnlockPath::Password => password_kek(entry, secret),
        UnlockPath::Recovery => recovery_kek(entry, secret),
    };
    match (kek, json_get(entry, "wrappedKey"@)) {
        (Some(kek), Some(w)) => unwrap_key(w, kek),
        _ => None,
    }
}

pub open spec fn not_encrypted_msg(path: Seq<char>) -> Seq<char> {
    path + " is not an encrypted vault"@
}

pub open spec fn missing_keys_msg() -> Seq<char> {
    "vault manifest is missing its keys section"@
}

pub open spec fn unlock_failed_msg() -> Seq<char> {
    "incorrect password or recovery code"@
}

/// What unlocking the vault at `path`, whose manifest is `m`, with `secret`
/// gives: the master key, or the error message.
pub open spec fn unlock_spec(path: Seq<char>, m: Json, secret: Seq<char>, which: UnlockPath) -> Result<Seq<u8>, Seq<char>> {
    if str_field(m, "encryption"@) != Some("v1"@) {
        Err(not_encrypted_msg(path))
    } else {
        match json_get(m, "keys"@) {
            None => Err(missing_keys_msg()),
            Some(keys) => match json_get(keys, entry_name(which)) {
                Some(entry) => match entry_key(entry, secret, which) {
                    Some(mk) => Ok(mk),
                    None => Err(unlock_failed_msg()),
                },
                None => Err(unlock_failed_msg()),
            },
        }
    }
}

/// `res` is what `spec` describes.
pub open spec fn key_result_is(res: Result<[u8; MK_LEN], String>, spec: Result<Seq<u8>, Seq<char>>) -> bool {
    match res {
        Ok(k) => spec == Ok::<Seq<u8>, Seq<char>>(k@),
        Err(e) => spec == Err::<Seq<u8>, Seq<char>>(e@),
    }
}

proof fn reveal_key_names()
    ensures
        "nonce"@ != "ciphertext"@,
        "kdf"@ != "kdfParams"@,
        "kdf"@ != "salt"@,
        "kdf"@ != "wrappedKey"@,
        "kdfParams"@ != "salt"@,
        "kdfParams"@ != "wrappedKey"@,
        "salt"@ != "wrappedKey"@,
        "memoryKib"@ != "iterations"@,
        "memoryKib"@ != "parallelism"@,
        "iterations"@ != "parallelism"@,
        "formatVersion"@ != "password"@,
        "formatVersion"@ != "recovery"@,
        "password"@ != "recovery"@,
        "formatVersion"@ != "vaultId"@,
        "formatVersion"@ != "createdAt"@,
        "formatVersion"@ != "encryption"@,
        "formatVersion"@ != "keys"@,
        "vaultId"@ != "createdAt"@,
        "vaultId"@ != "encryption"@,
        "vaultId"@ != "keys"@,
        "createdAt"@ != "encryption"@,
        "createdAt"@ != "keys"@,
        "encryption"@ != "keys"@,
{
    reveal_strlit("nonce");
    reveal_strlit("ciphertext");
    reveal_strlit("kdf");
    reveal_strlit("kdfParams");
    reveal_strlit("salt");
    reveal_strlit("wrappedKey");
    reveal_strlit("memoryKib");
    reveal_strlit("iterations");
    reveal_strlit("parallelism");
    reveal_strlit("formatVersion");
    reveal_strlit("password");
    reveal_strlit("recovery");
    reveal_strlit("vaultId");
    reveal_strlit("createdAt");
    reveal_strlit("encryption");
    reveal_strlit("keys");
    assert("nonce"@[0] != "ciphertext"@[0]);
    assert("kdf"@.len() != "kdfParams"@.len());
    assert("kdf"@[0] != "salt"@[0]);
    assert("kdf"@[0] != "wrappedKey"@[0]);
    assert("kdfParams"@[0] != "salt"@[0]);
    assert("kdfParams"@[0] != "wrappedKey"@[0]);
    assert("salt"@[0] != "wrappedKey"@[0]);
    assert("memoryKib"@[0] != "iterations"@[0]);
    assert("memoryKib"@[0] != "parallelism"@[0]);
    assert("iterations"@[0] != "parallelism"@[0]);
    assert("formatVersion"@[0] != "password"@[0]);
    assert("formatVersion"@[0] != "recovery"@[0]);
    assert("password"@[0] != "recovery"@[0]);
    assert("formatVersion"@[0] != "vaultId"@[0]);
    assert("formatVersion"@[0] != "createdAt"@[0]);
    assert("formatVersion"@[0] != "encryption"@[0]);
    assert("formatVersion"@[0] != "keys"@[0]);
    assert("vaultId"@[0] != "createdAt"@[0]);
    assert("vaultId"@[0] != "encryption"@[0]);
    assert("vaultId"@[0] != "keys"@[0]);
    assert("createdAt"@[0] != "encryption"@[0]);
    assert("createdAt"@[0] != "keys"@[0]);
    assert("encryption"@[0] != "keys"@[0]);
}

/// `{nonce, ciphertext}` in Base64.
fn envelope_to_json(envelope: &Envelope) -> (w: Json)
    ensures
        w is Object,
        envelope_of(w) == Some((envelope.nonce@, envelope.ciphertext@)),
        envelope_stored(w, envelope.nonce@, envelope.ciphertext@),
{
    proof { reveal_key_names(); }
    let mut w = Json::object();
    w.set("nonce", Json::Str(encode_base64(&envelope.nonce)));
    w.set("ciphertext", Json::Str(encode_base64(envelope.ciphertext.as_slice())));
    w
}

/// Reads a Base64 `{nonce, ciphertext}` pair. `what` names it in errors.
fn envelope_from_json(value: &Json, what: &str) -> (res: Result<(Vec<u8>, Vec<u8>), String>)
    ensures
        match res {
            Ok((n, c)) => envelope_of(*value) == Some((n@, c@)),
            Err(_) => envelope_of(*value) is None,
        },
{
    let nonce_text = match value.get("nonce") {
        Some(v) => v.as_str(),
        None => None,
    };
    let nonce_text = match nonce_text {
        Some(t) => t,
        None => {
            let mut msg = String::from_str("missing ");
            msg.append(what);
            msg.append(" nonce");
            return Err(msg);
        },
    };
    let ciphertext_text = match value.get("ciphertext") {
        Some(v) => v.as_str(),
        None => None,
    };
    let ciphertext_text = match ciphertext_text {
        Some(t) => t,
        None => {
            let mut msg = String::from_str("missing ");
            msg.append(what);
            msg.append(" ciphertext");
            return Err(msg);
        },
    };
    let nonce = match decode_base64(nonce_text) {
        Ok(n) => n,
        Err(error) => {
            let mut msg = String::from_str("invalid ");
            msg.append(what);
            msg.append(" nonce: ");
            msg.append(error.as_str());
            return Err(msg);
        },
    };
    let ciphertext = match decode_base64(ciphertext_text) {
        Ok(c) => c,
        Err(error) => {
            let mut msg = String::from_str("invalid ");
            msg.append(what);
            msg.append(" ciphertext: ");
            msg.append(error.as_str());
            return Err(msg);
        },
    };
    Ok((nonce, ciphertext))
}

/// Unwraps the master key held by the envelope `value` under `kek`.
fn open_wrapped_key(value: &Json, kek: &[u8; 32], what: &str) -> (res: Result<[u8; MK_LEN], String>)
    ensures
        match res {
            Ok(mk) => unwrap_key(*value, kek@) == Some(mk@),
            Err(_) => unwrap_key(*value, kek@) is None,
        },
{
    let (nonce, ciphertext) = match envelope_from_json(value, what) {
        Ok(pair) => pair,
        Err(e) => return Err(e),
    };
    if nonce.len() != NONCE_LEN {
        let mut msg = String::from_str("invalid ");
        msg.append(what);
        msg.append(" nonce length");
        return Err(msg);
    }
    let nonce = nonce_array(&nonce);
    let mk = match crate::crypto::open(kek, &nonce, ciphertext.as_slice()) {
        Ok(p) => p,
        Err(e) => return Err(e),
    };
    if mk.len() != MK_LEN {
        let mut msg = String::from_str("invalid ");
        msg.append(what);
        msg.append(": wrong key length after decryption");
        return Err(msg);
    }
    let mk = key_array(&mk);
    Ok(mk)
}

fn nonce_array(v: &Vec<u8>) -> (a: [u8; NONCE_LEN])
    requires
        v@.len() == NONCE_LEN,
    ensures
        a@ == v@,
{
    let mut a = [0u8; NONCE_LEN];
    for i in 0..NONCE_LEN
        invariant
            v@.len() == NONCE_LEN,
            a@.len() == NONCE_LEN,
            forall|j: int| 0 <= j < i ==> a@[j] == v@[j],
    {
        a[i] = v[i];
    }
    assert(a@ =~= v@);
    a
}

fn key_array(v: &Vec<u8>) -> (a: [u8; MK_LEN])
    requires
        v@.len() == MK_LEN,
    ensures
        a@ == v@,
{
    let mut a = [0u8; MK_LEN];
    for i in 0..MK_LEN
        invariant
            v@.len() == MK_LEN,
            a@.len() == MK_LEN,
            forall|j: int| 0 <= j < i ==> a@[j] == v@[j],
    {
        a[i] = v[i];
    }
    assert(a@ =~= v@);
    a
}

fn salt_array(v: &Vec<u8>) -> (a: [u8; SALT_LEN])
    requires
        v@.len() == SALT_LEN,
    ensures
        a@ == v@,
{
    let mut a = [0u8; SALT_LEN];
    for i in 0..SALT_LEN
        invariant
            v@.len() == SALT_LEN,
            a@.len() == SALT_LEN,
            forall|j: int| 0 <= j < i ==> a@[j] == v@[j],
    {
        a[i] = v[i];
    }
    assert(a@ =~= v@);
    a
}

fn message(text: &str) -> (s: String)
    ensures
        s@ == text@,
{
    String::from_str(text)
}

/// Reads and decodes the 16-byte salt of a key entry.
fn read_salt(entry: &Json, what: &str) -> (res: Result<[u8; SALT_LEN], String>)
    ensures
        match res {
            Ok(salt) => salt_of(*entry) == Some(salt@),
            Err(_) => salt_of(*entry) is None,
        },
{
    let salt_text = match entry.get("salt") {
        Some(v) => v.as_str(),
        None => None,
    };
    let salt_text = match salt_text {
        Some(t) => t,
        None => {
            let mut msg = message("missing ");
            msg.append(what);
            msg.append(" salt");
            return Err(msg);
        },
    };
    let salt = match decode_base64(salt_text) {
        Ok(s) => s,
        Err(error) => {
            let mut msg = message("invalid ");
            msg.append(what);
            msg.append(" salt: ");
            msg.append(error.as_str());
            return Err(msg);
        },
    };
    if salt.len() != SALT_LEN {
        let mut msg = message("invalid ");
        msg.append(what);
        msg.append(" salt length");
        return Err(msg);
    }
    Ok(salt_array(&salt))
}

/// Reads one Argon2id cost as a `u64`.
fn read_cost(params: &Json, key: &str) -> (res: Result<u64, String>)
    ensures
        match res {
            Ok(v) => u64_field(*params, key@) == Some(v),
            Err(_) => u64_field(*params, key@) is None,
        },
{
    let found = match params.get(key) {
        Some(v) => v.as_u64(),
        None => None,
    };
    match found {
        Some(v) => Ok(v),
        None => {
            let mut msg = message("missing ");
            msg.append(key);
            Err(msg)
        },
    }
}

/// Unwraps the master key from a password entry.
fn unlock_password_entry(entry: &Json, password: &str) -> (res: Result<[u8; MK_LEN], String>)
    ensures
        match res {
            Ok(mk) => entry_key(*entry, password@, UnlockPath::Password) == Some(mk@),
            Err(_) => entry_key(*entry, password@, UnlockPath::Password) is None,
        },
{
    let salt = match read_salt(entry, "password") {
        Ok(s) => s,
        Err(e) => return Err(e),
    };
    let params = match entry.get("kdfParams") {
        Some(p) => p,
        None => return Err(message("missing password KDF params")),
    };
    let memory_kib = match read_cost(params, "memoryKib") {
        Ok(v) => v,
        Err(e) => return Err(e),
    };
    let iterations = match read_cost(params, "iterations") {
        Ok(v) => v,
        Err(e) => return Err(e),
    };
    let parallelism = match read_cost(params, "parallelism") {
        Ok(v) => v,
        Err(e) => return Err(e),
    };
    let argon2_params = Argon2Params {
        memory_kib: #[verifier::truncate] (memory_kib as u32),
        iterations: #[verifier::truncate] (iterations as u32),
        parallelism: #[verifier::truncate] (parallelism as u32),
    };
    if argon2_params.parallelism > 0x1FFF_FFFF {
        return Err(message("invalid Argon2 parameters: too many threads"));
    }
    let kek = match derive_kek_from_password(password, &salt, &argon2_params) {
        Ok(k) => k,
        Err(e) => return Err(e),
    };
    let wrapped = match entry.get("wrappedKey") {
        Some(w) => w,
        None => return Err(message("missing password wrappedKey")),
    };
    open_wrapped_key(wrapped, &kek, "password-wrapped key")
}

/// Unwraps the master key from a recovery entry with a typed recovery code.
fn unlock_recovery_entry(entry: &Json, code: &str) -> (res: Result<[u8; MK_LEN], String>)
    ensures
        match res {
            Ok(mk) => entry_key(*entry, code@, UnlockPath::Recovery) == Some(mk@),
            Err(_) => entry_key(*entry, code@, UnlockPath::Recovery) is None,
        },
{
    let salt = match read_salt(entry, "recovery") {
        Ok(s) => s,
        Err(e) => return Err(e),
    };
    let recovery_bytes = match parse_recovery_code(code) {
        Ok(b) => b,
        Err(_) => return Err(message("invalid recovery code")),
    };
    let kek = derive_kek_from_recovery(&recovery_bytes, &salt);
    let wrapped = match entry.get("wrappedKey") {
        Some(w) => w,
        None => return Err(message("missing recovery wrappedKey")),
    };
    open_wrapped_key(wrapped, &kek, "recovery-wrapped key")
}

fn unlock_with(path: &str, manifest: &Json, secret: &str, which: UnlockPath) -> (res: Result<[u8; MK_LEN], String>)
    ensures
        key_result_is(res, unlock_spec(path@, *manifest, secret@, which)),
{
    let encryption = match manifest.get("encryption") {
        Some(v) => v.as_str(),
        None => None,
    };
    let is_v1 = match encryption {
        Some(e) => str_eq(e, "v1"),
        None => false,
    };
    if !is_v1 {
        let mut msg = String::from_str(path);
        msg.append(" is not an encrypted vault");
        return Err(msg);
    }
    let keys = match manifest.get("keys") {
        Some(k) => k,
        None => return Err(message("vault manifest is missing its keys section")),
    };
    let result = match which {
        UnlockPath::Password => match keys.get("password") {
            Some(entry) => unlock_password_entry(entry, secret),
            None => Err(message("vault manifest is missing the password key entry")),
        },
        UnlockPath::Recovery => match keys.get("recovery") {
            Some(entry) => unlock_recovery_entry(entry, secret),
            None => Err(message("vault manifest is missing the recovery key entry")),
        },
    };
    match result {
        Ok(mk) => Ok(mk),
        Err(_) => Err(message("incorrect password or recovery code")),
    }
}

/// Unlocks an encrypted vault with the master password, returning the
/// decrypted master key. `path` is the vault directory and `manifest` its
/// parsed `inkstone.json`.
pub fn unlock_with_password(path: &str, manifest: &Json, password: &str) -> (res: Result<[u8; MK_LEN], String>)
    ensures
        key_result_is(res, unlock_spec(path@, *manifest, password@, UnlockPath::Password)),
{
    unlock_with(path, manifest, password, UnlockPath::Password)
}

/// Unlocks an encrypted vault with its one-time recovery code.
pub fn unlock_with_recovery_code(path: &str, manifest: &Json, recovery_code: &str) -> (res: Result<[u8; MK_LEN], String>)
    ensures
        key_result_is(res, unlock_spec(path@, *manifest, recovery_code@, UnlockPath::Recovery)),
{
    unlock_with(path, manifest, recovery_code, UnlockPath::Recovery)
}


// ---------------------------------------------------------------------------
// Wrapping the master key for a new vault or a new password.
// ---------------------------------------------------------------------------

/// A `{nonce, ciphertext}` object holding exactly these bytes in Base64,
/// and nothing else.
pub open spec fn envelope_stored(w: Json, nonce: Seq<u8>, ciphertext: Seq<u8>) -> bool {
    &&& w is Object
    &&& member_count(w) == 2
    &&& str_field(w, "nonce"@) == Some(base64_standard(nonce))
    &&& str_field(w, "ciphertext"@) == Some(base64_standard(ciphertext))
    &&& forall|k: Seq<char>| k != "nonce"@ && k != "ciphertext"@ ==> #[trigger] json_get(w, k) is None
}

/// All a new password entry holds: the Argon2id costs `params`, the salt in
/// Base64, and `mk` sealed with `nonce` under the key Argon2id derives from
/// `password` and the salt. The password itself is not among its members.
pub open spec fn password_entry_holds(entry: Json, password: Seq<char>, mk: Seq<u8>, params: Argon2Params, salt: Seq<u8>, nonce: Seq<u8>) -> bool {
    &&& entry is Object
    &&& member_count(entry) == 4
    &&& salt.len() == SALT_LEN
    &&& nonce.len() == NONCE_LEN
    &&& str_field(entry, "kdf"@) == Some("argon2id"@)
    &&& json_get(entry, "kdfParams"@) matches Some(costs) && {
        &&& costs is Object
        &&& member_count(costs) == 3
        &&& u64_field(costs, "memoryKib"@) == Some(params.memory_kib as u64)
        &&& u64_field(costs, "iterations"@) == Some(params.iterations as u64)
        &&& u64_field(costs, "parallelism"@) == Some(params.parallelism as u64)
        &&& forall|k: Seq<char>| k != "memoryKib"@ && k != "iterations"@ && k != "parallelism"@
            ==> #[trigger] json_get(costs, k) is None
    }
    &&& str_field(entry, "salt"@) == Some(base64_standard(salt))
    &&& json_get(entry, "wrappedKey"@) matches Some(w) && envelope_stored(
        w,
        nonce,
        xchacha20poly1305_seal(
            argon2id_v13(encode_utf8(password), salt, params.memory_kib, params.iterations, params.parallelism),
            nonce,
            mk,
        ),
    )
    &&& forall|k: Seq<char>| k != "kdf"@ && k != "kdfParams"@ && k != "salt"@ && k != "wrappedKey"@
        ==> #[trigger] json_get(entry, k) is None
}

/// All a new recovery entry holds: the salt in Base64, and `mk` sealed with
/// `nonce` under the key HKDF derives from the recovery bytes `rb` and the
/// salt. Neither the code nor its bytes are among its members.
pub open spec fn recovery_entry_holds(entry: Json, rb: Seq<u8>, mk: Seq<u8>, salt: Seq<u8>, nonce: Seq<u8>) -> bool {
    &&& entry is Object
    &&& member_count(entry) == 3
    &&& salt.len() == SALT_LEN
    &&& nonce.len() == NONCE_LEN
    &&& str_field(entry, "kdf"@) == Some("hkdf-sha256"@)
    &&& str_field(entry, "salt"@) == Some(base64_standard(salt))
    &&& json_get(entry, "wrappedKey"@) matches Some(w) && envelope_stored(
        w,
        nonce,
        xchacha20poly1305_seal(hkdf_sha256(rb, salt, recovery_kek_info()), nonce, mk),
    )
    &&& forall|k: Seq<char>| k != "kdf"@ && k != "salt"@ && k != "wrappedKey"@ ==> #[trigger] json_get(entry, k) is None
}

/// All an encrypted manifest holds: its format version, id, creation time,
/// "v1", and a keys section with its own format version and the two
/// entries, each wrapping `mk` (see `password_entry_holds` and
/// `recovery_entry_holds`). No other member is anywhere in it.
pub open spec fn encrypted_manifest_holds(m: Json, vault_id: Seq<char>, created_at: Seq<char>, password: Seq<char>, rb: Seq<u8>, mk: Seq<u8>) -> bool {
    &&& m is Object
    &&& member_count(m) == 5
    &&& u64_field(m, "formatVersion"@) == Some(VAULT_FORMAT_VERSION)
    &&& str_field(m, "vaultId"@) == Some(vault_id)
    &&& str_field(m, "createdAt"@) == Some(created_at)
    &&& str_field(m, "encryption"@) == Some("v1"@)
    &&& forall|k: Seq<char>|
        k != "formatVersion"@ && k != "vaultId"@ && k != "createdAt"@ && k != "encryption"@ && k != "keys"@
            ==> #[trigger] json_get(m, k) is None
    &&& json_get(m, "keys"@) matches Some(keys) && {
        &&& keys is Object
        &&& member_count(keys) == 3
        &&& u64_field(keys, "formatVersion"@) == Some(KEYS_FORMAT_VERSION)
        &&& forall|k: Seq<char>| k != "formatVersion"@ && k != "password"@ && k != "recovery"@
            ==> #[trigger] json_get(keys, k) is None
        &&& json_get(keys, "password"@) matches Some(pe) && exists|salt: Seq<u8>, nonce: Seq<u8>|
            #[trigger] password_entry_holds(pe, password, mk, default_argon2_params(), salt, nonce)
        &&& json_get(keys, "recovery"@) matches Some(re) && exists|salt: Seq<u8>, nonce: Seq<u8>|
            #[trigger] recovery_entry_holds(re, rb, mk, salt, nonce)
    }
}

/// A password entry as this version writes it: Argon2id with the costs
/// `params` and a 16-byte salt.
pub open spec fn password_entry_shape(entry: Json, params: Argon2Params) -> bool {
    &&& entry is Object
    &&& str_field(entry, "kdf"@) == Some("argon2id"@)
    &&& entry_params(entry) == Some((params.memory_kib, params.iterations, params.parallelism))
    &&& salt_of(entry) is Some
}

/// How setting a password with the costs `params` fails, if it does: costs
/// Argon2 refuses, or a password of 2^32 bytes or more.
pub open spec fn password_setting_error(params: Argon2Params, password: &str, e: Seq<char>) -> bool {
    if !argon2_params_valid(params.memory_kib, params.iterations, params.parallelism) {
        has_prefix(e, "invalid Argon2 parameters: "@)
    } else {
        password.spec_bytes().len() > 0xFFFF_FFFF && has_prefix(e, "key derivation failed: "@)
    }
}

pub open spec fn password_settable(params: Argon2Params, password: &str) -> bool {
    argon2_params_valid(params.memory_kib, params.iterations, params.parallelism)
        && password.spec_bytes().len() <= 0xFFFF_FFFF
}

/// A new password entry wrapping `mk` under `password`, with a fresh salt
/// and the Argon2id costs `params`.
fn new_password_entry(password: &str, mk: &[u8; MK_LEN], params: &Argon2Params) -> (res: Result<Json, String>)
    requires
        params.parallelism <= 0x1FFF_FFFF,
    ensures
        match res {
            Ok(entry) => password_entry_shape(entry, *params) && entry_key(entry, password@, UnlockPath::Password)
                == Some(mk@) && exists|salt: Seq<u8>, nonce: Seq<u8>|
                #[trigger] password_entry_holds(entry, password@, mk@, *params, salt, nonce),
            Err(e) => password_setting_error(*params, password, e@),
        },
        res is Ok <==> password_settable(*params, password),
{
    proof { reveal_key_names(); }
    let salt = random_bytes::<SALT_LEN>();
    let kek = match derive_kek_from_password(password, &salt, params) {
        Ok(k) => k,
        Err(e) => return Err(e),
    };
    let envelope = seal(&kek, mk);
    let mut kdf_params = Json::object();
    kdf_params.set("memoryKib", Json::uint(params.memory_kib as u64));
    kdf_params.set("iterations", Json::uint(params.iterations as u64));
    kdf_params.set("parallelism", Json::uint(params.parallelism as u64));
    let mut entry = Json::object();
    entry.set("kdf", Json::string("argon2id"));
    entry.set("kdfParams", kdf_params);
    entry.set("salt", Json::Str(encode_base64(&salt)));
    entry.set("wrappedKey", envelope_to_json(&envelope));
    assert(password_entry_holds(entry, password@, mk@, *params, salt@, envelope.nonce@));
    Ok(entry)
}

/// A new recovery entry wrapping `mk` under the key of the recovery bytes
/// `rb`, with a fresh salt.
fn new_recovery_entry(rb: &[u8; RECOVERY_CODE_LEN], mk: &[u8; MK_LEN]) -> (entry: Json)
    ensures
        entry is Object,
        str_field(entry, "kdf"@) == Some("hkdf-sha256"@),
        salt_of(entry) is Some,
        exists|salt: Seq<u8>, nonce: Seq<u8>| #[trigger] recovery_entry_holds(entry, rb@, mk@, salt, nonce),
        forall|code: Seq<char>| parse_recovery_spec(code) == Ok::<Seq<u8>, Seq<char>>(rb@)
            ==> #[trigger] entry_key(entry, code, UnlockPath::Recovery) == Some(mk@),
{
    proof { reveal_key_names(); }
    let salt = random_bytes::<SALT_LEN>();
    let kek = derive_kek_from_recovery(rb, &salt);
    let envelope = seal(&kek, mk);
    let mut entry = Json::object();
    entry.set("kdf", Json::string("hkdf-sha256"));
    entry.set("salt", Json::Str(encode_base64(&salt)));
    entry.set("wrappedKey", envelope_to_json(&envelope));
    assert(recovery_entry_holds(entry, rb@, mk@, salt@, envelope.nonce@));
    entry
}

/// The manifest of a new encrypted vault, and its one-time recovery code.
/// A fresh random master key is wrapped twice: under the Argon2id key of
/// `password` and under the key of the recovery code. Both unlock paths of
/// the manifest give back that same key. It fails only for a password of
/// 2^32 bytes or more.
pub fn encrypted_manifest(vault_id: &str, created_at: &str, password: &str) -> (res: Result<(Json, String), String>)
    ensures
        res is Ok <==> password.spec_bytes().len() <= 0xFFFF_FFFF,
        match res {
            Ok((m, code)) => {
                &&& m is Object
                &&& u64_field(m, "formatVersion"@) == Some(VAULT_FORMAT_VERSION)
                &&& str_field(m, "vaultId"@) == Some(vault_id@)
                &&& str_field(m, "createdAt"@) == Some(created_at@)
                &&& str_field(m, "encryption"@) == Some("v1"@)
                &&& code@ == recovery_code_text(parse_recovery_spec(code@)->Ok_0)
                &&& json_get(m, "keys"@) matches Some(keys) && u64_field(keys, "formatVersion"@) == Some(KEYS_FORMAT_VERSION)
                &&& key_entry(m, "password"@) matches Some(e) && password_entry_shape(e, default_argon2_params())
                &&& key_entry(m, "recovery"@) matches Some(r) && str_field(r, "kdf"@) == Some("hkdf-sha256"@)
                    && salt_of(r) is Some
                &&& exists|mk: Seq<u8>| mk.len() == MK_LEN
                    && #[trigger] encrypted_manifest_holds(m, vault_id@, created_at@, password@, parse_recovery_spec(code@)->Ok_0, mk)
                    && forall|path: Seq<char>|
                    #[trigger] unlock_spec(path, m, password@, UnlockPath::Password) == Ok::<Seq<u8>, Seq<char>>(mk)
                        && unlock_spec(path, m, code@, UnlockPath::Recovery) == Ok::<Seq<u8>, Seq<char>>(mk)
            },
            Err(e) => has_prefix(e@, "key derivation failed: "@),
        },
{
    proof { reveal_key_names(); }
    let mk = random_bytes::<MK_LEN>();
    let params = Argon2Params::default();
    let password_entry = match new_password_entry(password, &mk, &params) {
        Ok(e) => e,
        Err(e) => return Err(e),
    };
    let (code, rb) = generate_recovery_code();
    let recovery_entry = new_recovery_entry(&rb, &mk);
    let mut keys = Json::object();
    keys.set("formatVersion", Json::uint(KEYS_FORMAT_VERSION));
    keys.set("password", password_entry);
    keys.set("recovery", recovery_entry);
    let mut m = Json::object();
    m.set("formatVersion", Json::uint(VAULT_FORMAT_VERSION));
    m.set("vaultId", Json::string(vault_id));
    m.set("createdAt", Json::string(created_at));
    m.set("encryption", Json::string("v1"));
    m.set("keys", keys);
    proof {
        assert(entry_key(recovery_entry, code@, UnlockPath::Recovery) == Some(mk@));
        assert forall|path: Seq<char>|
            #[trigger] unlock_spec(path, m, password@, UnlockPath::Password) == Ok::<Seq<u8>, Seq<char>>(mk@)
                && unlock_spec(path, m, code@, UnlockPath::Recovery) == Ok::<Seq<u8>, Seq<char>>(mk@) by {}
        assert(encrypted_manifest_holds(m, vault_id@, created_at@, password@, rb@, mk@));
    }
    Ok((m, code))
}

/// Re-wraps the master key `mk` under `new_password` with the Argon2id
/// costs `params`: `manifest["keys"]["password"]` is replaced by a new entry
/// with a fresh salt. Nothing else changes: the recovery entry still unlocks
/// as before. On failure the manifest is untouched.
pub fn change_password_with_params(manifest: &mut Json, mk: &[u8; MK_LEN], new_password: &str, params: &Argon2Params) -> (res: Result<(), String>)
    requires
        *old(manifest) is Object || *old(manifest) is Null,
        match json_get(*old(manifest), "keys"@) {
            Some(keys) => keys is Object || keys is Null,
            None => true,
        },
        params.parallelism <= 0x1FFF_FFFF,
    ensures
        res is Ok <==> password_settable(*params, new_password),
        res matches Err(e) ==> *final(manifest) == *old(manifest) && password_setting_error(*params, new_password, e@),
        res is Ok ==> {
            &&& forall|k: Seq<char>| k != "keys"@ ==> #[trigger] json_get(*final(manifest), k) == json_get(*old(manifest), k)
            &&& forall|k: Seq<char>| k != "password"@ ==> #[trigger] key_entry(*final(manifest), k) == key_entry(*old(manifest), k)
            &&& key_entry(*final(manifest), "password"@) matches Some(entry) && password_entry_shape(entry, *params)
                && entry_key(entry, new_password@, UnlockPath::Password) == Some(mk@)
            &&& forall|path: Seq<char>| str_field(*old(manifest), "encryption"@) == Some("v1"@) ==>
                #[trigger] unlock_spec(path, *final(manifest), new_password@, UnlockPath::Password)
                    == Ok::<Seq<u8>, Seq<char>>(mk@)
            &&& forall|path: Seq<char>, code: Seq<char>| json_get(*old(manifest), "keys"@) is Some ==>
                #[trigger] unlock_spec(path, *final(manifest), code, UnlockPath::Recovery)
                    == unlock_spec(path, *old(manifest), code, UnlockPath::Recovery)
        },
{
    proof { reveal_key_names(); }
    let entry = match new_password_entry(new_password, mk, params) {
        Ok(e) => e,
        Err(e) => return Err(e),
    };
    manifest.set_nested("keys", "password", entry);
    Ok(())
}

/// Re-wraps the master key under a new password with the default costs
/// (see `change_password_with_params`); it fails only for a password of
/// 2^32 bytes or more.
pub fn change_password(manifest: &mut Json, mk: &[u8; MK_LEN], new_password: &str) -> (res: Result<(), String>)
    requires
        *old(manifest) is Object || *old(manifest) is Null,
        match json_get(*old(manifest), "keys"@) {
            Some(keys) => keys is Object || keys is Null,
            None => true,
        },
    ensures
        res is Ok <==> new_password.spec_bytes().len() <= 0xFFFF_FFFF,
        res matches Err(e) ==> *final(manifest) == *old(manifest) && has_prefix(e@, "key derivation failed: "@),
        res is Ok ==> {
            &&& forall|k: Seq<char>| k != "keys"@ ==> #[trigger] json_get(*final(manifest), k) == json_get(*old(manifest), k)
            &&& forall|k: Seq<char>| k != "password"@ ==> #[trigger] key_entry(*final(manifest), k) == key_entry(*old(manifest), k)
            &&& key_entry(*final(manifest), "password"@) matches Some(entry)
                && password_entry_shape(entry, default_argon2_params())
                && entry_key(entry, new_password@, UnlockPath::Password) == Some(mk@)
            &&& forall|path: Seq<char>| str_field(*old(manifest), "encryption"@) == Some("v1"@) ==>
                #[trigger] unlock_spec(path, *final(manifest), new_password@, UnlockPath::Password)
                    == Ok::<Seq<u8>, Seq<char>>(mk@)
            &&& forall|path: Seq<char>, code: Seq<char>| json_get(*old(manifest), "keys"@) is Some ==>
                #[trigger] unlock_spec(path, *final(manifest), code, UnlockPath::Recovery)
                    == unlock_spec(path, *old(manifest), code, UnlockPath::Recovery)
        },
{
    let params = Argon2Params::default();
    change_password_with_params(manifest, mk, new_password, &params)
}

/// The key entry `which` ("password" or "recovery") of an encrypted manifest.
pub open spec fn key_entry(m: Json, which: Seq<char>) -> Option<Json> {
    match json_get(m, "keys"@) {
        Some(keys) => json_get(keys, which),
        None => None,
    }
}

} // verus!
