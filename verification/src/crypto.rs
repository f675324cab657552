//! Key derivation, authenticated encryption and the encrypted file format.
//!
//! The primitives themselves (Argon2id, HKDF-SHA256, XChaCha20-Poly1305, the
//! OS random source) are called through the small trusted wrappers below;
//! everything built on top of them is verified against their contracts.
use chacha20poly1305::aead::Aead;
use chacha20poly1305::KeyInit;
use vstd::prelude::*;
use vstd::string::StringSliceAdditionalSpecFns;
use vstd::utf8::encode_utf8;
use vstd::slice::slice_subrange;
pub use crate::recovery::{format_recovery_code, generate_recovery_code, parse_recovery_code};
use crate::text::{decimal, hex_lower, is_hex_lower_char, lemma_hex_lower_shape, push_decimal, to_hex_lower};

verus! {

pub const MK_LEN: usize = 32;
pub const DEK_LEN: usize = 32;
pub const SALT_LEN: usize = 16;
pub const NONCE_LEN: usize = 24;
pub const RECOVERY_CODE_LEN: usize = 20;
pub const FILE_TOKEN_LEN: usize = 16;

/// Argon2id cost parameters, as stored in a vault manifest.
#[derive(Clone, Copy, Debug, PartialEq, Eq)]
pub struct Argon2Params {
    pub memory_kib: u32,
    pub iterations: u32,
    pub parallelism: u32,
}

/// The parameters new vaults are created with: 64 MiB, 3 passes, 4 lanes.
pub open spec fn default_argon2_params() -> Argon2Params {
    Argon2Params { memory_kib: 65536, iterations: 3, parallelism: 4 }
}

impl Default for Argon2Params {
    fn default() -> (params: Argon2Params)
        ensures
            params == default_argon2_params(),
    {
        Argon2Params { memory_kib: 65536, iterations: 3, parallelism: 4 }
    }
}

/// A nonce and the ciphertext sealed under it.
pub struct Envelope {
    pub nonce: [u8; NONCE_LEN],
    pub ciphertext: Vec<u8>,
}

// ---------------------------------------------------------------------------
// Names for what the primitives compute, and the trusted wrappers.
// ---------------------------------------------------------------------------

/// The 32-byte Argon2id (version 0x13) output for these inputs.
pub uninterp spec fn argon2id_v13(password: Seq<u8>, salt: Seq<u8>, memory_kib: u32, iterations: u32, parallelism: u32) -> Seq<u8>;

/// The 32 bytes HKDF-SHA256 expands from `ikm`, `salt` and `info`.
pub uninterp spec fn hkdf_sha256(ikm: Seq<u8>, salt: Seq<u8>, info: Seq<u8>) -> Seq<u8>;

/// XChaCha20-Poly1305 ciphertext (with its 16-byte tag appended) of
/// `plaintext` under `key` and `nonce`, with no associated data.
pub uninterp spec fn xchacha20poly1305_seal(key: Seq<u8>, nonce: Seq<u8>, plaintext: Seq<u8>) -> Seq<u8>;

/// Lengths the cipher accepts: fewer than `u32::MAX` 64-byte blocks.
pub open spec fn aead_len_ok(len: int) -> bool {
    len / 64 < 0xFFFF_FFFF
}

/// When `argon2::Params::new` accepts the costs.
pub open spec fn argon2_params_valid(memory_kib: u32, iterations: u32, parallelism: u32) -> bool {
    &&& memory_kib >= 8
    &&& memory_kib >= 8 * parallelism
    &&& iterations >= 1
    &&& 1 <= parallelism <= 0xFF_FFFF
}

/// How an Argon2id derivation failed, with the crate's own message.
pub enum Argon2Failure {
    InvalidParams(String),
    HashFailed(String),
}

/// `getrandom::fill` on a fresh `N`-byte array: bytes from the OS random
/// source. Nothing is promised of their value; it does not return if the OS
/// source is unavailable.
#[verifier::external_body]
pub fn random_bytes<const N: usize>() -> (res: [u8; N]) {
    let mut buf = [0u8; N];
    getrandom::fill(&mut buf).expect("OS RNG must be available");
    buf
}

/// `argon2::Params::new(m, t, p, Some(32))` followed by
/// `Argon2::new(Argon2id, V0x13, params).hash_password_into`. Claims: the
/// output is the named Argon2id value; the parameters are refused exactly
/// when `argon2_params_valid` fails; with valid parameters the hash succeeds
/// exactly for salts of 8 to 2^32-1 bytes and passwords of at most 2^32-1
/// bytes.
/// `Params::new` multiplies `p` by 8 without a check, hence the bound on `p`.
/// It allocates `m` KiB and does not return if that allocation fails.
#[verifier::external_body]
fn argon2id_derive(password: &[u8], salt: &[u8], m: u32, t: u32, p: u32) -> (res: Result<[u8; 32], Argon2Failure>)
    requires
        p <= 0x1FFF_FFFF,
    ensures
        res matches Ok(k) ==> k@ == argon2id_v13(password@, salt@, m, t, p),
        (res matches Err(Argon2Failure::InvalidParams(_))) <==> !argon2_params_valid(m, t, p),
        res is Ok <==> (argon2_params_valid(m, t, p) && 8 <= salt@.len() <= 0xFFFF_FFFF && password@.len() <= 0xFFFF_FFFF),
{
    let params = match argon2::Params::new(m, t, p, Some(32)) {
        Ok(params) => params,
        Err(error) => return Err(Argon2Failure::InvalidParams(error.to_string())),
    };
    let mut out = [0u8; 32];
    let argon2 = argon2::Argon2::new(argon2::Algorithm::Argon2id, argon2::Version::V0x13, params);
    match argon2.hash_password_into(password, salt, &mut out) {
        Ok(()) => Ok(out),
        Err(error) => Err(Argon2Failure::HashFailed(error.to_string())),
    }
}

/// `Hkdf::<Sha256>::new(Some(salt), ikm)` then `expand(info, 32 bytes)`,
/// which cannot fail for a 32-byte output. Claims: the named HKDF value.
#[verifier::external_body]
fn hkdf_sha256_32(ikm: &[u8], salt: &[u8], info: &[u8]) -> (okm: [u8; 32])
    ensures
        okm@ == hkdf_sha256(ikm@, salt@, info@),
{
    let hk = hkdf::Hkdf::<sha2::Sha256>::new(Some(salt), ikm);
    let mut out = [0u8; 32];
    hk.expand(info, &mut out).expect("32 bytes is a valid HKDF-SHA256 output length");
    out
}

/// `XChaCha20Poly1305::encrypt` with no associated data. Claims: the
/// ciphertext is the named seal value and is 16 bytes (the tag) longer than
/// the plaintext. The crate refuses, and this would panic on, plaintexts of
/// `u32::MAX` 64-byte blocks or more, hence the bound.
#[verifier::external_body]
fn aead_encrypt(key: &[u8; 32], nonce: &[u8; 24], plaintext: &[u8]) -> (ct: Vec<u8>)
    requires
        aead_len_ok(plaintext@.len() as int),
    ensures
        ct@ == xchacha20poly1305_seal(key@, nonce@, plaintext@),
        ct@.len() == plaintext@.len() + 16,
        forall|p: Seq<u8>| #[trigger] xchacha20poly1305_seal(key@, nonce@, p) == ct@ ==> p == plaintext@,
{
    let cipher = chacha20poly1305::XChaCha20Poly1305::new(key.into());
    cipher.encrypt(nonce.into(), plaintext).expect("encryption with a valid key and nonce cannot fail")
}

/// `XChaCha20Poly1305::decrypt` with no associated data. Claims what the
/// crate's code shows: it succeeds with `p` exactly when sealing `p` under
/// the same key and nonce gives `ciphertext` (tag check, then keystream).
/// That a wrong key is refused is not claimed: it holds only with
/// overwhelming probability.
#[verifier::external_body]
fn aead_decrypt(key: &[u8; 32], nonce: &[u8; 24], ciphertext: &[u8]) -> (res: Option<Vec<u8>>)
    ensures
        res matches Some(p) ==> aead_len_ok(p@.len() as int) && xchacha20poly1305_seal(key@, nonce@, p@) == ciphertext@,
        res matches Some(p) ==> p@.len() + 16 == ciphertext@.len(),
        res matches Some(p) ==> forall|q: Seq<u8>| #[trigger] xchacha20poly1305_seal(key@, nonce@, q) == ciphertext@ ==> q == p@,
        res is None ==> forall|p: Seq<u8>|
            aead_len_ok(p.len() as int) ==> #[trigger] xchacha20poly1305_seal(key@, nonce@, p) != ciphertext@,
{
    let cipher = chacha20poly1305::XChaCha20Poly1305::new(key.into());
    cipher.decrypt(nonce.into(), ciphertext).ok()
}


// ---------------------------------------------------------------------------
// Key derivation.
// ---------------------------------------------------------------------------

pub open spec fn has_prefix(s: Seq<char>, prefix: Seq<char>) -> bool {
    prefix.len() <= s.len() && s.subrange(0, prefix.len() as int) == prefix
}

/// Derives the password key-encryption key with Argon2id.
pub fn derive_kek_from_password(password: &str, salt: &[u8; SALT_LEN], params: &Argon2Params) -> (res: Result<[u8; 32], String>)
    requires
        params.parallelism <= 0x1FFF_FFFF,
    ensures
        res matches Ok(k) ==> k@ == argon2id_v13(password.spec_bytes(), salt@, params.memory_kib, params.iterations, params.parallelism),
        !argon2_params_valid(params.memory_kib, params.iterations, params.parallelism) <==>
            (res matches Err(e) && has_prefix(e@, "invalid Argon2 parameters: "@)),
        argon2_params_valid(params.memory_kib, params.iterations, params.parallelism) ==>
            (res is Ok <==> password.spec_bytes().len() <= 0xFFFF_FFFF),
        argon2_params_valid(params.memory_kib, params.iterations, params.parallelism) ==>
            (res matches Err(e) ==> has_prefix(e@, "key derivation failed: "@)),
{
    let pw = password.as_bytes();
    match argon2id_derive(pw, salt, params.memory_kib, params.iterations, params.parallelism) {
        Ok(out) => Ok(out),
        Err(Argon2Failure::InvalidParams(detail)) => {
            let mut msg = String::from_str("invalid Argon2 parameters: ");
            msg.append(detail.as_str());
            assert(msg@.subrange(0, "invalid Argon2 parameters: "@.len() as int) =~= "invalid Argon2 parameters: "@);
            Err(msg)
        }
        Err(Argon2Failure::HashFailed(detail)) => {
            let mut msg = String::from_str("key derivation failed: ");
            msg.append(detail.as_str());
            proof {
                reveal_strlit("key derivation failed: ");
                reveal_strlit("invalid Argon2 parameters: ");
                assert(msg@.subrange(0, "key derivation failed: "@.len() as int) =~= "key derivation failed: "@);
                assert(msg@[0] != "invalid Argon2 parameters: "@[0]);
            }
            Err(msg)
        }
    }
}


/// HKDF `info` label of the recovery-code key path.
pub open spec fn recovery_kek_info() -> Seq<u8> {
    encode_utf8("inkstone-recovery-kek-v1"@)
}

/// HKDF `info` label of the search-index key.
pub open spec fn index_key_info() -> Seq<u8> {
    encode_utf8("inkstone-index-key-v1"@)
}

fn hkdf_expand(ikm: &[u8], salt: &[u8], info: &[u8]) -> (okm: [u8; 32])
    ensures
        okm@ == hkdf_sha256(ikm@, salt@, info@),
{
    hkdf_sha256_32(ikm, salt, info)
}

/// Maps the raw recovery-code bytes to their key-encryption key.
pub fn derive_kek_from_recovery(recovery_bytes: &[u8], salt: &[u8; SALT_LEN]) -> (kek: [u8; 32])
    ensures
        kek@ == hkdf_sha256(recovery_bytes@, salt@, recovery_kek_info()),
{
    hkdf_expand(recovery_bytes, salt, "inkstone-recovery-kek-v1".as_bytes())
}

/// Derives the search-index key of a vault from its master key and id.
pub fn derive_index_key(mk: &[u8; MK_LEN], vault_id: &str) -> (key: [u8; 32])
    ensures
        key@ == hkdf_sha256(mk@, vault_id.spec_bytes(), index_key_info()),
{
    hkdf_expand(mk, vault_id.as_bytes(), "inkstone-index-key-v1".as_bytes())
}

// ---------------------------------------------------------------------------
// Sealing and opening.
// ---------------------------------------------------------------------------

/// What opening `ciphertext` yields: the plaintext that seals to it, if any.
pub open spec fn aead_open(key: Seq<u8>, nonce: Seq<u8>, ciphertext: Seq<u8>) -> Option<Seq<u8>> {
    if exists|p: Seq<u8>| aead_len_ok(p.len() as int) && xchacha20poly1305_seal(key, nonce, p) == ciphertext {
        Some(choose|p: Seq<u8>| aead_len_ok(p.len() as int) && xchacha20poly1305_seal(key, nonce, p) == ciphertext)
    } else {
        None
    }
}

pub open spec fn decryption_failed_msg() -> Seq<char> {
    "decryption failed: wrong key or corrupted data"@
}

/// Seals `plaintext` under `key` with the given nonce.
pub fn seal_with_nonce(key: &[u8; 32], nonce: [u8; NONCE_LEN], plaintext: &[u8]) -> (env: Envelope)
    requires
        aead_len_ok(plaintext@.len() as int),
    ensures
        env.nonce == nonce,
        env.ciphertext@ == xchacha20poly1305_seal(key@, nonce@, plaintext@),
        env.ciphertext@.len() == plaintext@.len() + 16,
        aead_open(key@, nonce@, env.ciphertext@) == Some(plaintext@),
{
    let ciphertext = aead_encrypt(key, &nonce, plaintext);
    proof {
        let p = choose|p: Seq<u8>| aead_len_ok(p.len() as int) && xchacha20poly1305_seal(key@, nonce@, p) == ciphertext@;
        assert(aead_len_ok(plaintext@.len() as int) && xchacha20poly1305_seal(key@, nonce@, plaintext@) == ciphertext@);
        assert(p == plaintext@);
    }
    Envelope { nonce, ciphertext }
}

/// Encrypts `plaintext` under `key` with a freshly generated random nonce.
pub fn seal(key: &[u8; 32], plaintext: &[u8]) -> (env: Envelope)
    requires
        aead_len_ok(plaintext@.len() as int),
    ensures
        env.ciphertext@ == xchacha20poly1305_seal(key@, env.nonce@, plaintext@),
        env.ciphertext@.len() == plaintext@.len() + 16,
        aead_open(key@, env.nonce@, env.ciphertext@) == Some(plaintext@),
{
    let nonce = random_bytes::<NONCE_LEN>();
    seal_with_nonce(key, nonce, plaintext)
}

/// Decrypts a ciphertext produced by [`seal`]. Fails if `key` is wrong or
/// `ciphertext` was tampered with (AEAD tag mismatch).
pub fn open(key: &[u8; 32], nonce: &[u8; NONCE_LEN], ciphertext: &[u8]) -> (res: Result<Vec<u8>, String>)
    ensures
        match res {
            Ok(p) => aead_open(key@, nonce@, ciphertext@) == Some(p@),
            Err(e) => aead_open(key@, nonce@, ciphertext@) is None && e@ == decryption_failed_msg(),
        },
        forall|p: Seq<u8>|
            aead_len_ok(p.len() as int) && #[trigger] xchacha20poly1305_seal(key@, nonce@, p) == ciphertext@
                ==> (res matches Ok(q) && q@ == p),
{
    match aead_decrypt(key, nonce, ciphertext) {
        Some(p) => {
            proof {
                let q = choose|q: Seq<u8>| aead_len_ok(q.len() as int) && xchacha20poly1305_seal(key@, nonce@, q) == ciphertext@;
                assert(aead_len_ok(p@.len() as int) && xchacha20poly1305_seal(key@, nonce@, p@) == ciphertext@);
                assert(q == p@);
            }
            Ok(p)
        }
        None => Err(String::from_str("decryption failed: wrong key or corrupted data")),
    }
}


// ---------------------------------------------------------------------------
// The encrypted file format (documents and assets of an encrypted vault).
//
//   offset  length  content
//   0       4       magic "INKD"
//   4       1       format version (1)
//   5       24      nonce wrapping the DEK
//   29      48      the DEK sealed under the master key
//   77      24      nonce of the body
//   101     rest    the body sealed under the DEK
// ---------------------------------------------------------------------------

pub const FILE_FORMAT_VERSION: u8 = 1;
pub const DEK_WRAP_CIPHERTEXT_LEN: usize = 48;
pub const FILE_HEADER_LEN: usize = 101;

/// The ASCII bytes "INKD".
pub open spec fn file_magic() -> Seq<u8> {
    seq![0x49u8, 0x4eu8, 0x4bu8, 0x44u8]
}

/// The bytes of an encrypted file holding `plaintext` under a DEK wrapped by `mk`.
pub open spec fn encrypted_file_bytes(mk: Seq<u8>, dek: Seq<u8>, dek_nonce: Seq<u8>, content_nonce: Seq<u8>, plaintext: Seq<u8>) -> Seq<u8> {
    file_magic() + seq![1u8] + dek_nonce + xchacha20poly1305_seal(mk, dek_nonce, dek) + content_nonce
        + xchacha20poly1305_seal(dek, content_nonce, plaintext)
}

/// `bytes` is the encrypted file of `plaintext` under `mk`, made with this
/// DEK and these nonces.
pub open spec fn is_encrypted_file(mk: Seq<u8>, bytes: Seq<u8>, dek: Seq<u8>, dek_nonce: Seq<u8>, content_nonce: Seq<u8>, plaintext: Seq<u8>) -> bool {
    &&& dek.len() == DEK_LEN
    &&& dek_nonce.len() == NONCE_LEN
    &&& content_nonce.len() == NONCE_LEN
    &&& xchacha20poly1305_seal(mk, dek_nonce, dek).len() == DEK_WRAP_CIPHERTEXT_LEN
    &&& aead_len_ok(plaintext.len() as int)
    &&& bytes == encrypted_file_bytes(mk, dek, dek_nonce, content_nonce, plaintext)
}

pub open spec fn too_short_msg() -> Seq<char> {
    "corrupted encrypted file: too short"@
}

pub open spec fn bad_magic_msg() -> Seq<char> {
    "corrupted encrypted file: bad magic"@
}

pub open spec fn invalid_dek_msg() -> Seq<char> {
    "corrupted encrypted file: invalid DEK length"@
}

pub open spec fn newer_file_version_msg(v: u8) -> Seq<char> {
    "encrypted file requires a newer version of Inkstone (formatVersion "@ + decimal(v as nat) + ")"@
}

/// What decoding `bytes` under `mk` gives: the body or the error message.
pub open spec fn decode_encrypted_spec(mk: Seq<u8>, bytes: Seq<u8>) -> Result<Seq<u8>, Seq<char>> {
    if bytes.len() < 101 {
        Err(too_short_msg())
    } else if bytes.subrange(0, 4) != file_magic() {
        Err(bad_magic_msg())
    } else if bytes[4] != 1 {
        Err(newer_file_version_msg(bytes[4]))
    } else {
        match aead_open(mk, bytes.subrange(5, 29), bytes.subrange(29, 77)) {
            None => Err(decryption_failed_msg()),
            Some(dek) => if dek.len() != 32 {
                Err(invalid_dek_msg())
            } else {
                match aead_open(dek, bytes.subrange(77, 101), bytes.subrange(101, bytes.len() as int)) {
                    None => Err(decryption_failed_msg()),
                    Some(p) => Ok(p),
                }
            },
        }
    }
}

fn push_all(out: &mut Vec<u8>, bytes: &[u8])
    ensures
        final(out)@ == old(out)@ + bytes@,
{
    out.extend_from_slice(bytes);
}

/// Lays out an encrypted file from its two envelopes.
fn assemble_encrypted_file(dek_envelope: &Envelope, content_envelope: &Envelope) -> (bytes: Vec<u8>)
    ensures
        bytes@ == file_magic() + seq![1u8] + dek_envelope.nonce@ + dek_envelope.ciphertext@
            + content_envelope.nonce@ + content_envelope.ciphertext@,
{
    let mut bytes: Vec<u8> = Vec::new();
    bytes.push(0x49u8);
    bytes.push(0x4eu8);
    bytes.push(0x4bu8);
    bytes.push(0x44u8);
    bytes.push(FILE_FORMAT_VERSION);
    push_all(&mut bytes, &dek_envelope.nonce);
    push_all(&mut bytes, dek_envelope.ciphertext.as_slice());
    push_all(&mut bytes, &content_envelope.nonce);
    push_all(&mut bytes, content_envelope.ciphertext.as_slice());
    assert(bytes@ =~= file_magic() + seq![1u8] + dek_envelope.nonce@ + dek_envelope.ciphertext@
            + content_envelope.nonce@ + content_envelope.ciphertext@);
    bytes
}

/// Encodes `plaintext` as a self-contained encrypted file: a fresh random
/// DEK wrapped under `mk`, followed by `plaintext` encrypted under that DEK.
pub fn encode_encrypted_file(mk: &[u8; MK_LEN], plaintext: &[u8]) -> (bytes: Vec<u8>)
    requires
        aead_len_ok(plaintext@.len() as int),
    ensures
        exists|dek: Seq<u8>, dek_nonce: Seq<u8>, content_nonce: Seq<u8>|
            is_encrypted_file(mk@, bytes@, dek, dek_nonce, content_nonce, plaintext@),
        decode_encrypted_spec(mk@, bytes@) == Ok::<Seq<u8>, Seq<char>>(plaintext@),
        bytes@.len() == FILE_HEADER_LEN + plaintext@.len() + 16,
{
    let dek = random_bytes::<DEK_LEN>();
    let dek_envelope = seal(mk, &dek);
    let content_envelope = seal(&dek, plaintext);
    let bytes = assemble_encrypted_file(&dek_envelope, &content_envelope);
    assert(is_encrypted_file(mk@, bytes@, dek@, dek_envelope.nonce@, content_envelope.nonce@, plaintext@));
    proof {
        lemma_encrypted_file_parts(mk@, dek@, dek_envelope.nonce@, content_envelope.nonce@, plaintext@);
    }
    bytes
}


/// The slices of an encrypted file's layout.
proof fn lemma_encrypted_file_parts(mk: Seq<u8>, dek: Seq<u8>, dek_nonce: Seq<u8>, content_nonce: Seq<u8>, plaintext: Seq<u8>)
    requires
        dek_nonce.len() == 24,
        content_nonce.len() == 24,
        xchacha20poly1305_seal(mk, dek_nonce, dek).len() == 48,
    ensures
        ({
            let b = encrypted_file_bytes(mk, dek, dek_nonce, content_nonce, plaintext);
            &&& b.len() >= 101
            &&& b.subrange(0, 4) == file_magic()
            &&& b[4] == 1
            &&& b.subrange(5, 29) == dek_nonce
            &&& b.subrange(29, 77) == xchacha20poly1305_seal(mk, dek_nonce, dek)
            &&& b.subrange(77, 101) == content_nonce
            &&& b.subrange(101, b.len() as int) == xchacha20poly1305_seal(dek, content_nonce, plaintext)
        }),
{
    let b = encrypted_file_bytes(mk, dek, dek_nonce, content_nonce, plaintext);
    let c2 = xchacha20poly1305_seal(dek, content_nonce, plaintext);
    assert(b.subrange(0, 4) =~= file_magic());
    assert(b.subrange(5, 29) =~= dek_nonce);
    assert(b.subrange(29, 77) =~= xchacha20poly1305_seal(mk, dek_nonce, dek));
    assert(b.subrange(77, 101) =~= content_nonce);
    assert(b.subrange(101, b.len() as int) =~= c2);
}

/// Copies 24 bytes starting at `start` into a nonce array.
fn nonce_at(bytes: &[u8], start: usize) -> (nonce: [u8; NONCE_LEN])
    requires
        start + 24 <= bytes@.len(),
    ensures
        nonce@ == bytes@.subrange(start as int, start + 24),
{
    let mut nonce = [0u8; NONCE_LEN];
    let n = bytes.len();
    for i in 0..NONCE_LEN
        invariant
            n == bytes@.len(),
            start + 24 <= bytes@.len(),
            nonce@.len() == 24,
            forall|j: int| 0 <= j < i ==> nonce@[j] == bytes@[start + j],
    {
        nonce[i] = bytes[start + i];
    }
    assert(nonce@ =~= bytes@.subrange(start as int, start + 24));
    nonce
}

/// Copies a 32-byte vector into a key array.
fn key_from_vec(v: &Vec<u8>) -> (key: [u8; 32])
    requires
        v@.len() == 32,
    ensures
        key@ == v@,
{
    let mut key = [0u8; 32];
    for i in 0..32
        invariant
            v@.len() == 32,
            key@.len() == 32,
            forall|j: int| 0 <= j < i ==> key@[j] == v@[j],
    {
        key[i] = v[i];
    }
    assert(key@ =~= v@);
    key
}

/// Decodes a file produced by [`encode_encrypted_file`].
pub fn decode_encrypted_file(mk: &[u8; MK_LEN], bytes: &[u8]) -> (res: Result<Vec<u8>, String>)
    ensures
        match res {
            Ok(p) => decode_encrypted_spec(mk@, bytes@) == Ok::<Seq<u8>, Seq<char>>(p@),
            Err(e) => decode_encrypted_spec(mk@, bytes@) == Err::<Seq<u8>, Seq<char>>(e@),
        },
        forall|dek: Seq<u8>, dek_nonce: Seq<u8>, content_nonce: Seq<u8>, plaintext: Seq<u8>|
            #[trigger] is_encrypted_file(mk@, bytes@, dek, dek_nonce, content_nonce, plaintext)
                ==> (res matches Ok(q) && q@ == plaintext),
{
    if bytes.len() < FILE_HEADER_LEN {
        proof { lemma_layout_parts_all(mk@, bytes@); }
        return Err(String::from_str("corrupted encrypted file: too short"));
    }
    if bytes[0] != 0x49u8 || bytes[1] != 0x4eu8 || bytes[2] != 0x4bu8 || bytes[3] != 0x44u8 {
        proof {
            assert(bytes@.subrange(0, 4) != file_magic()) by {
                if bytes@.subrange(0, 4) == file_magic() {
                    assert(bytes@[0] == bytes@.subrange(0, 4)[0]);
                    assert(bytes@[1] == bytes@.subrange(0, 4)[1]);
                    assert(bytes@[2] == bytes@.subrange(0, 4)[2]);
                    assert(bytes@[3] == bytes@.subrange(0, 4)[3]);
                }
            }
            lemma_layout_parts_all(mk@, bytes@);
        }
        return Err(String::from_str("corrupted encrypted file: bad magic"));
    }
    assert(bytes@.subrange(0, 4) =~= file_magic());
    let format_version = bytes[4];
    if format_version != FILE_FORMAT_VERSION {
        proof { lemma_layout_parts_all(mk@, bytes@); }
        let mut msg = String::from_str("encrypted file requires a newer version of Inkstone (formatVersion ");
        push_decimal(&mut msg, format_version as u64);
        msg.append(")");
        return Err(msg);
    }
    let dek_nonce = nonce_at(bytes, 5);
    let dek_ciphertext = slice_subrange(bytes, 29, 77);
    let content_nonce = nonce_at(bytes, 77);
    let content_ciphertext = slice_subrange(bytes, 101, bytes.len());
    proof { lemma_layout_parts_all(mk@, bytes@); }
    let dek_bytes = match open(mk, &dek_nonce, dek_ciphertext) {
        Ok(d) => d,
        Err(e) => return Err(e),
    };
    if dek_bytes.len() != DEK_LEN {
        return Err(String::from_str("corrupted encrypted file: invalid DEK length"));
    }
    let dek = key_from_vec(&dek_bytes);
    open(&dek, &content_nonce, content_ciphertext)
}

/// Where `bytes` is an encrypted file under `mk`, its header is well
/// formed and its slices are the layout's parts.
proof fn lemma_layout_parts_all(mk: Seq<u8>, bytes: Seq<u8>)
    ensures
        forall|dek: Seq<u8>, dek_nonce: Seq<u8>, content_nonce: Seq<u8>, plaintext: Seq<u8>|
            #[trigger] is_encrypted_file(mk, bytes, dek, dek_nonce, content_nonce, plaintext)
                ==> {
                    &&& bytes.len() >= 101
                    &&& bytes.subrange(0, 4) == file_magic()
                    &&& bytes[4] == 1
                    &&& bytes.subrange(5, 29) == dek_nonce
                    &&& bytes.subrange(29, 77) == xchacha20poly1305_seal(mk, dek_nonce, dek)
                    &&& bytes.subrange(77, 101) == content_nonce
                    &&& bytes.subrange(101, bytes.len() as int) == xchacha20poly1305_seal(dek, content_nonce, plaintext)
                },
{
    assert forall|dek: Seq<u8>, dek_nonce: Seq<u8>, content_nonce: Seq<u8>, plaintext: Seq<u8>|
        #[trigger] is_encrypted_file(mk, bytes, dek, dek_nonce, content_nonce, plaintext)
        implies {
            &&& bytes.len() >= 101
            &&& bytes.subrange(0, 4) == file_magic()
            &&& bytes[4] == 1
            &&& bytes.subrange(5, 29) == dek_nonce
            &&& bytes.subrange(29, 77) == xchacha20poly1305_seal(mk, dek_nonce, dek)
            &&& bytes.subrange(77, 101) == content_nonce
            &&& bytes.subrange(101, bytes.len() as int) == xchacha20poly1305_seal(dek, content_nonce, plaintext)
        } by {
        lemma_encrypted_file_parts(mk, dek, dek_nonce, content_nonce, plaintext);
    }
}


/// A random identifier for encrypted-vault documents and assets: unlike a
/// ULID it carries no timestamp, so it can be both the file name and the
/// document id without leaking when the document was created.
pub fn random_token_hex() -> (token: String)
    ensures
        exists|bytes: Seq<u8>| bytes.len() == FILE_TOKEN_LEN && token@ == hex_lower(bytes),
        token@.len() == 2 * FILE_TOKEN_LEN,
        forall|i: int| 0 <= i < token@.len() ==> is_hex_lower_char(#[trigger] token@[i]),
{
    let bytes = random_bytes::<FILE_TOKEN_LEN>();
    let token = to_hex_lower(&bytes);
    proof { lemma_hex_lower_shape(bytes@); }
    token
}

} // verus!
