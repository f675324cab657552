//! Base64 (standard alphabet, padded) and SHA-256, from their crates.
use base64::Engine;
use sha2::Digest;
use vstd::prelude::*;

verus! {

/// The symbol of a 6-bit value in the standard Base64 alphabet
/// (`A`-`Z`, `a`-`z`, `0`-`9`, `+`, `/`).
pub open spec fn base64_symbol(v: int) -> char {
    if v < 26 {
        (65 + v) as char
    } else if v < 52 {
        (71 + v) as char
    } else if v < 62 {
        (v - 4) as char
    } else if v == 62 {
        '+'
    } else {
        '/'
    }
}

/// The standard, padded Base64 text of `bytes`: four symbols for each
/// three bytes, MSB first; a last group of one or two bytes is filled with
/// zero bits and padded with `=` to four characters.
#[verifier::opaque]
pub open spec fn base64_standard(bytes: Seq<u8>) -> Seq<char>
    decreases bytes.len(),
{
    if bytes.len() == 0 {
        Seq::empty()
    } else if bytes.len() == 1 {
        let b0 = bytes[0] as int;
        seq![base64_symbol(b0 / 4), base64_symbol((b0 % 4) * 16), '=', '=']
    } else if bytes.len() == 2 {
        let b0 = bytes[0] as int;
        let b1 = bytes[1] as int;
        seq![base64_symbol(b0 / 4), base64_symbol((b0 % 4) * 16 + b1 / 16), base64_symbol((b1 % 16) * 4), '=']
    } else {
        let b0 = bytes[0] as int;
        let b1 = bytes[1] as int;
        let b2 = bytes[2] as int;
        seq![
            base64_symbol(b0 / 4),
            base64_symbol((b0 % 4) * 16 + b1 / 16),
            base64_symbol((b1 % 16) * 4 + b2 / 64),
            base64_symbol(b2 % 64),
        ] + base64_standard(bytes.skip(3))
    }
}

/// The SHA-256 digest of `data`.
pub uninterp spec fn sha256(data: Seq<u8>) -> Seq<u8>;

/// The bytes a Base64 text stands for, if any.
pub open spec fn base64_decoded(text: Seq<char>) -> Option<Seq<u8>> {
    if exists|w: Seq<u8>| base64_standard(w) == text {
        Some(choose|w: Seq<u8>| base64_standard(w) == text)
    } else {
        None
    }
}

/// `base64::engine::general_purpose::STANDARD.encode`. Claims: the text
/// `base64_standard` describes, which no other byte string encodes to
/// (decoding gives the bytes back).
#[verifier::external_body]
pub(crate) fn base64_encode(bytes: &[u8]) -> (text: String)
    ensures
        text@ == base64_standard(bytes@),
        forall|w: Seq<u8>| #[trigger] base64_standard(w) == text@ ==> w == bytes@,
{
    base64::engine::general_purpose::STANDARD.encode(bytes)
}

/// `STANDARD.decode`, the error turned into its message. The engine
/// requires canonical padding and zero trailing bits, so it accepts exactly
/// the texts `encode` produces: it succeeds with `v` when `v` encodes to
/// `text` and fails when no byte string does.
#[verifier::external_body]
pub(crate) fn base64_decode(text: &str) -> (res: Result<Vec<u8>, String>)
    ensures
        res matches Ok(v) ==> base64_standard(v@) == text@,
        res matches Ok(v) ==> forall|w: Seq<u8>| #[trigger] base64_standard(w) == text@ ==> w == v@,
        res is Err ==> forall|w: Seq<u8>| #[trigger] base64_standard(w) != text@,
{
    base64::engine::general_purpose::STANDARD.decode(text).map_err(|error| error.to_string())
}

/// Encodes `bytes`; decoding the text gives them back.
pub fn encode_base64(bytes: &[u8]) -> (text: String)
    ensures
        text@ == base64_standard(bytes@),
        base64_decoded(text@) == Some(bytes@),
{
    let text = base64_encode(bytes);
    proof {
        let w = choose|w: Seq<u8>| base64_standard(w) == text@;
        assert(base64_standard(bytes@) == text@);
        assert(w == bytes@);
    }
    text
}

/// Decodes standard padded Base64; the error is the engine's message.
pub fn decode_base64(text: &str) -> (res: Result<Vec<u8>, String>)
    ensures
        match res {
            Ok(v) => base64_decoded(text@) == Some(v@),
            Err(_) => base64_decoded(text@) is None,
        },
{
    let res = base64_decode(text);
    proof {
        if res is Ok {
            let v = res->Ok_0;
            let w = choose|w: Seq<u8>| base64_standard(w) == text@;
            assert(base64_standard(v@) == text@);
            assert(w == v@);
        }
    }
    res
}

/// `sha2::Sha256::digest`. Claims: the named 32-byte digest.
#[verifier::external_body]
pub(crate) fn sha256_digest(data: &[u8]) -> (digest: Vec<u8>)
    ensures
        digest@ == sha256(data@),
        digest@.len() == 32,
{
    sha2::Sha256::digest(data).to_vec()
}

} // verus!
