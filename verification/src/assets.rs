//! Assets (pasted images and other files): content-addressed names, and
//! their encryption in an encrypted vault. The files are read and written
//! outside the library.
use vstd::prelude::*;
use vstd::slice::slice_subrange;
use crate::codec::{base64_decoded, decode_base64, sha256, sha256_digest};
use crate::crypto::{aead_len_ok, decode_encrypted_file, decode_encrypted_spec, encode_encrypted_file, MK_LEN};
use crate::text::{chars_of, hex_lower, is_err_with, string_of, to_hex_lower, to_lowercase, unicode_lowercase};

verus! {

/// `char::is_ascii_alphanumeric`.
pub open spec fn is_ascii_alnum(c: char) -> bool {
    ('0' <= c && c <= '9') || ('a' <= c && c <= 'z') || ('A' <= c && c <= 'Z')
}

/// The ASCII letters and digits of `s`, in order.
pub open spec fn ascii_alnums(s: Seq<char>) -> Seq<char>
    decreases s.len(),
{
    if s.len() == 0 {
        Seq::empty()
    } else {
        ascii_alnums(s.drop_last()) + if is_ascii_alnum(s.last()) {
            seq![s.last()]
        } else {
            Seq::empty()
        }
    }
}

/// A lower-case ASCII letter or an ASCII digit.
pub open spec fn is_lower_or_digit(c: char) -> bool {
    ('0' <= c && c <= '9') || ('a' <= c && c <= 'z')
}

/// Text made of ASCII letters and digits alone is kept whole, digits
/// included.
pub proof fn lemma_ascii_alnums_keep_all(s: Seq<char>)
    requires
        forall|i: int| 0 <= i < s.len() ==> ('0' <= #[trigger] s[i] && s[i] <= '9') || ('a' <= s[i] && s[i] <= 'z') || ('A' <= s[i] && s[i] <= 'Z'),
    ensures
        ascii_alnums(s) == s,
    decreases s.len(),
{
    if s.len() > 0 {
        assert forall|i: int| 0 <= i < s.drop_last().len() implies ('0' <= #[trigger] s.drop_last()[i] && s.drop_last()[i] <= '9') || ('a' <= s.drop_last()[i] && s.drop_last()[i] <= 'z') || ('A' <= s.drop_last()[i] && s.drop_last()[i] <= 'Z') by {
            assert(s.drop_last()[i] == s[i]);
        }
        lemma_ascii_alnums_keep_all(s.drop_last());
        assert(s.last() == s[s.len() - 1]);
        assert(s.drop_last() + seq![s.last()] =~= s);
    }
}

/// Text without ASCII letters and digits keeps nothing.
pub proof fn lemma_ascii_alnums_keep_none(s: Seq<char>)
    requires
        forall|i: int| 0 <= i < s.len() ==> !(('0' <= #[trigger] s[i] && s[i] <= '9') || ('a' <= s[i] && s[i] <= 'z') || ('A' <= s[i] && s[i] <= 'Z')),
    ensures
        ascii_alnums(s) == Seq::<char>::empty(),
    decreases s.len(),
{
    if s.len() > 0 {
        assert forall|i: int| 0 <= i < s.drop_last().len() implies !(('0' <= #[trigger] s.drop_last()[i] && s.drop_last()[i] <= '9') || ('a' <= s.drop_last()[i] && s.drop_last()[i] <= 'z') || ('A' <= s.drop_last()[i] && s.drop_last()[i] <= 'Z')) by {
            assert(s.drop_last()[i] == s[i]);
        }
        lemma_ascii_alnums_keep_none(s.drop_last());
        assert(s.last() == s[s.len() - 1]);
        assert(Seq::<char>::empty() + Seq::<char>::empty() =~= Seq::<char>::empty());
    }
}

/// What is kept is ASCII letters and digits, in the order they came.
pub proof fn lemma_ascii_alnums_kept(s: Seq<char>)
    ensures
        ascii_alnums(s).len() <= s.len(),
        forall|i: int| 0 <= i < ascii_alnums(s).len() ==> ('0' <= #[trigger] ascii_alnums(s)[i] && ascii_alnums(s)[i] <= '9') || ('a' <= ascii_alnums(s)[i] && ascii_alnums(s)[i] <= 'z') || ('A' <= ascii_alnums(s)[i] && ascii_alnums(s)[i] <= 'Z'),
    decreases s.len(),
{
    if s.len() > 0 {
        lemma_ascii_alnums_kept(s.drop_last());
        let a = ascii_alnums(s.drop_last());
        assert forall|i: int| 0 <= i < ascii_alnums(s).len() implies ('0' <= #[trigger] ascii_alnums(s)[i] && ascii_alnums(s)[i] <= '9') || ('a' <= ascii_alnums(s)[i] && ascii_alnums(s)[i] <= 'z') || ('A' <= ascii_alnums(s)[i] && ascii_alnums(s)[i] <= 'Z') by {
            if i < a.len() {
                assert(ascii_alnums(s)[i] == a[i]);
            }
        }
    }
}

/// An extension that lower-cases to at most eight lower-case ASCII letters
/// and digits (`mp4`, `m4a`, `7z`) is stored as it lower-cases.
pub proof fn lemma_sanitized_ext_plain(ext: Seq<char>)
    requires
        0 < unicode_lowercase(ext).len() <= 8,
        forall|i: int| 0 <= i < unicode_lowercase(ext).len() ==> #[trigger] is_lower_or_digit(unicode_lowercase(ext)[i]),
    ensures
        sanitized_ext(ext) == unicode_lowercase(ext),
{
    let l = unicode_lowercase(ext);
    assert forall|i: int| 0 <= i < l.len() implies ('0' <= #[trigger] l[i] && l[i] <= '9') || ('a' <= l[i] && l[i] <= 'z') || ('A' <= l[i] && l[i] <= 'Z') by {
        assert(is_lower_or_digit(l[i]));
    }
    lemma_ascii_alnums_keep_all(l);
}

/// The extension an asset is stored under: the first eight ASCII letters
/// and digits of the lower-cased extension given, or "bin" if there are
/// none.
pub open spec fn sanitized_ext(ext: Seq<char>) -> Seq<char> {
    let kept = ascii_alnums(unicode_lowercase(ext));
    if kept.len() == 0 {
        "bin"@
    } else if kept.len() <= 8 {
        kept
    } else {
        kept.take(8)
    }
}

proof fn lemma_ascii_alnums_grow(s: Seq<char>, i: int)
    requires
        0 <= i < s.len(),
    ensures
        ascii_alnums(s.take(i + 1)) == ascii_alnums(s.take(i)) + if is_ascii_alnum(s[i]) {
            seq![s[i]]
        } else {
            Seq::empty()
        },
{
    assert(s.take(i + 1).drop_last() =~= s.take(i));
}

pub fn sanitize_ext(ext: &str) -> (res: String)
    ensures
        res@ == sanitized_ext(ext@),
        0 < unicode_lowercase(ext@).len() <= 8 && (forall|i: int| 0 <= i < unicode_lowercase(ext@).len()
            ==> #[trigger] is_lower_or_digit(unicode_lowercase(ext@)[i])) ==> res@ == unicode_lowercase(ext@),
{
    let lower = to_lowercase(ext);
    let chars = chars_of(lower.as_str());
    let mut kept: Vec<char> = Vec::new();
    let n = chars.len();
    let mut i: usize = 0;
    while i < n && kept.len() < 8
        invariant
            i <= n,
            n == chars@.len(),
            chars@ == unicode_lowercase(ext@),
            kept@ == ascii_alnums(chars@.take(i as int)),
            kept@.len() <= 8,
        decreases n - i,
    {
        let c = chars[i];
        proof {
            lemma_ascii_alnums_grow(chars@, i as int);
        }
        if ('0' <= c && c <= '9') || ('a' <= c && c <= 'z') || ('A' <= c && c <= 'Z') {
            kept.push(c);
        }
        assert(kept@ =~= ascii_alnums(chars@.take(i + 1)));
        i += 1;
    }
    proof {
        lemma_ascii_alnums_prefix(chars@, i as int);
        assert(chars@.take(n as int) =~= chars@);
    }
    proof {
        if 0 < unicode_lowercase(ext@).len() <= 8 && (forall|i: int| 0 <= i < unicode_lowercase(ext@).len()
            ==> #[trigger] is_lower_or_digit(unicode_lowercase(ext@)[i])) {
            lemma_sanitized_ext_plain(ext@);
        }
    }
    if kept.len() == 0 {
        String::from_str("bin")
    } else {
        string_of(kept.as_slice())
    }
}

/// The letters and digits of a prefix of `s` begin those of `s`.
proof fn lemma_ascii_alnums_prefix(s: Seq<char>, i: int)
    requires
        0 <= i <= s.len(),
    ensures
        ascii_alnums(s.take(i)).len() <= ascii_alnums(s).len(),
        ascii_alnums(s).take(ascii_alnums(s.take(i)).len() as int) == ascii_alnums(s.take(i)),
    decreases s.len() - i,
{
    if i < s.len() {
        lemma_ascii_alnums_prefix(s, i + 1);
        lemma_ascii_alnums_grow(s, i);
        let a = ascii_alnums(s.take(i));
        let b = ascii_alnums(s.take(i + 1));
        let full = ascii_alnums(s);
        assert(full.take(a.len() as int) =~= full.take(b.len() as int).take(a.len() as int));
    } else {
        assert(s.take(i) =~= s);
    }
}

/// The name an asset is stored under: the first 16 bytes of the SHA-256 of
/// its plaintext in hex, the sanitized extension, and ".enc" in an
/// encrypted vault. Equal contents give equal names, which is how assets
/// are deduplicated.
pub open spec fn asset_name_spec(data: Seq<u8>, ext: Seq<char>, encrypted: bool) -> Seq<char> {
    let base = hex_lower(sha256(data).take(16)) + "."@ + sanitized_ext(ext);
    if encrypted {
        base + ".enc"@
    } else {
        base
    }
}

pub fn asset_name(data: &[u8], ext: &str, key: Option<&[u8; MK_LEN]>) -> (name: String)
    ensures
        name@ == asset_name_spec(data@, ext@, key is Some),
{
    let digest = sha256_digest(data);
    let head = slice_subrange(digest.as_slice(), 0, 16);
    assert(head@ =~= sha256(data@).take(16));
    let mut name = to_hex_lower(head);
    name.append(".");
    let ext = sanitize_ext(ext);
    name.append(ext.as_str());
    if key.is_some() {
        name.append(".enc");
    }
    name
}

/// The bytes of an upload, sent as standard Base64.
pub fn decode_payload(data_base64: &str) -> (res: Result<Vec<u8>, String>)
    ensures
        match res {
            Ok(v) => base64_decoded(data_base64@) == Some(v@),
            Err(e) => base64_decoded(data_base64@) is None && e@.subrange(0, 24) == "invalid base64 payload: "@,
        },
{
    match decode_base64(data_base64) {
        Ok(v) => Ok(v),
        Err(error) => {
            let mut msg = String::from_str("invalid base64 payload: ");
            proof {
                reveal_strlit("invalid base64 payload: ");
            }
            let ghost prefix = msg@;
            msg.append(error.as_str());
            assert(msg@.subrange(0, 24) =~= prefix);
            Err(msg)
        },
    }
}

/// What an asset file holds: the plaintext, or in an encrypted vault the
/// encrypted file of it, which `read` decrypts back.
pub fn asset_file_contents(data: Vec<u8>, key: Option<&[u8; MK_LEN]>) -> (contents: Vec<u8>)
    requires
        key is Some ==> aead_len_ok(data@.len() as int),
    ensures
        match key {
            None => contents@ == data@,
            Some(mk) => decode_encrypted_spec(mk@, contents@) == Ok::<Seq<u8>, Seq<char>>(data@),
        },
{
    match key {
        None => data,
        Some(mk) => encode_encrypted_file(mk, data.as_slice()),
    }
}

/// An asset's plaintext from its file's bytes, decrypting in an encrypted
/// vault.
pub fn read(bytes: Vec<u8>, key: Option<&[u8; MK_LEN]>) -> (res: Result<Vec<u8>, String>)
    ensures
        match key {
            None => res matches Ok(v) && v@ == bytes@,
            Some(mk) => match decode_encrypted_spec(mk@, bytes@) {
                Ok(p) => res matches Ok(v) && v@ == p,
                Err(e) => is_err_with(res, e),
            },
        },
{
    match key {
        None => Ok(bytes),
        Some(mk) => decode_encrypted_file(mk, bytes.as_slice()),
    }
}

} // verus!
