//! Recovery codes: 20 random bytes shown as dash-grouped Crockford Base32.
use vstd::prelude::*;
use vstd::arithmetic::power2::pow2;
use crate::crypto::{random_bytes, RECOVERY_CODE_LEN};
use crate::text::{chars_of, is_whitespace, is_white_space, push_char};

verus! {

/// The Crockford Base32 alphabet (no I, L, O, U).
pub open spec fn crockford_symbols() -> Seq<char> {
    "0123456789ABCDEFGHJKMNPQRSTVWXYZ"@
}

/// What `data_encoding` accepts as the symbols of a 5-bit encoding.
pub open spec fn valid_base32_symbols(symbols: Seq<char>) -> bool {
    &&& symbols.len() == 32
    &&& forall|i: int| 0 <= i < 32 ==> (symbols[i] as int) < 128
    &&& forall|i: int, j: int| 0 <= i < j < 32 ==> symbols[i] != symbols[j]
}

/// Bit `k` of `bytes`, most significant bit of each byte first; 0 past
/// the end.
pub open spec fn bit_at(bytes: Seq<u8>, k: int) -> int {
    if 0 <= k < 8 * bytes.len() {
        (bytes[k / 8] as int / pow2((7 - k % 8) as nat) as int) % 2
    } else {
        0
    }
}

/// The value of the `j`-th group of five bits.
pub open spec fn five_bits(bytes: Seq<u8>, j: int) -> int {
    16 * bit_at(bytes, 5 * j) + 8 * bit_at(bytes, 5 * j + 1) + 4 * bit_at(bytes, 5 * j + 2)
        + 2 * bit_at(bytes, 5 * j + 3) + bit_at(bytes, 5 * j + 4)
}

/// The MSB-first, unpadded Base32 text of `bytes` over `symbols`: one
/// symbol for each group of five bits, the last group filled with zero
/// bits.
#[verifier::opaque]
pub open spec fn base32_encoded(symbols: Seq<char>, bytes: Seq<u8>) -> Seq<char> {
    Seq::new(((8 * bytes.len() + 4) / 5) as nat, |j: int| symbols[five_bits(bytes, j)])
}

/// The length of a Base32 text, and that it is made of the symbols.
proof fn lemma_base32_shape(symbols: Seq<char>, bytes: Seq<u8>)
    requires
        symbols.len() == 32,
    ensures
        base32_encoded(symbols, bytes).len() == (8 * bytes.len() + 4) / 5,
        forall|i: int| 0 <= i < base32_encoded(symbols, bytes).len()
            ==> symbols.contains(#[trigger] base32_encoded(symbols, bytes)[i]),
{
    reveal(base32_encoded);
    assert forall|i: int| 0 <= i < base32_encoded(symbols, bytes).len()
        implies symbols.contains(#[trigger] base32_encoded(symbols, bytes)[i]) by {
        let v = five_bits(bytes, i);
        assert(0 <= bit_at(bytes, 5 * i) <= 1);
        assert(0 <= bit_at(bytes, 5 * i + 1) <= 1);
        assert(0 <= bit_at(bytes, 5 * i + 2) <= 1);
        assert(0 <= bit_at(bytes, 5 * i + 3) <= 1);
        assert(0 <= bit_at(bytes, 5 * i + 4) <= 1);
        assert(0 <= v < 32);
        assert(symbols[v] == base32_encoded(symbols, bytes)[i]);
    }
}

/// A `data_encoding` specification with these symbols, MSB-first bit order,
/// no padding and trailing-bit checks on, then `encode`. The specification
/// is valid for every alphabet of 32 distinct ASCII symbols, so building it
/// cannot fail. Claims: the text `base32_encoded` describes, and that no
/// other byte string has the same encoding.
#[verifier::external_body]
fn base32_encode(symbols: &str, bytes: &[u8]) -> (res: String)
    requires
        valid_base32_symbols(symbols@),
    ensures
        res@ == base32_encoded(symbols@, bytes@),
        forall|w: Seq<u8>| #[trigger] base32_encoded(symbols@, w) == res@ ==> w == bytes@,
{
    let mut spec = data_encoding::Specification::new();
    spec.symbols.push_str(symbols);
    spec.encoding().expect("32 distinct ASCII symbols make a valid encoding").encode(bytes)
}

/// The same specification, then `decode` of the text's bytes. With
/// trailing-bit checks on, decoding accepts exactly the canonical encodings:
/// it succeeds with `v` when `v` encodes to `text`, and fails when no byte
/// string does.
#[verifier::external_body]
fn base32_decode(symbols: &str, text: &str) -> (res: Option<Vec<u8>>)
    requires
        valid_base32_symbols(symbols@),
    ensures
        res matches Some(v) ==> base32_encoded(symbols@, v@) == text@,
        res matches Some(v) ==> forall|w: Seq<u8>| #[trigger] base32_encoded(symbols@, w) == text@ ==> w == v@,
        res is None ==> forall|w: Seq<u8>| #[trigger] base32_encoded(symbols@, w) != text@,
{
    let mut spec = data_encoding::Specification::new();
    spec.symbols.push_str(symbols);
    spec.encoding().expect("32 distinct ASCII symbols make a valid encoding").decode(text.as_bytes()).ok()
}

proof fn lemma_increasing(v: Seq<char>, i: int, j: int)
    requires
        0 <= i < j <= v.len() - 1,
        forall|k: int| 0 <= k < v.len() - 1 ==> (#[trigger] v[k] as int) < (v[k + 1] as int),
    ensures
        (v[i] as int) < (v[j] as int),
    decreases j - i,
{
    if j > i + 1 {
        lemma_increasing(v, i, j - 1);
    }
}

fn crockford_alphabet() -> (s: &'static str)
    ensures
        s@ == crockford_symbols(),
        valid_base32_symbols(s@),
{
    let s = "0123456789ABCDEFGHJKMNPQRSTVWXYZ";
    proof {
        reveal_strlit("0123456789ABCDEFGHJKMNPQRSTVWXYZ");
        let v = s@;
        assert(v.len() == 32);
        assert forall|i: int| 0 <= i < 31 implies (#[trigger] v[i] as int) < (v[i + 1] as int) by {}
        assert forall|i: int, j: int| 0 <= i < j < 32 implies (v[i] as int) < (v[j] as int) by {
            lemma_increasing(v, i, j);
        }
    }
    s
}


/// Groups of four characters joined by '-', as `chunks(4)` then `join("-")`.
pub open spec fn dash_groups(s: Seq<char>) -> Seq<char>
    decreases s.len(),
{
    if s.len() <= 4 {
        s
    } else {
        s.take(4) + seq!['-'] + dash_groups(s.skip(4))
    }
}

/// A code typed again in lower case, with `lead` and `trail` around it.
pub open spec fn retyped(lead: Seq<char>, code: Seq<char>, trail: Seq<char>) -> Seq<char> {
    lead + code.map_values(|c: char| ascii_lower(c)) + trail
}

/// A displayed recovery code: eight groups of four Crockford symbols joined
/// by dashes.
pub open spec fn recovery_code_shaped(code: Seq<char>) -> bool {
    &&& code.len() == 39
    &&& forall|i: int| #![trigger code[i]] 0 <= i < 39 ==> if i % 5 == 4 {
        code[i] == '-'
    } else {
        crockford_symbols().contains(code[i])
    }
}

/// Each character of `dash_groups(s)`, for `s` a whole number of groups.
proof fn lemma_dash_groups_at(s: Seq<char>, i: int)
    requires
        s.len() >= 4,
        s.len() % 4 == 0,
        0 <= i < s.len() + s.len() / 4 - 1,
    ensures
        dash_groups(s).len() == s.len() + s.len() / 4 - 1,
        dash_groups(s)[i] == if i % 5 == 4 {
            '-'
        } else {
            s[(i / 5) * 4 + i % 5]
        },
    decreases s.len(),
{
    if s.len() > 4 {
        let r = s.skip(4);
        if i >= 5 {
            lemma_dash_groups_at(r, i - 5);
            assert((i - 5) % 5 == i % 5);
            assert((i - 5) / 5 == i / 5 - 1);
            if i % 5 != 4 {
                assert(r[((i - 5) / 5) * 4 + (i - 5) % 5] == s[(i / 5) * 4 + i % 5]);
            }
        } else {
            lemma_dash_groups_at(r, 0);
        }
    }
}

/// The displayed form of a recovery code.
pub open spec fn recovery_code_text(bytes: Seq<u8>) -> Seq<char> {
    dash_groups(base32_encoded(crockford_symbols(), bytes))
}

pub open spec fn ascii_upper(c: char) -> char {
    if 'a' <= c && c <= 'z' {
        ((c as int) - 32) as char
    } else {
        c
    }
}

pub open spec fn ascii_lower(c: char) -> char {
    if 'A' <= c && c <= 'Z' {
        ((c as int) + 32) as char
    } else {
        c
    }
}

/// Uppercase, then the Crockford confusable substitutions O->0, I/L->1.
pub open spec fn crockford_fold(c: char) -> char {
    let u = ascii_upper(c);
    if u == 'O' {
        '0'
    } else if u == 'I' || u == 'L' {
        '1'
    } else {
        u
    }
}

/// Characters a typed code keeps: not whitespace and not a dash.
pub open spec fn kept_in_code(c: char) -> bool {
    !is_white_space(c) && c != '-'
}

/// A typed recovery code with whitespace and dashes dropped and the other
/// characters folded.
pub open spec fn normalize_code(s: Seq<char>) -> Seq<char>
    decreases s.len(),
{
    if s.len() == 0 {
        Seq::empty()
    } else {
        normalize_code(s.drop_last()) + if kept_in_code(s.last()) {
            seq![crockford_fold(s.last())]
        } else {
            Seq::empty()
        }
    }
}

/// The bytes whose Crockford encoding is `text`, if any.
pub open spec fn crockford_decoded(text: Seq<char>) -> Option<Seq<u8>> {
    if exists|w: Seq<u8>| base32_encoded(crockford_symbols(), w) == text {
        Some(choose|w: Seq<u8>| base32_encoded(crockford_symbols(), w) == text)
    } else {
        None
    }
}

/// What parsing a typed recovery code gives.
pub open spec fn parse_recovery_spec(input: Seq<char>) -> Result<Seq<u8>, Seq<char>> {
    match crockford_decoded(normalize_code(input)) {
        None => Err("invalid recovery code"@),
        Some(b) => if b.len() != RECOVERY_CODE_LEN {
            Err("invalid recovery code length"@)
        } else {
            Ok(b)
        },
    }
}

pub proof fn lemma_normalize_append(a: Seq<char>, b: Seq<char>)
    ensures
        normalize_code(a + b) == normalize_code(a) + normalize_code(b),
    decreases b.len(),
{
    if b.len() == 0 {
        assert(a + b =~= a);
        assert(normalize_code(a) + normalize_code(b) =~= normalize_code(a));
    } else {
        lemma_normalize_append(a, b.drop_last());
        assert((a + b).drop_last() =~= a + b.drop_last());
        assert((a + b).last() == b.last());
    }
}

/// Normalizing leaves alone a text whose characters are Crockford symbols.
proof fn lemma_normalize_symbols(s: Seq<char>)
    requires
        forall|i: int| 0 <= i < s.len() ==> crockford_symbols().contains(#[trigger] s[i]),
    ensures
        normalize_code(s) == s,
    decreases s.len(),
{
    if s.len() > 0 {
        lemma_normalize_symbols(s.drop_last());
        let c = s.last();
        assert(crockford_symbols().contains(s[s.len() - 1]));
        reveal_strlit("0123456789ABCDEFGHJKMNPQRSTVWXYZ");
        let k = choose|k: int| 0 <= k < crockford_symbols().len() && crockford_symbols()[k] == c;
        assert(kept_in_code(c) && crockford_fold(c) == c);
        assert(s =~= s.drop_last() + seq![c]);
    }
}

proof fn lemma_normalize_dash_groups(s: Seq<char>)
    requires
        forall|i: int| 0 <= i < s.len() ==> crockford_symbols().contains(#[trigger] s[i]),
    ensures
        normalize_code(dash_groups(s)) == s,
    decreases s.len(),
{
    if s.len() <= 4 {
        lemma_normalize_symbols(s);
    } else {
        let head = s.take(4);
        let rest = s.skip(4);
        assert forall|i: int| 0 <= i < head.len() implies crockford_symbols().contains(#[trigger] head[i]) by {
            assert(head[i] == s[i]);
        }
        assert forall|i: int| 0 <= i < rest.len() implies crockford_symbols().contains(#[trigger] rest[i]) by {
            assert(rest[i] == s[i + 4]);
        }
        lemma_normalize_dash_groups(rest);
        lemma_normalize_symbols(head);
        lemma_normalize_append(head + seq!['-'], dash_groups(rest));
        lemma_normalize_append(head, seq!['-']);
        assert(normalize_code(seq!['-']) =~= Seq::<char>::empty()) by {
            assert(seq!['-'].drop_last() =~= Seq::<char>::empty());
            assert(normalize_code(Seq::<char>::empty()) =~= Seq::<char>::empty());
            assert(seq!['-'].last() == '-');
        }
        assert(head + rest =~= s);
    }
}

/// Formats raw recovery bytes as dash-grouped Crockford Base32.
pub fn format_recovery_code(bytes: &[u8; RECOVERY_CODE_LEN]) -> (code: String)
    ensures
        code@ == recovery_code_text(bytes@),
        normalize_code(code@) == base32_encoded(crockford_symbols(), bytes@),
        parse_recovery_spec(code@) == Ok::<Seq<u8>, Seq<char>>(bytes@),
        code@.len() == 39,
        recovery_code_shaped(code@),
        forall|lead: Seq<char>, trail: Seq<char>|
            (forall|i: int| 0 <= i < lead.len() ==> is_white_space(#[trigger] lead[i]))
            && (forall|i: int| 0 <= i < trail.len() ==> is_white_space(#[trigger] trail[i]))
            ==> #[trigger] parse_recovery_spec(retyped(lead, code@, trail))
                == Ok::<Seq<u8>, Seq<char>>(bytes@),
{
    let alphabet = crockford_alphabet();
    let encoded = base32_encode(alphabet, bytes);
    proof {
        lemma_base32_shape(alphabet@, bytes@);
    }
    let chars = chars_of(encoded.as_str());
    let ghost enc = chars@;
    let mut code = String::new();
    let n = chars.len();
    let mut i: usize = 0;
    assert(enc.skip(0) =~= enc);
    while n - i > 4
        invariant
            n == enc.len(),
            chars@ == enc,
            i <= n,
            code@ + dash_groups(enc.skip(i as int)) == dash_groups(enc),
        decreases n - i,
    {
        let ghost before = code@;
        let ghost rest = enc.skip(i as int);
        push_char(&mut code, chars[i]);
        push_char(&mut code, chars[i + 1]);
        push_char(&mut code, chars[i + 2]);
        push_char(&mut code, chars[i + 3]);
        push_char(&mut code, '-');
        assert(code@ =~= before + rest.take(4) + seq!['-']);
        assert(rest.skip(4) =~= enc.skip(i + 4));
        i = i + 4;
    }
    let ghost before = code@;
    let ghost rest = enc.skip(i as int);
    while i < n
        invariant
            n == enc.len(),
            chars@ == enc,
            i <= n,
            code@ + enc.skip(i as int) == before + rest,
        decreases n - i,
    {
        push_char(&mut code, chars[i]);
        assert(enc.skip(i as int) =~= seq![enc[i as int]] + enc.skip(i + 1));
        i = i + 1;
    }
    proof {
        assert(enc.skip(n as int) =~= Seq::<char>::empty());
        assert(code@ =~= dash_groups(enc));
        lemma_normalize_dash_groups(enc);
        lemma_dash_groups_len(enc);
        let w = choose|w: Seq<u8>| base32_encoded(crockford_symbols(), w) == normalize_code(code@);
        assert(base32_encoded(crockford_symbols(), bytes@) == normalize_code(code@));
        assert(w == bytes@);
        assert forall|i: int| #![trigger code@[i]] 0 <= i < 39 implies if i % 5 == 4 {
            code@[i] == '-'
        } else {
            crockford_symbols().contains(code@[i])
        } by {
            lemma_dash_groups_at(enc, i);
            if i % 5 != 4 {
                assert(crockford_symbols().contains(enc[(i / 5) * 4 + i % 5]));
            }
        }
        assert forall|lead: Seq<char>, trail: Seq<char>|
            (forall|i: int| 0 <= i < lead.len() ==> is_white_space(#[trigger] lead[i]))
            && (forall|i: int| 0 <= i < trail.len() ==> is_white_space(#[trigger] trail[i]))
            implies #[trigger] parse_recovery_spec(retyped(lead, code@, trail))
                == Ok::<Seq<u8>, Seq<char>>(bytes@) by {
            lemma_parse_ignores_case_and_surrounding_whitespace(code@, lead, trail);
        }
    }
    code
}

proof fn lemma_dash_groups_len(s: Seq<char>)
    requires
        s.len() == 32,
    ensures
        dash_groups(s).len() == 39,
{
    let s1 = s.skip(4);
    let s2 = s1.skip(4);
    let s3 = s2.skip(4);
    let s4 = s3.skip(4);
    let s5 = s4.skip(4);
    let s6 = s5.skip(4);
    let s7 = s6.skip(4);
    assert(dash_groups(s7).len() == 4);
    assert(dash_groups(s6).len() == 9);
    assert(dash_groups(s5).len() == 14);
    assert(dash_groups(s4).len() == 19);
    assert(dash_groups(s3).len() == 24);
    assert(dash_groups(s2).len() == 29);
    assert(dash_groups(s1).len() == 34);
}

/// Generates a new recovery code: `RECOVERY_CODE_LEN` random bytes and their
/// displayed form.
pub fn generate_recovery_code() -> (res: (String, [u8; RECOVERY_CODE_LEN]))
    ensures
        res.0@ == recovery_code_text(res.1@),
        normalize_code(res.0@) == base32_encoded(crockford_symbols(), res.1@),
        parse_recovery_spec(res.0@) == Ok::<Seq<u8>, Seq<char>>(res.1@),
        recovery_code_shaped(res.0@),
        forall|lead: Seq<char>, trail: Seq<char>|
            (forall|i: int| 0 <= i < lead.len() ==> is_white_space(#[trigger] lead[i]))
            && (forall|i: int| 0 <= i < trail.len() ==> is_white_space(#[trigger] trail[i]))
            ==> #[trigger] parse_recovery_spec(retyped(lead, res.0@, trail))
                == Ok::<Seq<u8>, Seq<char>>(res.1@),
{
    let bytes = random_bytes::<RECOVERY_CODE_LEN>();
    (format_recovery_code(&bytes), bytes)
}


fn crockford_fold_exec(c: char) -> (f: char)
    ensures
        f == crockford_fold(c),
{
    let u = if 'a' <= c && c <= 'z' {
        ((c as u8) - 32) as char
    } else {
        c
    };
    if u == 'O' {
        '0'
    } else if u == 'I' || u == 'L' {
        '1'
    } else {
        u
    }
}

/// Parses a user-typed recovery code back into raw bytes. Tolerant of
/// lowercase input, whitespace, and dashes in any position; applies the
/// Crockford confusable substitutions (O->0, I/L->1).
pub fn parse_recovery_code(input: &str) -> (res: Result<[u8; RECOVERY_CODE_LEN], String>)
    ensures
        match res {
            Ok(b) => parse_recovery_spec(input@) == Ok::<Seq<u8>, Seq<char>>(b@),
            Err(e) => parse_recovery_spec(input@) == Err::<Seq<u8>, Seq<char>>(e@),
        },
        forall|b: Seq<u8>|
            b.len() == RECOVERY_CODE_LEN && #[trigger] base32_encoded(crockford_symbols(), b) == normalize_code(input@)
                ==> (res matches Ok(k) && k@ == b),
{
    let chars = chars_of(input);
    let n = chars.len();
    let mut normalized = String::new();
    for i in 0..n
        invariant
            n == chars@.len(),
            chars@ == input@,
            normalized@ == normalize_code(input@.take(i as int)),
    {
        let c = chars[i];
        assert(input@.take(i + 1).drop_last() =~= input@.take(i as int));
        if !is_whitespace(c) && c != '-' {
            push_char(&mut normalized, crockford_fold_exec(c));
        }
    }
    assert(input@.take(n as int) =~= input@);
    let alphabet = crockford_alphabet();
    match base32_decode(alphabet, normalized.as_str()) {
        None => Err(String::from_str("invalid recovery code")),
        Some(bytes) => {
            proof {
                let w = choose|w: Seq<u8>| base32_encoded(crockford_symbols(), w) == normalized@;
                assert(base32_encoded(crockford_symbols(), bytes@) == normalized@);
                assert(w == bytes@);
            }
            if bytes.len() != RECOVERY_CODE_LEN {
                Err(String::from_str("invalid recovery code length"))
            } else {
                let mut out = [0u8; RECOVERY_CODE_LEN];
                for i in 0..RECOVERY_CODE_LEN
                    invariant
                        bytes@.len() == RECOVERY_CODE_LEN,
                        out@.len() == RECOVERY_CODE_LEN,
                        forall|j: int| 0 <= j < i ==> out@[j] == bytes@[j],
                {
                    out[i] = bytes[i];
                }
                assert(out@ =~= bytes@);
                Ok(out)
            }
        }
    }
}

/// Lowercasing the letters of a code, and whitespace before or after it,
/// do not change what it parses to.
pub proof fn lemma_parse_ignores_case_and_surrounding_whitespace(code: Seq<char>, lead: Seq<char>, trail: Seq<char>)
    requires
        forall|i: int| 0 <= i < lead.len() ==> is_white_space(#[trigger] lead[i]),
        forall|i: int| 0 <= i < trail.len() ==> is_white_space(#[trigger] trail[i]),
    ensures
        parse_recovery_spec(lead + code.map_values(|c: char| ascii_lower(c)) + trail) == parse_recovery_spec(code),
{
    let lowered = code.map_values(|c: char| ascii_lower(c));
    lemma_normalize_whitespace(lead);
    lemma_normalize_whitespace(trail);
    lemma_normalize_lowered(code);
    lemma_normalize_append(lead, lowered);
    lemma_normalize_append(lead + lowered, trail);
    assert(normalize_code(lead + lowered + trail) =~= normalize_code(code));
}

proof fn lemma_normalize_whitespace(s: Seq<char>)
    requires
        forall|i: int| 0 <= i < s.len() ==> is_white_space(#[trigger] s[i]),
    ensures
        normalize_code(s) == Seq::<char>::empty(),
    decreases s.len(),
{
    if s.len() > 0 {
        assert(is_white_space(s[s.len() - 1]));
        lemma_normalize_whitespace(s.drop_last());
        assert(normalize_code(s) =~= Seq::<char>::empty());
    }
}

proof fn lemma_normalize_lowered(s: Seq<char>)
    ensures
        normalize_code(s.map_values(|c: char| ascii_lower(c))) == normalize_code(s),
    decreases s.len(),
{
    if s.len() > 0 {
        let lowered = s.map_values(|c: char| ascii_lower(c));
        assert(lowered.drop_last() =~= s.drop_last().map_values(|c: char| ascii_lower(c)));
        lemma_normalize_lowered(s.drop_last());
        let c = s.last();
        assert(lowered.last() == ascii_lower(c));
        assert(ascii_upper(ascii_lower(c)) == ascii_upper(c));
        assert(is_white_space(ascii_lower(c)) == is_white_space(c));
    }
}


/// Dashes and whitespace anywhere in a typed code do not change what it
/// parses to.
pub proof fn lemma_parse_ignores_separators(a: Seq<char>, sep: Seq<char>, b: Seq<char>)
    requires
        forall|i: int| 0 <= i < sep.len() ==> (#[trigger] sep[i] == '-' || is_white_space(sep[i])),
    ensures
        parse_recovery_spec(a + sep + b) == parse_recovery_spec(a + b),
{
    lemma_normalize_separators(sep);
    lemma_normalize_append(a, sep);
    lemma_normalize_append(a + sep, b);
    lemma_normalize_append(a, b);
    assert(normalize_code(a + sep + b) =~= normalize_code(a + b));
}

proof fn lemma_normalize_separators(s: Seq<char>)
    requires
        forall|i: int| 0 <= i < s.len() ==> (#[trigger] s[i] == '-' || is_white_space(s[i])),
    ensures
        normalize_code(s) == Seq::<char>::empty(),
    decreases s.len(),
{
    if s.len() > 0 {
        assert(s[s.len() - 1] == '-' || is_white_space(s[s.len() - 1]));
        lemma_normalize_separators(s.drop_last());
        assert(normalize_code(s) =~= Seq::<char>::empty());
    }
}

/// The confusable letters read as digits: O (or o) as 0, and I, L (or i, l)
/// as 1.
pub proof fn lemma_parse_reads_confusables(a: Seq<char>, b: Seq<char>, typed: char, digit: char)
    requires
        (typed == 'O' || typed == 'o') && digit == '0' || (typed == 'I' || typed == 'i' || typed == 'L' || typed == 'l')
            && digit == '1',
    ensures
        parse_recovery_spec(a + seq![typed] + b) == parse_recovery_spec(a + seq![digit] + b),
{
    lemma_normalize_append(a, seq![typed]);
    lemma_normalize_append(a + seq![typed], b);
    lemma_normalize_append(a, seq![digit]);
    lemma_normalize_append(a + seq![digit], b);
    assert(seq![typed].drop_last() =~= Seq::<char>::empty());
    assert(seq![digit].drop_last() =~= Seq::<char>::empty());
    assert(normalize_code(Seq::<char>::empty()) =~= Seq::<char>::empty());
    assert(normalize_code(seq![typed]) =~= normalize_code(seq![digit]));
    assert(normalize_code(a + seq![typed] + b) =~= normalize_code(a + seq![digit] + b));
}

} // verus!
