//! Full-text search: what is indexed of a document, and how a query is put
//! to the SQLite index. The index itself lives outside the library.
use vstd::prelude::*;
use crate::docs::{collect_text, text_of};
use crate::json::{json_get, Json};
use crate::text::{chars_of, push_char, string_of, to_lowercase, trim, trim_string, unicode_lowercase};
use vstd::slice::slice_subrange;
use vstd::string::StringSliceAdditionalSpecFns;
use vstd::utf8::{encode_scalar, encode_utf8};

verus! {

/// Marks the start of a match in a snippet.
pub const HIGHLIGHT_OPEN: char = '\u{1}';
/// Marks the end of a match in a snippet.
pub const HIGHLIGHT_CLOSE: char = '\u{2}';
/// Characters of context on each side of a match.
pub const SNIPPET_CONTEXT_CHARS: usize = 30;
/// At most this many hits are returned.
pub const MAX_HITS: usize = 20;

/// A search result: the document, its title, and a snippet with the match
/// between `HIGHLIGHT_OPEN` and `HIGHLIGHT_CLOSE`.
#[derive(Debug)]
pub struct SearchHit {
    pub id: String,
    pub title: String,
    pub snippet: String,
}

/// The indexed text of a document body: the text of each top-level block
/// that has any, each followed by a newline.
pub open spec fn block_lines(blocks: Seq<Json>) -> Seq<char>
    decreases blocks.len(),
{
    if blocks.len() == 0 {
        Seq::empty()
    } else {
        let t = text_of(blocks.last());
        block_lines(blocks.drop_last()) + if t.len() > 0 {
            t.push('\n')
        } else {
            Seq::empty()
        }
    }
}

pub open spec fn body_of(content: Json) -> Seq<char> {
    match json_get(content, "content"@) {
        Some(Json::Array(blocks)) => block_lines(blocks@),
        _ => Seq::empty(),
    }
}

/// The text of a document body that goes into the index.
pub fn body_text(content: &Json) -> (body: String)
    ensures
        body@ == body_of(*content),
{
    let mut body = String::new();
    match content.get("content") {
        Some(c) => match c {
            Json::Array(blocks) => {
                let n = blocks.len();
                for i in 0..n
                    invariant
                        n == blocks@.len(),
                        body@ == block_lines(blocks@.take(i as int)),
                {
                    let mut text = String::new();
                    collect_text(&blocks[i], &mut text);
                    assert(text@ =~= text_of(blocks@[i as int]));
                    assert(blocks@.take(i + 1).drop_last() =~= blocks@.take(i as int));
                    if !text.as_str().is_empty() {
                        body.append(text.as_str());
                        push_char(&mut body, '\n');
                    } else {
                        assert(body@ + Seq::<char>::empty() =~= body@);
                    }
                }
                assert(blocks@.take(n as int) =~= blocks@);
            },
            _ => {},
        },
        None => {},
    }
    body
}

/// A character of a `LIKE` pattern, escaped with `\`.
pub open spec fn like_escaped(c: char) -> Seq<char> {
    if c == '\\' || c == '%' || c == '_' {
        seq!['\\', c]
    } else {
        seq![c]
    }
}

pub open spec fn escape_like_spec(s: Seq<char>) -> Seq<char>
    decreases s.len(),
{
    if s.len() == 0 {
        Seq::empty()
    } else {
        escape_like_spec(s.drop_last()) + like_escaped(s.last())
    }
}

/// Escapes `\`, `%` and `_` for a `LIKE ... ESCAPE '\'` pattern.
pub fn escape_like(query: &str) -> (escaped: String)
    ensures
        escaped@ == escape_like_spec(query@),
{
    let chars = chars_of(query);
    let mut escaped = String::new();
    let n = chars.len();
    for i in 0..n
        invariant
            n == chars@.len(),
            chars@ == query@,
            escaped@ == escape_like_spec(query@.take(i as int)),
    {
        let c = chars[i];
        if c == '\\' || c == '%' || c == '_' {
            push_char(&mut escaped, '\\');
        }
        push_char(&mut escaped, c);
        assert(query@.take(i + 1).drop_last() =~= query@.take(i as int));
        assert(escaped@ =~= escape_like_spec(query@.take(i as int)) + like_escaped(c));
    }
    assert(query@.take(n as int) =~= query@);
    escaped
}

/// `"` doubled, as inside an FTS5 string.
pub open spec fn quotes_doubled(s: Seq<char>) -> Seq<char>
    decreases s.len(),
{
    if s.len() == 0 {
        Seq::empty()
    } else {
        quotes_doubled(s.drop_last()) + if s.last() == '"' {
            seq!['"', '"']
        } else {
            seq![s.last()]
        }
    }
}

/// A character sequence without `"`.
pub open spec fn no_double_quote(s: Seq<char>) -> bool {
    forall|i: int| 0 <= i < s.len() ==> s[i] != '"'
}

/// Doubling the quotes of two pieces one after the other doubles those of
/// the whole.
pub proof fn lemma_quotes_doubled_append(a: Seq<char>, b: Seq<char>)
    ensures
        quotes_doubled(a + b) == quotes_doubled(a) + quotes_doubled(b),
    decreases b.len(),
{
    if b.len() == 0 {
        assert(a + b =~= a);
        assert(quotes_doubled(a) + quotes_doubled(b) =~= quotes_doubled(a));
    } else {
        lemma_quotes_doubled_append(a, b.drop_last());
        assert((a + b).drop_last() =~= a + b.drop_last());
        assert((a + b).last() == b.last());
        let tail = if b.last() == '"' { seq!['"', '"'] } else { seq![b.last()] };
        assert(quotes_doubled(a) + quotes_doubled(b.drop_last()) + tail
            =~= quotes_doubled(a) + (quotes_doubled(b.drop_last()) + tail));
    }
}

/// Only `"` is doubled: text without one, apostrophes included, is copied
/// unchanged.
pub proof fn lemma_quotes_doubled_plain(s: Seq<char>)
    requires
        no_double_quote(s),
    ensures
        quotes_doubled(s) == s,
    decreases s.len(),
{
    if s.len() > 0 {
        assert(no_double_quote(s.drop_last())) by {
            assert forall|i: int| 0 <= i < s.drop_last().len() implies s.drop_last()[i] != '"' by {
                assert(s.drop_last()[i] == s[i]);
            }
        }
        lemma_quotes_doubled_plain(s.drop_last());
        assert(s.last() == s[s.len() - 1]);
        assert(s.drop_last() + seq![s.last()] =~= s);
    }
}

/// Each `"` becomes `""`.
pub proof fn lemma_quotes_doubled_quote()
    ensures
        quotes_doubled(seq!['"']) == seq!['"', '"'],
{
    let s = seq!['"'];
    assert(s.len() == 1 && s.last() == '"');
    assert(s.drop_last() =~= Seq::<char>::empty());
    assert(quotes_doubled(s.drop_last()) =~= Seq::<char>::empty());
    assert(Seq::<char>::empty() + seq!['"', '"'] =~= seq!['"', '"']);
}

/// How a query is put to the index.
pub enum SearchPlan {
    /// A blank query finds nothing.
    Nothing,
    /// Three characters or more: an FTS5 phrase query over the trigram index.
    Fts(String),
    /// Shorter queries, which trigrams cannot match: a `LIKE` pattern over
    /// titles and bodies, and the trimmed query to build snippets with.
    Like { pattern: String, query: String },
}

/// Plans a search for the text the user typed.
pub fn search_plan(query: &str) -> (plan: SearchPlan)
    ensures
        match plan {
            SearchPlan::Nothing => trim(query@).len() == 0,
            SearchPlan::Fts(q) => {
                &&& trim(query@).len() >= 3
                &&& q@ == seq!['"'] + quotes_doubled(trim(query@)) + seq!['"']
                &&& no_double_quote(trim(query@)) ==> q@ == seq!['"'] + trim(query@) + seq!['"']
            },
            SearchPlan::Like { pattern, query: q } => {
                &&& 0 < trim(query@).len() < 3
                &&& pattern@ == seq!['%'] + escape_like_spec(trim(query@)) + seq!['%']
                &&& q@ == trim(query@)
            },
        },
{
    let q = trim_string(query);
    let chars = chars_of(q.as_str());
    if chars.len() == 0 {
        return SearchPlan::Nothing;
    }
    if chars.len() >= 3 {
        let mut fts = String::new();
        push_char(&mut fts, '"');
        let n = chars.len();
        for i in 0..n
            invariant
                n == chars@.len(),
                chars@ == q@,
                fts@ == seq!['"'] + quotes_doubled(q@.take(i as int)),
        {
            let c = chars[i];
            if c == '"' {
                push_char(&mut fts, '"');
            }
            push_char(&mut fts, c);
            assert(q@.take(i + 1).drop_last() =~= q@.take(i as int));
            assert(fts@ =~= seq!['"'] + quotes_doubled(q@.take(i + 1)));
        }
        push_char(&mut fts, '"');
        assert(q@.take(n as int) =~= q@);
        proof {
            if no_double_quote(q@) {
                lemma_quotes_doubled_plain(q@);
            }
        }
        return SearchPlan::Fts(fts);
    }
    let mut pattern = String::new();
    push_char(&mut pattern, '%');
    let escaped = escape_like(q.as_str());
    pattern.append(escaped.as_str());
    push_char(&mut pattern, '%');
    SearchPlan::Like { pattern, query: q }
}


// ---------------------------------------------------------------------------
// Snippets of `LIKE` hits.
//
// The match is looked for in the lower-cased body, and the byte offset found
// there cuts the body itself. Where lower-casing changes the UTF-8 length
// of what comes before the match, that offset may fall inside a character of
// the body, where a `str` cannot be sliced: those inputs are left out of
// `like_snippet`, and `try_like_snippet` says when they occur.
// ---------------------------------------------------------------------------

/// The UTF-8 length of a character sequence.
pub open spec fn utf8_len(s: Seq<char>) -> int {
    encode_utf8(s).len() as int
}

/// The first position at or after `from` where `needle` occurs in `hay`.
pub open spec fn find_from(hay: Seq<u8>, needle: Seq<u8>, from: nat) -> Option<nat>
    decreases hay.len() + 1 - from,
{
    if from + needle.len() > hay.len() {
        None
    } else if hay.subrange(from as int, (from + needle.len()) as int) == needle {
        Some(from)
    } else {
        find_from(hay, needle, from + 1)
    }
}

/// The number of characters of `s` whose UTF-8 encoding is the first `k`
/// bytes of `s`'s, if `k` falls between two characters.
pub open spec fn chars_before(s: Seq<char>, k: int) -> Option<int> {
    if exists|c: int| 0 <= c <= s.len() && utf8_len(s.take(c)) == k {
        Some(choose|c: int| 0 <= c <= s.len() && utf8_len(s.take(c)) == k)
    } else {
        None
    }
}

/// The first `n` characters of `s`, or all of them.
pub open spec fn first_chars(s: Seq<char>, n: int) -> Seq<char> {
    if s.len() <= n {
        s
    } else {
        s.take(n)
    }
}

/// The last `n` characters of `s`, or all of them.
pub open spec fn last_chars(s: Seq<char>, n: int) -> Seq<char> {
    if s.len() <= n {
        s
    } else {
        s.skip(s.len() - n)
    }
}

/// A snippet of `body` around the `m` characters from position `c`.
pub open spec fn snippet_at(body: Seq<char>, c: int, m: int) -> Seq<char> {
    let matched = first_chars(body.skip(c), m);
    last_chars(body.take(c), 30) + seq![HIGHLIGHT_OPEN] + matched + seq![HIGHLIGHT_CLOSE]
        + first_chars(body.skip(c + matched.len()), 30)
}

/// The byte offset of the first match of the lower-cased query in the
/// lower-cased body.
pub open spec fn match_offset(body: Seq<char>, query: Seq<char>) -> Option<nat> {
    find_from(encode_utf8(unicode_lowercase(body)), encode_utf8(unicode_lowercase(query)), 0)
}

/// Cutting `body` at the match offset does not panic.
pub open spec fn snippet_defined(body: Seq<char>, query: Seq<char>) -> bool {
    match match_offset(body, query) {
        None => true,
        Some(k) => chars_before(body, k as int) is Some,
    }
}

/// The snippet of a `LIKE` hit: the match with 30 characters of context on
/// each side, or the first 60 characters where the query does not occur.
pub open spec fn like_snippet_spec(body: Seq<char>, query: Seq<char>) -> Seq<char> {
    match match_offset(body, query) {
        None => first_chars(body, 60),
        Some(k) => snippet_at(body, chars_before(body, k as int)->Some_0, unicode_lowercase(query).len() as int),
    }
}

proof fn lemma_encode_utf8_append(a: Seq<char>, b: Seq<char>)
    ensures
        encode_utf8(a + b) == encode_utf8(a) + encode_utf8(b),
    decreases a.len(),
{
    if a.len() == 0 {
        assert(a + b =~= b);
        assert(encode_utf8(a) =~= Seq::<u8>::empty());
        assert(encode_utf8(a) + encode_utf8(b) =~= encode_utf8(b));
    } else {
        lemma_encode_utf8_append(a.drop_first(), b);
        assert((a + b).drop_first() =~= a.drop_first() + b);
        assert((a + b)[0] == a[0]);
        assert(encode_utf8(a + b) =~= encode_scalar(a[0] as u32) + encode_utf8(a.drop_first() + b));
    }
}

/// The width of the UTF-8 encoding of a character.
pub open spec fn char_width(ch: char) -> int {
    encode_scalar(ch as u32).len() as int
}

proof fn lemma_utf8_len_step(s: Seq<char>, c: int)
    requires
        0 <= c < s.len(),
    ensures
        utf8_len(s.take(c + 1)) == utf8_len(s.take(c)) + char_width(s[c]),
        1 <= char_width(s[c]) <= 4,
{
    assert(s.take(c + 1) =~= s.take(c) + seq![s[c]]);
    lemma_encode_utf8_append(s.take(c), seq![s[c]]);
    assert(seq![s[c]].drop_first() =~= Seq::<char>::empty());
    assert(encode_utf8(seq![s[c]]) =~= encode_scalar(s[c] as u32) + encode_utf8(Seq::<char>::empty()));
    assert(encode_utf8(Seq::<char>::empty()) =~= Seq::<u8>::empty());
    assert(encode_utf8(seq![s[c]]) =~= encode_scalar(s[c] as u32));
}

/// Longer prefixes have longer encodings.
proof fn lemma_utf8_len_increasing(s: Seq<char>, c1: int, c2: int)
    requires
        0 <= c1 < c2 <= s.len(),
    ensures
        utf8_len(s.take(c1)) < utf8_len(s.take(c2)),
    decreases c2 - c1,
{
    lemma_utf8_len_step(s, c2 - 1);
    if c1 < c2 - 1 {
        lemma_utf8_len_increasing(s, c1, c2 - 1);
    }
}

fn utf8_width(ch: char) -> (w: usize)
    ensures
        w == char_width(ch),
{
    let v = ch as u32;
    if v < 0x80 {
        1
    } else if v < 0x800 {
        2
    } else if v < 0x10000 {
        3
    } else {
        4
    }
}

/// Whether `hay[at..at + needle.len()]` is `needle`.
fn bytes_match_at(hay: &[u8], at: usize, needle: &[u8]) -> (res: bool)
    requires
        at + needle@.len() <= hay@.len(),
    ensures
        res == (hay@.subrange(at as int, at + needle@.len()) == needle@),
{
    let m = needle.len();
    for q in 0..m
        invariant
            m == needle@.len(),
            at + m <= hay@.len(),
            hay@.len() == hay.len(),
            forall|r: int| 0 <= r < q ==> hay@[at + r] == needle@[r],
    {
        if hay[at + q] != needle[q] {
            assert(hay@.subrange(at as int, at + m)[q as int] != needle@[q as int]);
            return false;
        }
    }
    assert(hay@.subrange(at as int, at + m) =~= needle@);
    true
}

/// `str::find` on the bytes: the first offset where `needle` occurs.
fn find_bytes(hay: &[u8], needle: &[u8]) -> (res: Option<usize>)
    ensures
        match res {
            Some(k) => find_from(hay@, needle@, 0) == Some(k as nat),
            None => find_from(hay@, needle@, 0) is None,
        },
{
    let n = hay.len();
    let m = needle.len();
    if m > n {
        return None;
    }
    let last = n - m;
    let mut i: usize = 0;
    while i < last
        invariant
            n == hay@.len(),
            m == needle@.len(),
            last == n - m,
            i <= last,
            find_from(hay@, needle@, 0) == find_from(hay@, needle@, i as nat),
        decreases last - i,
    {
        if bytes_match_at(hay, i, needle) {
            return Some(i);
        }
        i += 1;
    }
    if bytes_match_at(hay, last, needle) {
        Some(last)
    } else {
        proof {
            assert(find_from(hay@, needle@, (last + 1) as nat) is None);
        }
        None
    }
}

/// The number of characters whose encoding takes the first `k` bytes.
fn char_index_at_byte(chars: &Vec<char>, k: usize) -> (res: Option<usize>)
    ensures
        match res {
            Some(c) => chars_before(chars@, k as int) == Some(c as int),
            None => chars_before(chars@, k as int) is None,
        },
{
    let n = chars.len();
    let mut c: usize = 0;
    let mut remaining: usize = k;
    assert(chars@.take(0) =~= Seq::<char>::empty());
    assert(encode_utf8(Seq::<char>::empty()) =~= Seq::<u8>::empty());
    while remaining > 0 && c < n
        invariant
            n == chars@.len(),
            c <= n,
            remaining <= k,
            utf8_len(chars@.take(c as int)) + remaining == k,
        decreases n - c,
    {
        let w = utf8_width(chars[c]);
        proof {
            lemma_utf8_len_step(chars@, c as int);
        }
        if w > remaining {
            proof {
                assert forall|c2: int| 0 <= c2 <= chars@.len() implies utf8_len(chars@.take(c2)) != k by {
                    if c2 < c + 1 {
                        if c2 < c {
                            lemma_utf8_len_increasing(chars@, c2, c as int);
                        }
                    } else if c2 > c + 1 {
                        lemma_utf8_len_increasing(chars@, c + 1, c2);
                    }
                }
            }
            return None;
        }
        remaining -= w;
        c += 1;
    }
    if remaining == 0 {
        proof {
            let c0 = choose|c2: int| 0 <= c2 <= chars@.len() && utf8_len(chars@.take(c2)) == k;
            if c0 < c {
                lemma_utf8_len_increasing(chars@, c0, c as int);
            } else if c0 > c {
                lemma_utf8_len_increasing(chars@, c as int, c0);
            }
        }
        Some(c)
    } else {
        proof {
            assert forall|c2: int| 0 <= c2 <= chars@.len() implies utf8_len(chars@.take(c2)) != k by {
                if c2 < c {
                    lemma_utf8_len_increasing(chars@, c2, c as int);
                }
            }
        }
        None
    }
}

/// `chars[from..to]` as a string.
fn chars_string(chars: &Vec<char>, from: usize, to: usize) -> (s: String)
    requires
        from <= to <= chars@.len(),
    ensures
        s@ == chars@.subrange(from as int, to as int),
{
    let part = slice_subrange(chars.as_slice(), from, to);
    string_of(part)
}

/// The snippet, given the lower-cased body and query; `None` where the
/// match offset falls inside a character of `body`.
fn snippet_with(body: &str, lower_body: &str, lower_query: &str) -> (res: Option<String>)
    ensures
        match find_from(lower_body.spec_bytes(), lower_query.spec_bytes(), 0) {
            None => res matches Some(s) && s@ == first_chars(body@, 60),
            Some(k) => match chars_before(body@, k as int) {
                None => res is None,
                Some(c) => res matches Some(s) && s@ == snippet_at(body@, c, lower_query@.len() as int),
            },
        },
{
    let chars = chars_of(body);
    let n = chars.len();
    match find_bytes(lower_body.as_bytes(), lower_query.as_bytes()) {
        None => {
            let end = if n <= 60 {
                n
            } else {
                60
            };
            let s = chars_string(&chars, 0, end);
            assert(s@ =~= first_chars(body@, 60));
            Some(s)
        },
        Some(k) => match char_index_at_byte(&chars, k) {
            None => None,
            Some(c) => {
                let m = chars_of(lower_query).len();
                let start = if c >= 30 {
                    c - 30
                } else {
                    0
                };
                let mend = if m <= n - c {
                    c + m
                } else {
                    n
                };
                let send = if 30 <= n - mend {
                    mend + 30
                } else {
                    n
                };
                let mut s = chars_string(&chars, start, c);
                push_char(&mut s, HIGHLIGHT_OPEN);
                let matched = chars_string(&chars, c, mend);
                s.append(matched.as_str());
                push_char(&mut s, HIGHLIGHT_CLOSE);
                let suffix = chars_string(&chars, mend, send);
                s.append(suffix.as_str());
                proof {
                    let b = body@;
                    let mt = first_chars(b.skip(c as int), m as int);
                    assert(mt =~= b.subrange(c as int, mend as int));
                    assert(last_chars(b.take(c as int), 30) =~= b.subrange(start as int, c as int));
                    assert(first_chars(b.skip(c + mt.len()), 30) =~= b.subrange(mend as int, send as int));
                    assert(s@ =~= snippet_at(b, c as int, m as int));
                }
                Some(s)
            },
        },
    }
}

/// The snippet of a `LIKE` hit (see `like_snippet_spec`).
pub fn like_snippet(body: &str, query: &str) -> (snippet: String)
    requires
        snippet_defined(body@, query@),
    ensures
        snippet@ == like_snippet_spec(body@, query@),
{
    let lower_body = to_lowercase(body);
    let lower_query = to_lowercase(query);
    match snippet_with(body, lower_body.as_str(), lower_query.as_str()) {
        Some(s) => s,
        None => {
            assert(false);
            String::new()
        },
    }
}

/// Whether cutting `body` at the match offset is sound.
fn snippet_defined_exec(body: &str, query: &str) -> (res: bool)
    ensures
        res == snippet_defined(body@, query@),
{
    let lower_body = to_lowercase(body);
    let lower_query = to_lowercase(query);
    match find_bytes(lower_body.as_str().as_bytes(), lower_query.as_str().as_bytes()) {
        None => true,
        Some(k) => {
            let chars = chars_of(body);
            char_index_at_byte(&chars, k).is_some()
        },
    }
}

/// The snippet of a `LIKE` hit, or `None` where cutting the body at the
/// match offset would split a character (where `like_snippet` does not
/// apply).
pub fn try_like_snippet(body: &str, query: &str) -> (res: Option<String>)
    ensures
        match res {
            Some(s) => snippet_defined(body@, query@) && s@ == like_snippet_spec(body@, query@),
            None => !snippet_defined(body@, query@),
        },
{
    if snippet_defined_exec(body, query) {
        Some(like_snippet(body, query))
    } else {
        None
    }
}

} // verus!
