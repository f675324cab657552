//! Documents: their JSON shape, titles, validation and listing order.
//! Reading, writing and renaming the files happen outside the library.
use vstd::prelude::*;
use crate::crypto::{decode_encrypted_file, decode_encrypted_spec, MK_LEN};
use crate::json::{field_index, json_get, lemma_field_index, member_count, or_default, str_eq, str_field, u64_field, Json};
use crate::text::{is_hex_lower_char, contains_seq, decimal, ends_with, is_err_with, lemma_seq_lt_asymmetric, lemma_seq_lt_transitive, push_decimal, seq_lt, str_contains, str_ends_with, str_lt, str_trim_end_matches, strip_suffix_all, trim, trim_string};
use crate::vault::{format_version_of, is_temp_name, new_id, now_rfc3339, rfc3339_utc_shape};
use crate::crypto::random_token_hex;
use crate::recovery::ascii_lower;

verus! {

pub const DOC_FORMAT_VERSION: u64 = 1;

/// What a listing shows of a document.
#[derive(Debug)]
pub struct DocMeta {
    pub id: String,
    pub title: String,
    pub created_at: String,
    pub updated_at: String,
}

/// The documents of a directory, newest first, and a warning for each file
/// that could not be read.
#[derive(Debug)]
pub struct DocList {
    pub docs: Vec<DocMeta>,
    pub warnings: Vec<String>,
}

/// A member's value is smaller than the object holding it.
pub proof fn lemma_get_decreases(node: Json, key: Seq<char>)
    ensures
        json_get(node, key) matches Some(v) ==> decreases_to!(node => v),
{
    if let Json::Object(fields) = node {
        let i = field_index(fields@, key);
        if i >= 0 {
            lemma_field_index(fields@, key);
            assert(decreases_to!(fields => fields@));
            assert(decreases_to!(fields@ => fields@[i]));
        }
    }
}

/// The text of an editor node: a `text` node's own text, or the text of its
/// children, in order.
pub open spec fn text_of(node: Json) -> Seq<char>
    decreases node,
{
    if str_field(node, "type"@) == Some("text"@) {
        or_default(str_field(node, "text"@), Seq::empty())
    } else {
        match json_get(node, "content"@) {
            Some(Json::Array(children)) => {
                proof {
                    lemma_get_decreases(node, "content"@);
                }
                texts_of(children@)
            },
            _ => Seq::empty(),
        }
    }
}

/// The texts of `nodes`, one after another.
pub open spec fn texts_of(nodes: Seq<Json>) -> Seq<char>
    decreases nodes,
{
    if nodes.len() == 0 {
        Seq::empty()
    } else {
        texts_of(nodes.drop_last()) + text_of(nodes.last())
    }
}

/// Appends the text of an editor node to `out`.
pub fn collect_text(node: &Json, out: &mut String)
    ensures
        final(out)@ == old(out)@ + text_of(*node),
    decreases node,
{
    let is_text = match node.get("type") {
        Some(t) => match t.as_str() {
            Some(s) => str_eq(s, "text"),
            None => false,
        },
        None => false,
    };
    if is_text {
        match node.get("text") {
            Some(t) => match t.as_str() {
                Some(s) => out.append(s),
                None => {},
            },
            None => {},
        }
        assert(old(out)@ + Seq::<char>::empty() =~= old(out)@);
        return;
    }
    match node.get("content") {
        Some(c) => match c {
            Json::Array(children) => {
                proof {
                    lemma_get_decreases(*node, "content"@);
                }
                let n = children.len();
                for i in 0..n
                    invariant
                        n == children@.len(),
                        json_get(*node, "content"@) == Some(Json::Array(*children)),
                        decreases_to!(*node => *children),
                        str_field(*node, "type"@) != Some("text"@),
                        out@ == old(out)@ + texts_of(children@.take(i as int)),
                {
                    assert(decreases_to!(*children => children@));
                    collect_text(&children[i], out);
                    assert(children@.take(i + 1).drop_last() =~= children@.take(i as int));
                }
                assert(children@.take(n as int) =~= children@);
            },
            _ => {
                assert(old(out)@ + Seq::<char>::empty() =~= old(out)@);
            },
        },
        None => {
            assert(old(out)@ + Seq::<char>::empty() =~= old(out)@);
        },
    }
}

/// The texts of two runs of nodes, one after the other, are the texts of
/// the whole run.
pub proof fn lemma_texts_of_append(a: Seq<Json>, b: Seq<Json>)
    ensures
        texts_of(a + b) == texts_of(a) + texts_of(b),
    decreases b.len(),
{
    if b.len() == 0 {
        assert(a + b =~= a);
        assert(texts_of(a) + texts_of(b) =~= texts_of(a));
    } else {
        lemma_texts_of_append(a, b.drop_last());
        assert((a + b).drop_last() =~= a + b.drop_last());
        assert((a + b).last() == b.last());
        assert(texts_of(a) + texts_of(b.drop_last()) + text_of(b.last())
            =~= texts_of(a) + (texts_of(b.drop_last()) + text_of(b.last())));
    }
}

/// A node that is not a `text` node and holds the nodes `children`.
pub open spec fn holds_children(node: Json, children: Seq<Json>) -> bool {
    &&& str_field(node, "type"@) != Some("text"@)
    &&& json_get(node, "content"@) matches Some(Json::Array(v)) && v@ == children
}

/// The text of a node that holds no children is empty.
pub proof fn lemma_text_of_no_children(node: Json)
    requires
        holds_children(node, Seq::empty()),
    ensures
        text_of(node) == Seq::<char>::empty(),
{
}

/// A node that holds a single child, of whatever kind (a list item, a
/// paragraph, a text), has that child's text: text is found however deep
/// it is nested.
pub proof fn lemma_text_of_single_child(node: Json, child: Json)
    requires
        holds_children(node, seq![child]),
    ensures
        text_of(node) == text_of(child),
{
    let s = seq![child];
    assert(s.drop_last() =~= Seq::<Json>::empty());
    assert(s.last() == child);
    assert(text_of(node) == texts_of(s));
    assert(texts_of(s.drop_last()) =~= Seq::<char>::empty());
    assert(texts_of(s) == texts_of(s.drop_last()) + text_of(child));
    assert(Seq::<char>::empty() + text_of(child) =~= text_of(child));
}

/// The text of a node is the texts of its children one after the other:
/// where `node` holds the children of `first` followed by those of
/// `second`, its text is the text of `first` followed by that of `second`.
pub proof fn lemma_text_of_split(node: Json, first: Json, second: Json, a: Seq<Json>, b: Seq<Json>)
    requires
        holds_children(node, a + b),
        holds_children(first, a),
        holds_children(second, b),
    ensures
        text_of(node) == text_of(first) + text_of(second),
{
    lemma_texts_of_append(a, b);
}

/// The text of a `text` node is its `text` member.
pub proof fn lemma_text_of_text_node(node: Json, t: Seq<char>)
    requires
        str_field(node, "type"@) == Some("text"@),
        str_field(node, "text"@) == Some(t),
    ensures
        text_of(node) == t,
{
}

/// The top-level blocks of a document's body (`doc.content.content`).
pub open spec fn body_blocks(doc: Json) -> Seq<Json> {
    match json_get(doc, "content"@) {
        Some(c) => match json_get(c, "content"@) {
            Some(Json::Array(nodes)) => nodes@,
            _ => Seq::empty(),
        },
        None => Seq::empty(),
    }
}

/// The first heading among `blocks`.
pub open spec fn first_heading(blocks: Seq<Json>) -> Option<Json>
    decreases blocks.len(),
{
    if blocks.len() == 0 {
        None
    } else if str_field(blocks[0], "type"@) == Some("heading"@) {
        Some(blocks[0])
    } else {
        first_heading(blocks.drop_first())
    }
}

/// The trimmed text of a block, if there is one.
pub open spec fn block_title(block: Option<Json>) -> Seq<char> {
    match block {
        Some(n) => trim(text_of(n)),
        None => Seq::empty(),
    }
}

/// A document's title, derived from its body: the text of its first
/// heading; where that is missing or blank, the text of its first line
/// (block); where that is blank too, "Untitled". Surrounding whitespace is
/// trimmed.
pub open spec fn title_of(doc: Json) -> Seq<char> {
    let blocks = body_blocks(doc);
    let heading = block_title(first_heading(blocks));
    let line = block_title(if blocks.len() > 0 { Some(blocks[0]) } else { None });
    if heading.len() > 0 {
        heading
    } else if line.len() > 0 {
        line
    } else {
        "Untitled"@
    }
}

/// `doc`'s body is the blocks `blocks`.
pub open spec fn body_is(doc: Json, blocks: Seq<Json>) -> bool {
    json_get(doc, "content"@) matches Some(c) && (json_get(c, "content"@) matches Some(Json::Array(v)) && v@ == blocks)
}

/// Whether a block is a heading.
pub open spec fn is_heading_block(block: Json) -> bool {
    str_field(block, "type"@) == Some("heading"@)
}

/// The first heading is the heading that no other heading comes before.
proof fn lemma_first_heading_at(blocks: Seq<Json>, k: int)
    requires
        0 <= k < blocks.len(),
        is_heading_block(blocks[k]),
        forall|j: int| 0 <= j < k ==> !is_heading_block(#[trigger] blocks[j]),
    ensures
        first_heading(blocks) == Some(blocks[k]),
    decreases k,
{
    if k > 0 {
        assert(!is_heading_block(blocks[0]));
        assert forall|j: int| 0 <= j < k - 1 implies !is_heading_block(#[trigger] blocks.drop_first()[j]) by {
            assert(blocks.drop_first()[j] == blocks[j + 1]);
        }
        assert(blocks.drop_first()[k - 1] == blocks[k]);
        lemma_first_heading_at(blocks.drop_first(), k - 1);
    }
}

/// Without a heading there is no first heading.
proof fn lemma_first_heading_none(blocks: Seq<Json>)
    requires
        forall|j: int| 0 <= j < blocks.len() ==> !is_heading_block(#[trigger] blocks[j]),
    ensures
        first_heading(blocks) is None,
    decreases blocks.len(),
{
    if blocks.len() > 0 {
        assert(!is_heading_block(blocks[0]));
        assert forall|j: int| 0 <= j < blocks.drop_first().len() implies !is_heading_block(#[trigger] blocks.drop_first()[j]) by {
            assert(blocks.drop_first()[j] == blocks[j + 1]);
        }
        lemma_first_heading_none(blocks.drop_first());
    }
}

/// The title comes from the first heading of the body, whatever headings
/// follow it: where `blocks[k]` is a heading and none comes before it, the
/// title is its trimmed text; where that text is blank, the title is the
/// trimmed text of the first block, or "Untitled" where that is blank too.
pub proof fn lemma_title_from_first_heading(doc: Json, blocks: Seq<Json>, k: int)
    requires
        body_is(doc, blocks),
        0 <= k < blocks.len(),
        is_heading_block(blocks[k]),
        forall|j: int| 0 <= j < k ==> !is_heading_block(#[trigger] blocks[j]),
    ensures
        trim(text_of(blocks[k])).len() > 0 ==> title_of(doc) == trim(text_of(blocks[k])),
        trim(text_of(blocks[k])).len() == 0 ==> title_of(doc) == if trim(text_of(blocks[0])).len() > 0 {
            trim(text_of(blocks[0]))
        } else {
            "Untitled"@
        },
{
    assert(body_blocks(doc) == blocks);
    lemma_first_heading_at(blocks, k);
}

/// Without any heading, the title is the trimmed text of the first block,
/// or "Untitled" where there is none or it is blank.
pub proof fn lemma_title_without_heading(doc: Json, blocks: Seq<Json>)
    requires
        body_is(doc, blocks),
        forall|j: int| 0 <= j < blocks.len() ==> !is_heading_block(#[trigger] blocks[j]),
    ensures
        title_of(doc) == if blocks.len() > 0 && trim(text_of(blocks[0])).len() > 0 {
            trim(text_of(blocks[0]))
        } else {
            "Untitled"@
        },
{
    assert(body_blocks(doc) == blocks);
    lemma_first_heading_none(blocks);
}

/// The trimmed text of a block.
fn block_text(block: &Json) -> (t: String)
    ensures
        t@ == trim(text_of(*block)),
{
    let mut text = String::new();
    collect_text(block, &mut text);
    trim_string(text.as_str())
}

/// Whether a block is a heading.
fn is_heading(block: &Json) -> (res: bool)
    ensures
        res == (str_field(*block, "type"@) == Some("heading"@)),
{
    match block.get("type") {
        Some(t) => match t.as_str() {
            Some(s) => str_eq(s, "heading"),
            None => false,
        },
        None => false,
    }
}

fn derive_title(doc: &Json) -> (title: String)
    ensures
        title@ == title_of(*doc),
{
    let empty: Vec<Json> = Vec::new();
    let blocks = match doc.get("content") {
        Some(c) => match c.get("content") {
            Some(nodes) => match nodes {
                Json::Array(nodes) => nodes,
                _ => &empty,
            },
            None => &empty,
        },
        None => &empty,
    };
    assert(blocks@ == body_blocks(*doc));
    let n = blocks.len();
    let mut i: usize = 0;
    assert(blocks@.skip(0) =~= blocks@);
    while i < n && !is_heading(&blocks[i])
        invariant
            i <= n,
            n == blocks@.len(),
            first_heading(blocks@) == first_heading(blocks@.skip(i as int)),
        decreases n - i,
    {
        assert(blocks@.skip(i as int).drop_first() =~= blocks@.skip(i + 1));
        i += 1;
    }
    let heading = if i < n {
        assert(blocks@.skip(i as int)[0] == blocks@[i as int]);
        block_text(&blocks[i])
    } else {
        assert(blocks@.skip(i as int).len() == 0);
        String::new()
    };
    if !heading.as_str().is_empty() {
        return heading;
    }
    let line = if n > 0 {
        block_text(&blocks[0])
    } else {
        String::new()
    };
    if !line.as_str().is_empty() {
        return line;
    }
    String::from_str("Untitled")
}

/// The string member `key`, or "" where there is none.
fn string_field(doc: &Json, key: &str) -> (s: String)
    ensures
        s@ == or_default(str_field(*doc, key@), Seq::empty()),
{
    match doc.get(key) {
        Some(v) => match v.as_str() {
            Some(t) => String::from_str(t),
            None => String::new(),
        },
        None => String::new(),
    }
}

/// `meta` is what a listing shows of `doc`.
pub open spec fn meta_matches(meta: DocMeta, doc: Json) -> bool {
    &&& meta.id@ == or_default(str_field(doc, "id"@), Seq::empty())
    &&& meta.title@ == title_of(doc)
    &&& meta.created_at@ == or_default(str_field(doc, "createdAt"@), Seq::empty())
    &&& meta.updated_at@ == or_default(str_field(doc, "updatedAt"@), Seq::empty())
}

/// What a listing shows of a document.
pub fn meta_of(doc: &Json) -> (meta: DocMeta)
    ensures
        meta_matches(meta, *doc),
{
    DocMeta {
        id: string_field(doc, "id"),
        title: derive_title(doc),
        created_at: string_field(doc, "createdAt"),
        updated_at: string_field(doc, "updatedAt"),
    }
}

/// Why the document read from `path` as `id` cannot be used, if it cannot.
pub open spec fn doc_problem(doc: Json, id: Seq<char>, path: Seq<char>) -> Option<Seq<char>> {
    match u64_field(doc, "formatVersion"@) {
        None => Some("missing formatVersion in "@ + path),
        Some(v) => if v > DOC_FORMAT_VERSION {
            Some("document "@ + id + " requires a newer version of Inkstone (formatVersion "@ + decimal(v as nat) + ")"@)
        } else if str_field(doc, "id"@) != Some(id) {
            Some("document "@ + id + ": id does not match file name"@)
        } else {
            None
        },
    }
}

/// Checks a document read from `path` under the id its file name gives:
/// its format must not be newer than this version's and its own id must
/// match.
fn check_doc(doc: &Json, id: &str, path: &str) -> (res: Result<(), String>)
    ensures
        match res {
            Ok(()) => *doc is Object && doc_problem(*doc, id@, path@) is None,
            Err(e) => doc_problem(*doc, id@, path@) == Some(e@),
        },
{
    let format_version = match format_version_of(doc, path) {
        Ok(v) => v,
        Err(e) => return Err(e),
    };
    if format_version > DOC_FORMAT_VERSION {
        let mut msg = String::from_str("document ");
        msg.append(id);
        msg.append(" requires a newer version of Inkstone (formatVersion ");
        push_decimal(&mut msg, format_version);
        msg.append(")");
        return Err(msg);
    }
    let matches = match doc.get("id") {
        Some(v) => match v.as_str() {
            Some(s) => str_eq(s, id),
            None => false,
        },
        None => false,
    };
    if !matches {
        let mut msg = String::from_str("document ");
        msg.append(id);
        msg.append(": id does not match file name");
        return Err(msg);
    }
    Ok(())
}

/// The document read from `path` as `id`, once checked (see `doc_problem`).
pub fn validate_doc(doc: Json, id: &str, path: &str) -> (res: Result<Json, String>)
    ensures
        match res {
            Ok(d) => d == doc && doc is Object && doc_problem(doc, id@, path@) is None,
            Err(e) => doc_problem(doc, id@, path@) == Some(e@),
        },
{
    match check_doc(&doc, id, path) {
        Ok(()) => Ok(doc),
        Err(e) => Err(e),
    }
}

/// The JSON bytes of a document file read from `path`: the file itself in a
/// plaintext vault, its decrypted body under the master key otherwise.
pub fn doc_plaintext(bytes: Vec<u8>, key: Option<&[u8; MK_LEN]>, path: &str) -> (res: Result<Vec<u8>, String>)
    ensures
        match key {
            None => res matches Ok(v) && v@ == bytes@,
            Some(mk) => match decode_encrypted_spec(mk@, bytes@) {
                Ok(p) => res matches Ok(v) && v@ == p,
                Err(e) => is_err_with(res, path@ + ": "@ + e),
            },
        },
{
    match key {
        None => Ok(bytes),
        Some(mk) => match decode_encrypted_file(mk, bytes.as_slice()) {
            Ok(p) => Ok(p),
            Err(error) => {
                let mut msg = String::from_str(path);
                msg.append(": ");
                msg.append(error.as_str());
                Err(msg)
            },
        },
    }
}

/// The file extension of documents: "enc" in an encrypted vault, "json"
/// otherwise.
pub open spec fn extension_of(encrypted: bool) -> Seq<char> {
    if encrypted {
        "enc"@
    } else {
        "json"@
    }
}

pub fn extension(key: Option<&[u8; MK_LEN]>) -> (ext: &'static str)
    ensures
        ext@ == extension_of(key is Some),
{
    if key.is_some() {
        "enc"
    } else {
        "json"
    }
}

/// The file name of document `id`.
pub fn doc_file_name(id: &str, key: Option<&[u8; MK_LEN]>) -> (name: String)
    ensures
        name@ == id@ + "."@ + extension_of(key is Some),
{
    let mut name = String::from_str(id);
    name.append(".");
    name.append(extension(key));
    name
}


/// The id a directory entry's file name gives, for the names of documents
/// (`{id}.json`, or `{id}.enc` in an encrypted vault); the temporary files
/// of interrupted writes are skipped.
pub open spec fn listed_id(name: Seq<char>, encrypted: bool) -> Option<Seq<char>> {
    let suffix = "."@ + extension_of(encrypted);
    if ends_with(name, suffix) && !contains_seq(name, ".tmp-"@) {
        Some(strip_suffix_all(name, suffix))
    } else {
        None
    }
}

/// The temporary files of atomic writes are never listed as documents.
pub proof fn lemma_temp_files_are_not_listed(name: Seq<char>, encrypted: bool)
    requires
        is_temp_name(name),
    ensures
        listed_id(name, encrypted) is None,
{
}

/// The document id a file name gives, if it names a document.
pub fn doc_id_of(name: &str, key: Option<&[u8; MK_LEN]>) -> (id: Option<String>)
    ensures
        match id {
            Some(s) => listed_id(name@, key is Some) == Some(s@),
            None => listed_id(name@, key is Some) is None,
        },
{
    proof {
        reveal_strlit(".");
    }
    let mut suffix = String::from_str(".");
    suffix.append(extension(key));
    if !str_ends_with(name, suffix.as_str()) || str_contains(name, ".tmp-") {
        return None;
    }
    Some(str_trim_end_matches(name, suffix.as_str()))
}

/// A document file met while listing a directory: its path as displayed,
/// the id its name gives, and its parsed contents or why they could not be
/// read (the messages of reading, decrypting and parsing it).
pub struct DocFile {
    pub path: String,
    pub id: String,
    pub doc: Result<Json, String>,
}

/// A listing entry as values: id, title, creation and update times.
pub open spec fn meta_view(m: DocMeta) -> (Seq<char>, Seq<char>, Seq<char>, Seq<char>) {
    (m.id@, m.title@, m.created_at@, m.updated_at@)
}

/// The listing entry of a document, as values.
pub open spec fn doc_view(doc: Json) -> (Seq<char>, Seq<char>, Seq<char>, Seq<char>) {
    (
        or_default(str_field(doc, "id"@), Seq::empty()),
        title_of(doc),
        or_default(str_field(doc, "createdAt"@), Seq::empty()),
        or_default(str_field(doc, "updatedAt"@), Seq::empty()),
    )
}

/// What a file contributes to a listing: an entry, or a warning.
pub open spec fn file_outcome(f: DocFile) -> Result<(Seq<char>, Seq<char>, Seq<char>, Seq<char>), Seq<char>> {
    match f.doc {
        Ok(doc) => match doc_problem(doc, f.id@, f.path@) {
            None => Ok(doc_view(doc)),
            Some(e) => Err(f.path@ + ": "@ + e),
        },
        Err(e) => Err(f.path@ + ": "@ + e@),
    }
}

/// The entries of the files that can be listed, in file order.
pub open spec fn listed_views(files: Seq<DocFile>) -> Seq<(Seq<char>, Seq<char>, Seq<char>, Seq<char>)>
    decreases files.len(),
{
    if files.len() == 0 {
        Seq::empty()
    } else {
        let rest = listed_views(files.drop_last());
        match file_outcome(files.last()) {
            Ok(v) => rest.push(v),
            Err(_) => rest,
        }
    }
}

/// The warnings of the files that cannot be listed, in file order.
pub open spec fn listing_warnings(files: Seq<DocFile>) -> Seq<Seq<char>>
    decreases files.len(),
{
    if files.len() == 0 {
        Seq::empty()
    } else {
        let rest = listing_warnings(files.drop_last());
        match file_outcome(files.last()) {
            Ok(_) => rest,
            Err(w) => rest.push(w),
        }
    }
}

/// Entries ordered by update time, newest first.
pub open spec fn newest_first(v: Seq<(Seq<char>, Seq<char>, Seq<char>, Seq<char>)>) -> bool {
    forall|i: int, j: int| 0 <= i < j < v.len() ==> !seq_lt(#[trigger] v[i].3, #[trigger] v[j].3)
}

pub open spec fn views_of(docs: Seq<DocMeta>) -> Seq<(Seq<char>, Seq<char>, Seq<char>, Seq<char>)> {
    docs.map_values(|m: DocMeta| meta_view(m))
}

/// Inserting `x` at `p`, the first place whose entry is older, keeps the
/// order.
proof fn lemma_insert_keeps_order(v: Seq<(Seq<char>, Seq<char>, Seq<char>, Seq<char>)>, x: (Seq<char>, Seq<char>, Seq<char>, Seq<char>), p: int)
    requires
        newest_first(v),
        0 <= p <= v.len(),
        forall|i: int| 0 <= i < p ==> !seq_lt(#[trigger] v[i].3, x.3),
        p < v.len() ==> seq_lt(v[p].3, x.3),
    ensures
        newest_first(v.insert(p, x)),
{
    let w = v.insert(p, x);
    assert forall|i: int, j: int| 0 <= i < j < w.len() implies !seq_lt(#[trigger] w[i].3, #[trigger] w[j].3) by {
        if i < p && j < p {
            assert(w[i] == v[i] && w[j] == v[j]);
        } else if i < p && j == p {
            assert(w[i] == v[i] && w[j] == x);
        } else if i < p && j > p {
            assert(w[i] == v[i] && w[j] == v[j - 1]);
        } else if i == p {
            assert(w[i] == x && w[j] == v[j - 1]);
            if seq_lt(x.3, v[j - 1].3) {
                if p < j - 1 {
                    assert(!seq_lt(v[p].3, v[j - 1].3));
                    lemma_seq_lt_transitive(v[p].3, x.3, v[j - 1].3);
                } else {
                    lemma_seq_lt_asymmetric(v[p].3, x.3);
                }
            }
        } else {
            assert(w[i] == v[i - 1] && w[j] == v[j - 1]);
        }
    }
}

proof fn lemma_insert_multiset<A>(s: Seq<A>, p: int, x: A)
    requires
        0 <= p <= s.len(),
    ensures
        s.insert(p, x).to_multiset() =~= s.to_multiset().insert(x),
{
    broadcast use vstd::seq_lib::group_to_multiset_ensures;
    let t = s.insert(p, x);
    assert(t.remove(p) =~= s);
    assert(t[p] == x);
    assert(t.contains(x));
    assert(t.to_multiset().count(x) > 0);
}

/// Where a new entry updated at `key` goes: before the first older entry.
pub open spec fn insert_pos(v: Seq<(Seq<char>, Seq<char>, Seq<char>, Seq<char>)>, key: Seq<char>) -> int
    decreases v.len(),
{
    if v.len() == 0 {
        0
    } else if seq_lt(v[0].3, key) {
        0
    } else {
        1 + insert_pos(v.drop_first(), key)
    }
}

/// `v` with `x` inserted after every entry at least as new.
pub open spec fn insert_newest(v: Seq<(Seq<char>, Seq<char>, Seq<char>, Seq<char>)>, x: (Seq<char>, Seq<char>, Seq<char>, Seq<char>)) -> Seq<(Seq<char>, Seq<char>, Seq<char>, Seq<char>)> {
    v.insert(insert_pos(v, x.3), x)
}

/// Entries ordered newest first, entries updated at the same time keeping
/// their order (a stable sort).
pub open spec fn sort_newest_first(s: Seq<(Seq<char>, Seq<char>, Seq<char>, Seq<char>)>) -> Seq<(Seq<char>, Seq<char>, Seq<char>, Seq<char>)>
    decreases s.len(),
{
    if s.len() == 0 {
        Seq::empty()
    } else {
        insert_newest(sort_newest_first(s.drop_last()), s.last())
    }
}

proof fn lemma_insert_pos(v: Seq<(Seq<char>, Seq<char>, Seq<char>, Seq<char>)>, key: Seq<char>)
    ensures
        0 <= insert_pos(v, key) <= v.len(),
        forall|i: int| 0 <= i < insert_pos(v, key) ==> !seq_lt(#[trigger] v[i].3, key),
        insert_pos(v, key) < v.len() ==> seq_lt(v[insert_pos(v, key)].3, key),
    decreases v.len(),
{
    if v.len() > 0 && !seq_lt(v[0].3, key) {
        lemma_insert_pos(v.drop_first(), key);
        assert forall|i: int| 0 <= i < insert_pos(v, key) implies !seq_lt(#[trigger] v[i].3, key) by {
            if i > 0 {
                assert(v[i] == v.drop_first()[i - 1]);
            }
        }
    }
}

/// The position the first older entry is at is `insert_pos`.
proof fn lemma_insert_pos_at(v: Seq<(Seq<char>, Seq<char>, Seq<char>, Seq<char>)>, key: Seq<char>, p: int)
    requires
        0 <= p <= v.len(),
        forall|i: int| 0 <= i < p ==> !seq_lt(#[trigger] v[i].3, key),
        p < v.len() ==> seq_lt(v[p].3, key),
    ensures
        insert_pos(v, key) == p,
    decreases p,
{
    if p > 0 {
        assert(!seq_lt(v[0].3, key));
        assert forall|i: int| 0 <= i < p - 1 implies !seq_lt(#[trigger] v.drop_first()[i].3, key) by {
            assert(v.drop_first()[i] == v[i + 1]);
        }
        if p < v.len() {
            assert(v.drop_first()[p - 1] == v[p]);
        }
        lemma_insert_pos_at(v.drop_first(), key, p - 1);
    }
}

/// The stable sort is ordered newest first and holds the same entries.
pub proof fn lemma_sort_newest_first(s: Seq<(Seq<char>, Seq<char>, Seq<char>, Seq<char>)>)
    ensures
        newest_first(sort_newest_first(s)),
        sort_newest_first(s).to_multiset() == s.to_multiset(),
    decreases s.len(),
{
    broadcast use vstd::seq_lib::group_to_multiset_ensures;
    if s.len() == 0 {
        assert(sort_newest_first(s) =~= Seq::empty());
        assert(s =~= Seq::empty());
    } else {
        let rest = sort_newest_first(s.drop_last());
        lemma_sort_newest_first(s.drop_last());
        lemma_insert_pos(rest, s.last().3);
        lemma_insert_keeps_order(rest, s.last(), insert_pos(rest, s.last().3));
        lemma_insert_multiset(rest, insert_pos(rest, s.last().3), s.last());
        assert(s =~= s.drop_last().push(s.last()));
    }
}

/// Inserts `meta` after every entry that is at least as new.
fn insert_newest_first(docs: &mut Vec<DocMeta>, meta: DocMeta)
    ensures
        views_of(final(docs)@) == insert_newest(views_of(old(docs)@), meta_view(meta)),
{
    let n = docs.len();
    let mut p: usize = 0;
    while p < n && !str_lt(docs[p].updated_at.as_str(), meta.updated_at.as_str())
        invariant
            p <= n,
            n == docs@.len(),
            forall|i: int| 0 <= i < p ==> !seq_lt(#[trigger] docs@[i].updated_at@, meta.updated_at@),
        decreases n - p,
    {
        p += 1;
    }
    let ghost before = docs@;
    let ghost x = meta_view(meta);
    docs.insert(p, meta);
    proof {
        assert(views_of(docs@) =~= views_of(before).insert(p as int, x));
        assert forall|i: int| 0 <= i < p implies !seq_lt(#[trigger] views_of(before)[i].3, x.3) by {
            assert(views_of(before)[i] == meta_view(before[i]));
        }
        if p < n {
            assert(views_of(before)[p as int] == meta_view(before[p as int]));
        }
        lemma_insert_pos_at(views_of(before), x.3, p as int);
    }
}

/// `m` is the listing entry of the file `f`, which can be listed.
pub open spec fn entry_of_file(m: DocMeta, f: DocFile) -> bool {
    match f.doc {
        Ok(d) => doc_problem(d, f.id@, f.path@) is None && meta_matches(m, d),
        Err(_) => false,
    }
}

/// `m` is the listing entry of one of `files`.
pub open spec fn entry_of_some_file(m: DocMeta, files: Seq<DocFile>) -> bool {
    exists|k: int| 0 <= k < files.len() && #[trigger] entry_of_file(m, files[k])
}

/// `x` is the entry of the file `f`, which can be listed.
spec fn view_of_file(f: DocFile, x: (Seq<char>, Seq<char>, Seq<char>, Seq<char>)) -> bool {
    match f.doc {
        Ok(d) => doc_problem(d, f.id@, f.path@) is None && doc_view(d) == x,
        Err(_) => false,
    }
}

/// Every listed entry is that of a file that can be listed.
proof fn lemma_listed_views_from_files(files: Seq<DocFile>)
    ensures
        forall|x| #[trigger] listed_views(files).contains(x) ==> exists|k: int| 0 <= k < files.len() && #[trigger] view_of_file(files[k], x),
    decreases files.len(),
{
    if files.len() > 0 {
        let rest = files.drop_last();
        lemma_listed_views_from_files(rest);
        assert forall|x| #[trigger] listed_views(files).contains(x) implies exists|k: int| 0 <= k < files.len() && #[trigger] view_of_file(files[k], x) by {
            let lv = listed_views(rest);
            match file_outcome(files.last()) {
                Ok(v) => {
                    let j = choose|j: int| 0 <= j < lv.push(v).len() && lv.push(v)[j] == x;
                    if j < lv.len() {
                        assert(lv[j] == x);
                        assert(lv.contains(x));
                        let k = choose|k: int| 0 <= k < rest.len() && #[trigger] view_of_file(rest[k], x);
                        assert(files[k] == rest[k]);
                    } else {
                        assert(view_of_file(files[files.len() - 1], x));
                    }
                },
                Err(_) => {
                    let k = choose|k: int| 0 <= k < rest.len() && #[trigger] view_of_file(rest[k], x);
                    assert(files[k] == rest[k]);
                },
            }
        }
    }
}

/// Entries that are, as a multiset, the listed entries of `files` are each
/// the entry of a file that can be listed.
proof fn lemma_entries_from_files(files: Seq<DocFile>, docs: Seq<DocMeta>)
    requires
        views_of(docs).to_multiset() == listed_views(files).to_multiset(),
    ensures
        forall|i: int| 0 <= i < docs.len() ==> #[trigger] entry_of_some_file(docs[i], files),
{
    broadcast use vstd::seq_lib::group_to_multiset_ensures;
    let lv = listed_views(files);
    let vs = views_of(docs);
    lemma_listed_views_from_files(files);
    assert forall|i: int| 0 <= i < docs.len() implies #[trigger] entry_of_some_file(docs[i], files) by {
        let x = meta_view(docs[i]);
        assert(vs[i] == x);
        assert(vs.contains(x));
        assert(vs.to_multiset().count(x) > 0);
        assert(lv.contains(x));
        let k = choose|k: int| 0 <= k < files.len() && #[trigger] view_of_file(files[k], x);
        assert(entry_of_file(docs[i], files[k]));
    }
}

fn warning(path: &String, error: &String) -> (w: String)
    ensures
        w@ == path@ + ": "@ + error@,
{
    let mut w = path.clone();
    w.append(": ");
    w.append(error.as_str());
    w
}

/// Lists the document files of a directory: an entry for each file that
/// reads, parses and checks, newest first, and a warning for each other
/// one, in file order.
pub fn list(files: &[DocFile]) -> (res: DocList)
    ensures
        res.warnings@.map_values(|w: String| w@) == listing_warnings(files@),
        views_of(res.docs@) == sort_newest_first(listed_views(files@)),
        newest_first(views_of(res.docs@)),
        views_of(res.docs@).to_multiset() == listed_views(files@).to_multiset(),
        res.docs@.len() == listed_views(files@).len(),
        forall|i: int, j: int| 0 <= i < j < res.docs@.len()
            ==> !seq_lt(#[trigger] res.docs@[i].updated_at@, #[trigger] res.docs@[j].updated_at@),
        forall|i: int| 0 <= i < res.docs@.len() ==> #[trigger] entry_of_some_file(res.docs@[i], files@),
{
    let mut docs: Vec<DocMeta> = Vec::new();
    let mut warnings: Vec<String> = Vec::new();
    let n = files.len();
    proof {
        assert(files@.take(0) =~= Seq::<DocFile>::empty());
        assert(views_of(docs@) =~= Seq::empty());
        assert(sort_newest_first(listed_views(files@.take(0))) =~= Seq::empty());
    }
    for i in 0..n
        invariant
            n == files@.len(),
            warnings@.map_values(|w: String| w@) == listing_warnings(files@.take(i as int)),
            views_of(docs@) == sort_newest_first(listed_views(files@.take(i as int))),
    {
        let f = &files[i];
        proof {
            assert(files@.take(i + 1).drop_last() =~= files@.take(i as int));
            assert(files@.take(i + 1).last() == files@[i as int]);
        }
        let ghost ws = warnings@;
        match &f.doc {
            Ok(doc) => match check_doc(doc, f.id.as_str(), f.path.as_str()) {
                Ok(()) => {
                    let meta = meta_of(doc);
                    proof {
                        let lv = listed_views(files@.take(i as int)).push(doc_view(*doc));
                        assert(listed_views(files@.take(i + 1)) == lv);
                        assert(lv.drop_last() =~= listed_views(files@.take(i as int)));
                    }
                    insert_newest_first(&mut docs, meta);
                },
                Err(e) => {
                    warnings.push(warning(&f.path, &e));
                    assert(warnings@.map_values(|w: String| w@) =~= ws.map_values(|w: String| w@).push(f.path@ + ": "@ + e@));
                },
            },
            Err(e) => {
                warnings.push(warning(&f.path, e));
                assert(warnings@.map_values(|w: String| w@) =~= ws.map_values(|w: String| w@).push(f.path@ + ": "@ + e@));
            },
        }
    }
    assert(files@.take(n as int) =~= files@);
    proof {
        broadcast use vstd::seq_lib::group_to_multiset_ensures;
        let lv = listed_views(files@);
        let vs = views_of(docs@);
        lemma_sort_newest_first(lv);
        assert(vs.len() == docs@.len());
        assert(vs.to_multiset().len() == vs.len());
        assert(lv.to_multiset().len() == lv.len());
        assert forall|i: int, j: int| 0 <= i < j < docs@.len()
            implies !seq_lt(#[trigger] docs@[i].updated_at@, #[trigger] docs@[j].updated_at@) by {
            assert(vs[i] == meta_view(docs@[i]));
            assert(vs[j] == meta_view(docs@[j]));
            assert(!seq_lt(vs[i].3, vs[j].3));
        }
        lemma_entries_from_files(files@, docs@);
    }
    DocList { docs, warnings }
}


proof fn reveal_doc_names()
    ensures
        "formatVersion"@ != "id"@,
        "formatVersion"@ != "createdAt"@,
        "formatVersion"@ != "updatedAt"@,
        "formatVersion"@ != "tags"@,
        "formatVersion"@ != "content"@,
        "id"@ != "createdAt"@,
        "id"@ != "updatedAt"@,
        "id"@ != "tags"@,
        "id"@ != "content"@,
        "createdAt"@ != "updatedAt"@,
        "createdAt"@ != "tags"@,
        "createdAt"@ != "content"@,
        "updatedAt"@ != "tags"@,
        "updatedAt"@ != "content"@,
        "tags"@ != "content"@,
        "type"@ != "content"@,
        "paragraph"@ != "text"@,
        "paragraph"@ != "heading"@,
{
    reveal_strlit("formatVersion");
    reveal_strlit("id");
    reveal_strlit("createdAt");
    reveal_strlit("updatedAt");
    reveal_strlit("tags");
    reveal_strlit("content");
    reveal_strlit("type");
    reveal_strlit("paragraph");
    reveal_strlit("text");
    reveal_strlit("heading");
    assert("paragraph"@[0] != "heading"@[0]);
    assert("formatVersion"@[0] != "id"@[0]);
    assert("formatVersion"@[0] != "createdAt"@[0]);
    assert("formatVersion"@[0] != "updatedAt"@[0]);
    assert("formatVersion"@[0] != "tags"@[0]);
    assert("formatVersion"@[0] != "content"@[0]);
    assert("id"@[0] != "createdAt"@[0]);
    assert("id"@[0] != "updatedAt"@[0]);
    assert("id"@[0] != "tags"@[0]);
    assert("id"@[0] != "content"@[0]);
    assert("createdAt"@[0] != "updatedAt"@[0]);
    assert("createdAt"@[0] != "tags"@[0]);
    assert("createdAt"@[1] != "content"@[1]);
    assert("updatedAt"@[0] != "tags"@[0]);
    assert("updatedAt"@[0] != "content"@[0]);
    assert("tags"@[0] != "content"@[0]);
    assert("type"@[0] != "content"@[0]);
    assert("paragraph"@[0] != "text"@[0]);
}

/// The body of a new document: one empty paragraph.
pub open spec fn empty_body(content: Json) -> bool {
    &&& str_field(content, "type"@) == Some("doc"@)
    &&& json_get(content, "content"@) matches Some(Json::Array(blocks))
    &&& blocks@.len() == 1
    &&& blocks@[0] is Object
    &&& str_field(blocks@[0], "type"@) == Some("paragraph"@)
    &&& json_get(blocks@[0], "content"@) is None
    &&& member_count(content) == 2
    &&& forall|k: Seq<char>| k != "type"@ && k != "content"@ ==> #[trigger] json_get(content, k) is None
    &&& member_count(blocks@[0]) == 1
    &&& forall|k: Seq<char>| k != "type"@ ==> #[trigger] json_get(blocks@[0], k) is None
}

/// The members of a new document, and no others.
pub open spec fn doc_members_only(doc: Json) -> bool {
    &&& member_count(doc) == 6
    &&& forall|k: Seq<char>|
        k != "formatVersion"@ && k != "id"@ && k != "createdAt"@ && k != "updatedAt"@ && k != "tags"@
            && k != "content"@ ==> #[trigger] json_get(doc, k) is None
}

/// A new document with this id, created (and last updated) at `now`.
pub fn new_doc(id: &str, now: &str) -> (doc: Json)
    ensures
        doc is Object,
        u64_field(doc, "formatVersion"@) == Some(DOC_FORMAT_VERSION),
        str_field(doc, "id"@) == Some(id@),
        str_field(doc, "createdAt"@) == Some(now@),
        str_field(doc, "updatedAt"@) == Some(now@),
        json_get(doc, "tags"@) matches Some(Json::Array(tags)) && tags@.len() == 0,
        json_get(doc, "content"@) matches Some(content) && empty_body(content),
        doc_members_only(doc),
        title_of(doc) == "Untitled"@,
        forall|path: Seq<char>| #[trigger] doc_problem(doc, id@, path) is None,
{
    proof {
        reveal_doc_names();
    }
    let mut paragraph = Json::object();
    paragraph.set("type", Json::string("paragraph"));
    let mut content = Json::object();
    content.set("type", Json::string("doc"));
    content.set("content", Json::Array(vec![paragraph]));
    let mut doc = Json::object();
    doc.set("formatVersion", Json::uint(DOC_FORMAT_VERSION));
    doc.set("id", Json::string(id));
    doc.set("createdAt", Json::string(now));
    doc.set("updatedAt", Json::string(now));
    doc.set("tags", Json::Array(Vec::new()));
    doc.set("content", content);
    proof {
        let blocks = body_blocks(doc);
        assert(blocks =~= seq![paragraph]);
        assert(blocks.drop_first() =~= Seq::<Json>::empty());
        assert(first_heading(Seq::<Json>::empty()) is None);
        assert(str_field(blocks[0], "type"@) == Some("paragraph"@));
        assert(first_heading(blocks) is None);
        assert(text_of(paragraph) =~= Seq::<char>::empty());
        assert(trim(Seq::<char>::empty()) =~= Seq::<char>::empty());
    }
    doc
}

/// A new document: in an encrypted vault its id is a random 32-digit hex
/// token (it is also the file name, and a ULID would give away the creation
/// time), otherwise a lower-case ULID. It is created at the current time.
pub fn create(key: Option<&[u8; MK_LEN]>) -> (doc: Json)
    ensures
        doc is Object,
        str_field(doc, "id"@) matches Some(id) && {
            &&& forall|path: Seq<char>| #[trigger] doc_problem(doc, id, path) is None
            &&& key is Some ==> id.len() == 32 && forall|i: int| 0 <= i < 32 ==> is_hex_lower_char(#[trigger] id[i])
            &&& key is None ==> id.len() == 26 && forall|i: int| 0 <= i < 26 ==> #[trigger] id[i] == ascii_lower(id[i])
        },
        u64_field(doc, "formatVersion"@) == Some(DOC_FORMAT_VERSION),
        str_field(doc, "createdAt"@) matches Some(t) && str_field(doc, "updatedAt"@) == Some(t) && rfc3339_utc_shape(t),
        json_get(doc, "tags"@) matches Some(Json::Array(tags)) && tags@.len() == 0,
        json_get(doc, "content"@) matches Some(content) && empty_body(content),
        doc_members_only(doc),
        title_of(doc) == "Untitled"@,
{
    let id = if key.is_some() {
        random_token_hex()
    } else {
        new_id()
    };
    let now = now_rfc3339();
    new_doc(id.as_str(), now.as_str())
}

/// Replaces a document's body and stamps `updatedAt` with `now`; every other
/// member is kept as it was, those this version does not know included. (A
/// `null` document becomes an object first, as `serde_json` indexing does;
/// other non-objects make it panic, so they are left out.)
/// Returns what a listing shows of the updated document.
pub fn set_content(doc: &mut Json, content: Json, now: &str) -> (meta: DocMeta)
    requires
        *old(doc) is Object || *old(doc) is Null,
    ensures
        *final(doc) is Object,
        json_get(*final(doc), "content"@) == Some(content),
        str_field(*final(doc), "updatedAt"@) == Some(now@),
        forall|k: Seq<char>| k != "content"@ && k != "updatedAt"@
            ==> #[trigger] json_get(*final(doc), k) == json_get(*old(doc), k),
        meta_matches(meta, *final(doc)),
{
    proof {
        reveal_doc_names();
    }
    doc.set("content", content);
    doc.set("updatedAt", Json::string(now));
    meta_of(doc)
}

/// `set_content` at the current time.
pub fn write_content(doc: &mut Json, content: Json) -> (meta: DocMeta)
    requires
        *old(doc) is Object || *old(doc) is Null,
    ensures
        *final(doc) is Object,
        json_get(*final(doc), "content"@) == Some(content),
        str_field(*final(doc), "updatedAt"@) matches Some(t) && rfc3339_utc_shape(t),
        forall|k: Seq<char>| k != "content"@ && k != "updatedAt"@
            ==> #[trigger] json_get(*final(doc), k) == json_get(*old(doc), k),
        meta_matches(meta, *final(doc)),
{
    let now = now_rfc3339();
    set_content(doc, content, now.as_str())
}

} // verus!
