use inkstone::crypto::{encode_encrypted_file, random_bytes, MK_LEN};
use inkstone::docs::{
    create, doc_file_name, doc_id_of, doc_plaintext, list, meta_of, new_doc, set_content,
    validate_doc, write_content, DocFile,
};
use inkstone::json::{Json, JsonNumber};

fn to_value(j: &Json) -> serde_json::Value {
    match j {
        Json::Null => serde_json::Value::Null,
        Json::Bool(b) => serde_json::Value::Bool(*b),
        Json::Number(JsonNumber::PosInt(n)) => serde_json::Value::from(*n),
        Json::Number(JsonNumber::NegInt(n)) => serde_json::Value::from(*n),
        Json::Number(JsonNumber::Float(text)) => serde_json::from_str(text).unwrap(),
        Json::Str(s) => serde_json::Value::String(s.clone()),
        Json::Array(items) => serde_json::Value::Array(items.iter().map(to_value).collect()),
        Json::Object(fields) => serde_json::Value::Object(
            fields.iter().map(|(k, v)| (k.clone(), to_value(v))).collect(),
        ),
    }
}

fn from_value(v: &serde_json::Value) -> Json {
    match v {
        serde_json::Value::Null => Json::Null,
        serde_json::Value::Bool(b) => Json::Bool(*b),
        serde_json::Value::Number(n) => match (n.as_u64(), n.as_i64()) {
            (Some(u), _) => Json::Number(JsonNumber::PosInt(u)),
            (None, Some(i)) => Json::Number(JsonNumber::NegInt(i)),
            _ => Json::Number(JsonNumber::Float(n.to_string())),
        },
        serde_json::Value::String(s) => Json::Str(s.clone()),
        serde_json::Value::Array(items) => Json::Array(items.iter().map(from_value).collect()),
        serde_json::Value::Object(map) => {
            Json::Object(map.iter().map(|(k, v)| (k.clone(), from_value(v))).collect())
        }
    }
}

/// Parses file bytes as the app does.
fn parse_doc(bytes: &[u8], path: &str) -> Result<Json, String> {
    serde_json::from_slice::<serde_json::Value>(bytes)
        .map(|v| from_value(&v))
        .map_err(|error| format!("invalid JSON in {path}: {error}"))
}

fn file_bytes(doc: &Json, key: Option<&[u8; MK_LEN]>) -> Vec<u8> {
    let json = serde_json::to_vec(&to_value(doc)).unwrap();
    match key {
        None => json,
        Some(mk) => encode_encrypted_file(mk, &json),
    }
}

/// What listing or reading a document file gives, as the app reads it.
fn doc_file(path: &str, id: &str, bytes: Vec<u8>, key: Option<&[u8; MK_LEN]>) -> DocFile {
    let doc = doc_plaintext(bytes, key, path).and_then(|plain| parse_doc(&plain, path));
    DocFile {
        path: path.to_string(),
        id: id.to_string(),
        doc,
    }
}

fn read_back(doc: &Json, key: Option<&[u8; MK_LEN]>) -> Result<Json, String> {
    let id = doc.get("id").unwrap().as_str().unwrap().to_string();
    let path = format!("docs/{}", doc_file_name(&id, key));
    let file = doc_file(&path, &id, file_bytes(doc, key), key);
    validate_doc(file.doc?, &id, &path)
}

fn obj(members: Vec<(&str, Json)>) -> Json {
    Json::Object(members.into_iter().map(|(k, v)| (k.to_string(), v)).collect())
}

fn text_node(text: &str) -> Json {
    obj(vec![("type", Json::string("text")), ("text", Json::string(text))])
}

fn heading_content(text: &str) -> Json {
    obj(vec![
        ("type", Json::string("doc")),
        (
            "content",
            Json::Array(vec![obj(vec![
                ("type", Json::string("heading")),
                ("attrs", obj(vec![("level", Json::uint(1))])),
                ("content", Json::Array(vec![text_node(text)])),
            ])]),
        ),
    ])
}

fn id_of(doc: &Json) -> String {
    doc.get("id").unwrap().as_str().unwrap().to_string()
}

#[test]
fn create_list_read_roundtrip() {
    let doc = create(None);
    let id = id_of(&doc);
    let path = format!("docs/{id}.json");

    let listed = list(&[doc_file(&path, &id, file_bytes(&doc, None), None)]);
    assert_eq!(listed.docs.len(), 1);
    assert_eq!(listed.docs[0].id, id);
    assert_eq!(listed.docs[0].title, "Untitled");
    assert!(listed.warnings.is_empty());

    let loaded = read_back(&doc, None).unwrap();
    assert_eq!(to_value(&loaded), to_value(&doc));
}

#[test]
fn write_content_updates_title_and_preserves_unknown_fields() {
    let created = create(None);
    let mut raw = read_back(&created, None).unwrap();
    raw.set("futureField", obj(vec![("kept", Json::Bool(true))]));
    let mut doc = read_back(&raw, None).unwrap();

    let meta = write_content(&mut doc, heading_content("Hello Inkstone"));
    assert_eq!(meta.title, "Hello Inkstone");

    let reloaded = read_back(&doc, None).unwrap();
    assert!(matches!(
        reloaded.get("futureField").unwrap().get("kept"),
        Some(Json::Bool(true))
    ));
    assert_ne!(reloaded.get("updatedAt").unwrap().as_str().unwrap(), "");
}

#[test]
fn corrupted_doc_is_reported_not_crashing() {
    let doc = create(None);
    let id = id_of(&doc);
    let good = doc_file(&format!("docs/{id}.json"), &id, file_bytes(&doc, None), None);
    let broken = doc_file("docs/broken.json", "broken", b"{ not json".to_vec(), None);

    let listed = list(&[good, broken]);
    assert_eq!(listed.docs.len(), 1);
    assert_eq!(listed.warnings.len(), 1);
}

#[test]
fn id_mismatch_is_rejected() {
    let doc = create(None);
    let renamed = "zzzzzzzzzzzzzzzzzzzzzzzzzz";
    let path = format!("docs/{renamed}.json");

    let listed = list(&[doc_file(&path, renamed, file_bytes(&doc, None), None)]);
    assert!(listed.docs.is_empty());
    assert_eq!(listed.warnings.len(), 1);
}

#[test]
fn newer_doc_format_version_is_rejected() {
    let mut doc = create(None);
    doc.set("formatVersion", Json::uint(999));
    assert!(read_back(&doc, None).is_err());
}

#[test]
fn encrypted_create_list_read_roundtrip() {
    let mk = random_bytes::<MK_LEN>();
    let doc = create(Some(&mk));
    let id = id_of(&doc);
    let path = format!("docs/{id}.enc");

    let listed = list(&[doc_file(&path, &id, file_bytes(&doc, Some(&mk)), Some(&mk))]);
    assert_eq!(listed.docs.len(), 1);
    assert_eq!(listed.docs[0].id, id);
    assert!(listed.warnings.is_empty());

    let loaded = read_back(&doc, Some(&mk)).unwrap();
    assert_eq!(to_value(&loaded), to_value(&doc));
}

#[test]
fn encrypted_doc_id_is_not_a_ulid_and_matches_filename() {
    let mk = random_bytes::<MK_LEN>();
    let doc = create(Some(&mk));
    let id = id_of(&doc);
    assert_eq!(id.len(), 32); // 16 random bytes, hex-encoded
    assert_eq!(doc_file_name(&id, Some(&mk)), format!("{id}.enc"));
    assert_eq!(doc_id_of(&format!("{id}.enc"), Some(&mk)), Some(id));
}

#[test]
fn encrypted_doc_file_has_no_plaintext_leakage() {
    let mk = random_bytes::<MK_LEN>();
    let mut doc = create(Some(&mk));
    let id = id_of(&doc);

    write_content(&mut doc, heading_content("a very secret title"));

    let raw = file_bytes(&doc, Some(&mk));
    assert!(!raw.windows(6).any(|w| w == b"secret"));
    assert!(!raw
        .windows(2)
        .any(|w| w == id.as_bytes().get(0..2).unwrap()));
}

#[test]
fn docs_encrypted_read_rejects_wrong_key() {
    let mk = random_bytes::<MK_LEN>();
    let doc = create(Some(&mk));
    let id = id_of(&doc);
    let bytes = file_bytes(&doc, Some(&mk));

    let wrong_key = random_bytes::<MK_LEN>();
    let path = format!("docs/{id}.enc");
    assert!(doc_file(&path, &id, bytes, Some(&wrong_key)).doc.is_err());
}

#[test]
fn encrypted_corrupted_doc_is_reported_not_crashing() {
    let mk = random_bytes::<MK_LEN>();
    let doc = create(Some(&mk));
    let id = id_of(&doc);
    let good = doc_file(&format!("docs/{id}.enc"), &id, file_bytes(&doc, Some(&mk)), Some(&mk));
    let broken = doc_file("docs/broken.enc", "broken", b"not a valid envelope".to_vec(), Some(&mk));

    let listed = list(&[good, broken]);
    assert_eq!(listed.docs.len(), 1);
    assert_eq!(listed.warnings.len(), 1);
    assert_eq!(
        listed.warnings[0],
        "docs/broken.enc: docs/broken.enc: corrupted encrypted file: too short"
    );
}

#[test]
fn listing_is_newest_first() {
    let a = new_doc("a", "2024-01-01T00:00:00Z");
    let b = new_doc("b", "2024-03-01T00:00:00Z");
    let c = new_doc("c", "2024-02-01T00:00:00Z");
    let files: Vec<DocFile> = [&a, &b, &c]
        .iter()
        .map(|d| {
            let id = id_of(d);
            doc_file(&format!("docs/{id}.json"), &id, file_bytes(d, None), None)
        })
        .collect();
    let listed = list(&files);
    let ids: Vec<&str> = listed.docs.iter().map(|m| m.id.as_str()).collect();
    assert_eq!(ids, vec!["b", "c", "a"]);
}

#[test]
fn titles_come_from_the_first_block_trimmed() {
    let mut doc = new_doc("t", "now");
    let meta = set_content(&mut doc, heading_content("  \u{3000}Spaced title\n "), "later");
    assert_eq!(meta.title, "Spaced title");
    assert_eq!(meta.updated_at, "later");
    assert_eq!(meta.created_at, "now");
    let meta = set_content(&mut doc, heading_content(" \t "), "later");
    assert_eq!(meta.title, "Untitled");
    assert_eq!(meta_of(&doc).id, "t");
}

#[test]
fn validation_messages() {
    let doc = new_doc("x", "now");
    assert_eq!(
        validate_doc(doc, "y", "docs/y.json").unwrap_err(),
        "document y: id does not match file name"
    );
    let mut doc = new_doc("x", "now");
    doc.set("formatVersion", Json::uint(7));
    assert_eq!(
        validate_doc(doc, "x", "docs/x.json").unwrap_err(),
        "document x requires a newer version of Inkstone (formatVersion 7)"
    );
    let mut doc = new_doc("x", "now");
    doc.set("formatVersion", Json::Null);
    assert_eq!(
        validate_doc(doc, "x", "docs/x.json").unwrap_err(),
        "missing formatVersion in docs/x.json"
    );
}

#[test]
fn listed_file_names() {
    assert_eq!(doc_id_of("abc.json", None), Some("abc".to_string()));
    assert_eq!(doc_id_of("abc.json.json", None), Some("abc".to_string()));
    assert_eq!(doc_id_of("abc.json.tmp-01h", None), None);
    assert_eq!(doc_id_of("abc.tmp-x.json", None), None);
    assert_eq!(doc_id_of("abc.enc", None), None);
    assert_eq!(doc_id_of("abc.json", Some(&[0u8; MK_LEN])), None);
    assert_eq!(doc_id_of("abc.enc", Some(&[0u8; MK_LEN])), Some("abc".to_string()));
}

#[test]
fn title_prefers_the_first_heading_then_the_first_line() {
    let paragraph = obj(vec![
        ("type", Json::string("paragraph")),
        ("content", Json::Array(vec![text_node("first line")])),
    ]);
    let heading = obj(vec![
        ("type", Json::string("heading")),
        ("content", Json::Array(vec![text_node(" The Heading ")])),
    ]);
    let body = obj(vec![
        ("type", Json::string("doc")),
        ("content", Json::Array(vec![paragraph, heading])),
    ]);
    let mut doc = new_doc("h", "now");
    assert_eq!(set_content(&mut doc, body, "now").title, "The Heading");

    let paragraph = obj(vec![
        ("type", Json::string("paragraph")),
        ("content", Json::Array(vec![text_node("first line")])),
    ]);
    let empty_heading = obj(vec![("type", Json::string("heading"))]);
    let body = obj(vec![
        ("type", Json::string("doc")),
        ("content", Json::Array(vec![paragraph, empty_heading])),
    ]);
    assert_eq!(set_content(&mut doc, body, "now").title, "first line");
}

#[test]
fn listing_keeps_file_order_between_equal_times() {
    let docs = [
        new_doc("first", "2024-01-01T00:00:00Z"),
        new_doc("newer", "2024-05-01T00:00:00Z"),
        new_doc("second", "2024-01-01T00:00:00Z"),
    ];
    let files: Vec<DocFile> = docs
        .iter()
        .map(|d| {
            let id = id_of(d);
            doc_file(&format!("docs/{id}.json"), &id, file_bytes(d, None), None)
        })
        .collect();
    let listed = list(&files);
    let ids: Vec<&str> = listed.docs.iter().map(|m| m.id.as_str()).collect();
    assert_eq!(ids, vec!["newer", "first", "second"]);
}

#[test]
fn created_documents_are_version_one_with_no_tags_and_a_utc_time() {
    let doc = create(None);
    assert!(matches!(doc.get("formatVersion"), Some(Json::Number(JsonNumber::PosInt(1)))));
    assert!(matches!(doc.get("tags"), Some(Json::Array(tags)) if tags.is_empty()));
    let created = doc.get("createdAt").unwrap().as_str().unwrap();
    assert_eq!(doc.get("updatedAt").unwrap().as_str(), Some(created));
    let bytes = created.as_bytes();
    assert!(bytes.len() >= 20);
    assert_eq!((bytes[4], bytes[7], bytes[10], bytes[13], bytes[16]), (b'-', b'-', b'T', b':', b':'));
    assert!(created.ends_with('Z'));
}

#[test]
fn new_document_json_is_exact() {
    let doc = new_doc("n", "2024-01-01T00:00:00Z");
    assert_eq!(
        to_value(&doc),
        serde_json::from_str::<serde_json::Value>(
            r#"{"formatVersion":1,"id":"n","createdAt":"2024-01-01T00:00:00Z","updatedAt":"2024-01-01T00:00:00Z","tags":[],"content":{"type":"doc","content":[{"type":"paragraph"}]}}"#
        )
        .unwrap()
    );
}
