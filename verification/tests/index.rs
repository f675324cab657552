use inkstone::index::{
    body_text, escape_like, like_snippet, search_plan, try_like_snippet, SearchPlan,
};
use inkstone::json::Json;

fn object(members: Vec<(&str, Json)>) -> Json {
    Json::Object(members.into_iter().map(|(k, v)| (k.to_string(), v)).collect())
}

fn block(kind: &str, text: Option<&str>) -> Json {
    let mut members = vec![("type", Json::string(kind))];
    if let Some(text) = text {
        members.push((
            "content",
            Json::Array(vec![object(vec![
                ("type", Json::string("text")),
                ("text", Json::string(text)),
            ])]),
        ));
    }
    object(members)
}

#[test]
fn body_text_joins_non_empty_blocks() {
    let content = object(vec![
        ("type", Json::string("doc")),
        (
            "content",
            Json::Array(vec![
                block("heading", Some("Title")),
                block("paragraph", None),
                block("paragraph", Some("shared body words 中文正文内容")),
            ]),
        ),
    ]);
    assert_eq!(body_text(&content), "Title\nshared body words 中文正文内容\n");
    assert_eq!(body_text(&Json::Null), "");
}

#[test]
fn blank_query_plans_nothing() {
    assert!(matches!(search_plan("  "), SearchPlan::Nothing));
    assert!(matches!(search_plan(""), SearchPlan::Nothing));
}

#[test]
fn long_queries_use_fts_phrases() {
    match search_plan("  say \"hi\" ") {
        SearchPlan::Fts(q) => assert_eq!(q, "\"say \"\"hi\"\"\""),
        _ => panic!("expected an FTS query"),
    }
    match search_plan("高可用研究") {
        SearchPlan::Fts(q) => assert_eq!(q, "\"高可用研究\""),
        _ => panic!("expected an FTS query"),
    }
}

#[test]
fn short_queries_use_like_patterns() {
    match search_plan(" 正文 ") {
        SearchPlan::Like { pattern, query } => {
            assert_eq!(pattern, "%正文%");
            assert_eq!(query, "正文");
        }
        _ => panic!("expected a LIKE query"),
    }
    match search_plan("%_") {
        SearchPlan::Like { pattern, .. } => assert_eq!(pattern, "%\\%\\_%"),
        _ => panic!("expected a LIKE query"),
    }
}

#[test]
fn like_escaping() {
    assert_eq!(escape_like("a\\b%c_d"), "a\\\\b\\%c\\_d");
    assert_eq!(escape_like("plain"), "plain");
}

#[test]
fn snippet_marks_the_match() {
    let body = "shared body words 中文正文内容\n";
    assert_eq!(like_snippet(body, "正文"), "shared body words 中文\u{1}正文\u{2}内容\n");
    assert_eq!(like_snippet("Hello World", "wo"), "Hello \u{1}Wo\u{2}rld");
}

#[test]
fn snippet_keeps_thirty_characters_each_side() {
    let body = format!("{}xy{}", "a".repeat(40), "b".repeat(40));
    let expected = format!("{}\u{1}xy\u{2}{}", "a".repeat(30), "b".repeat(30));
    assert_eq!(like_snippet(&body, "XY"), expected);
}

#[test]
fn snippet_without_match_is_the_start() {
    let body = "z".repeat(100);
    assert_eq!(like_snippet(&body, "q"), "z".repeat(60));
    assert_eq!(try_like_snippet("short", "q"), Some("short".to_string()));
}

#[test]
fn snippet_is_refused_where_lowercasing_shifts_bytes() {
    // 'İ' lowercases to two characters (3 bytes instead of 2), so the match
    // offset in the lowered body falls inside a character of the body.
    assert_eq!(try_like_snippet("İé", "é"), None);
    assert_eq!(try_like_snippet("İab", "a"), Some("İa\u{1}b\u{2}".to_string()));
    assert_eq!(try_like_snippet("İab", "b"), Some("İab\u{1}\u{2}".to_string()));
}

#[test]
fn empty_query_returns_nothing() {
    assert!(matches!(search_plan("  "), SearchPlan::Nothing));
}
