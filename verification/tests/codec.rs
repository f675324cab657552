use inkstone::codec::{decode_base64, encode_base64};
use inkstone::json::Json;
use inkstone::text::{str_lt, trim_string};

#[test]
fn base64_round_trip() {
    assert_eq!(encode_base64(b"hello"), "aGVsbG8=");
    assert_eq!(decode_base64("aGVsbG8=").unwrap(), b"hello");
    assert!(decode_base64("aGVsbG8").is_err());
    assert!(decode_base64("aGVsbG9=").is_err());
}

#[test]
fn nested_set_adds_and_replaces() {
    let mut m = Json::Null;
    m.set_nested("keys", "password", Json::string("a"));
    assert_eq!(m.get("keys").unwrap().get("password").unwrap().as_str(), Some("a"));
    m.set_nested("keys", "recovery", Json::string("r"));
    m.set_nested("keys", "password", Json::string("b"));
    let keys = m.get("keys").unwrap();
    assert_eq!(keys.get("password").unwrap().as_str(), Some("b"));
    assert_eq!(keys.get("recovery").unwrap().as_str(), Some("r"));
}

#[test]
fn string_helpers() {
    assert_eq!(trim_string("\u{a0} a b \t"), "a b");
    assert!(str_lt("2024-01-01", "2024-02-01"));
    assert!(str_lt("abc", "abcd"));
    assert!(!str_lt("abc", "abc"));
    assert!(str_lt("é", "中"));
}
