use cipher_vault::json::Json;
use cipher_vault::sync::{list_document, sync_document};

fn text(value: &str) -> Json {
    Json::Text(value.to_string())
}

fn object(entries: Vec<(&str, Json)>) -> Json {
    Json::Object(entries.into_iter().map(|(k, v)| (k.to_string(), v)).collect())
}

#[test]
fn writes_every_kind_of_value() {
    let doc = object(vec![
        ("b", Json::Bool(false)),
        ("a", Json::Array(vec![Json::Null, Json::Number(serde_json::Number::from(-7i64)), text("q\"uote")])),
        ("o", Json::empty_object()),
    ]);
    assert_eq!(doc.to_text(), "{\"a\":[null,-7,\"q\\\"uote\"],\"b\":false,\"o\":{}}");
    assert_eq!(Json::Null.to_text(), "null");
    assert_eq!(text("x").to_text(), "\"x\"");
}

#[test]
fn put_replaces_in_place_and_appends_new_keys() {
    let mut doc = Json::Null;
    doc.put("a".to_string(), text("1"));
    doc.put("b".to_string(), text("2"));
    doc.put("a".to_string(), text("3"));
    assert_eq!(doc, object(vec![("a", text("3")), ("b", text("2"))]));
    assert_eq!(doc.get(&"a".to_string()), Some(text("3")));
    assert_eq!(doc.get(&"c".to_string()), None);
    assert_eq!(text("x").get(&"a".to_string()), None);
    assert!(doc.is_object());
    assert!(!Json::Null.is_object());
}

#[test]
fn clone_copies_the_whole_document() {
    let doc = object(vec![
        ("a", Json::Array(vec![object(vec![("b", text("c"))])])),
        ("n", Json::Number(serde_json::Number::from(42u64))),
        ("t", Json::Bool(true)),
    ]);
    let copy = doc.clone();
    assert_eq!(copy, doc);
    assert_eq!(copy.to_text(), "{\"a\":[{\"b\":\"c\"}],\"n\":42,\"t\":true}");
}

#[test]
fn text_or_null_and_array() {
    assert_eq!(Json::text_or_null(None), Json::Null);
    assert_eq!(Json::text_or_null(Some("n".to_string())), text("n"));
    assert_eq!(Json::array(vec![Json::Null]), Json::Array(vec![Json::Null]));
}

#[test]
fn composes_the_snapshot_document() {
    let doc = sync_document(
        object(vec![("Id", text("u"))]),
        vec![text("f")],
        vec![text("c1"), text("c2")],
        Json::Null,
    );
    assert_eq!(
        doc,
        object(vec![
            ("Profile", object(vec![("Id", text("u"))])),
            ("Folders", Json::Array(vec![text("f")])),
            ("Ciphers", Json::Array(vec![text("c1"), text("c2")])),
            ("Domains", Json::Null),
            ("Object", text("sync")),
        ])
    );
}

#[test]
fn wraps_a_list() {
    let doc = list_document(vec![text("a")]);
    assert_eq!(doc, object(vec![("Data", Json::Array(vec![text("a")])), ("Object", text("list"))]));
    assert_eq!(doc.to_text(), "{\"Data\":[\"a\"],\"Object\":\"list\"}");
}
