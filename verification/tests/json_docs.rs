//! Path reads, creating writes, deletes and listing of JSON documents.

use stratadb::{Strata, StrataError, Value};

fn db() -> Strata {
    Strata::cache().expect("failed to open temp db")
}

fn s(v: &str) -> Value {
    Value::String(v.to_string())
}

fn obj(pairs: &[(&str, Value)]) -> Value {
    Value::Object(
        pairs
            .iter()
            .map(|(k, v)| (k.to_string(), v.duplicate()))
            .collect(),
    )
}

#[test]
fn root_set_then_get_round_trips() {
    let mut db = db();
    let doc = obj(&[("name", s("widget")), ("price", Value::Int(44))]);
    db.json_set("product", "$", doc.duplicate()).unwrap();
    assert_eq!(db.json_get("product", "$").unwrap(), Some(doc));
}

#[test]
fn nested_set_creates_intermediate_objects() {
    let mut db = db();
    db.json_set("doc", "$.a.b.c", Value::Int(5)).unwrap();
    assert_eq!(db.json_get("doc", "$.a.b.c").unwrap(), Some(Value::Int(5)));
    assert_eq!(db.json_get("doc", "a.b.c").unwrap(), Some(Value::Int(5)));
}

#[test]
fn set_through_scalar_fails() {
    let mut db = db();
    db.json_set("doc", "$.a", Value::Int(1)).unwrap();
    assert_eq!(
        db.json_set("doc", "$.a.b", Value::Int(2)),
        Err(StrataError::InvalidArgument)
    );
    // Document unchanged by the failed write
    assert_eq!(db.json_get("doc", "$.a").unwrap(), Some(Value::Int(1)));
}

#[test]
fn array_index_paths() {
    let mut db = db();
    let doc = obj(&[(
        "items",
        Value::Array(vec![Value::Int(10), Value::Int(20), Value::Int(30)]),
    )]);
    db.json_set("doc", "$", doc).unwrap();
    assert_eq!(db.json_get("doc", "$.items[1]").unwrap(), Some(Value::Int(20)));
    db.json_set("doc", "$.items[1]", Value::Int(25)).unwrap();
    assert_eq!(db.json_get("doc", "$.items[1]").unwrap(), Some(Value::Int(25)));
    // Out-of-bounds writes are rejected, not extended
    assert!(db.json_set("doc", "$.items[9]", Value::Int(0)).is_err());
}

#[test]
fn malformed_paths_are_invalid_argument() {
    let mut db = db();
    assert_eq!(db.json_set("doc", "", s("x")), Err(StrataError::InvalidArgument));
    assert_eq!(db.json_set("doc", "$.", s("x")), Err(StrataError::InvalidArgument));
    assert_eq!(db.json_set("doc", "$[zz]", s("x")), Err(StrataError::InvalidArgument));
    assert_eq!(db.json_get("doc", "$]"), Err(StrataError::InvalidArgument));
}

#[test]
fn field_delete_keeps_siblings() {
    let mut db = db();
    db.json_set("doc", "$", obj(&[("a", Value::Int(1)), ("b", Value::Int(2))])).unwrap();
    assert!(db.json_delete("doc", "$.a").unwrap());
    assert_eq!(db.json_get("doc", "$.a").unwrap(), None);
    assert_eq!(db.json_get("doc", "$.b").unwrap(), Some(Value::Int(2)));
}

#[test]
fn document_delete_removes_whole_document() {
    let mut db = db();
    db.json_set("doc", "$", s("body")).unwrap();
    assert!(db.json_delete("doc", "$").unwrap());
    assert_eq!(db.json_get("doc", "$").unwrap(), None);
    assert!(!db.json_delete("doc", "$").unwrap());
}

#[test]
fn listing_pages_through_keys_in_order() {
    let mut db = db();
    for name in ["d1", "d2", "d3", "d4", "d5", "x1"] {
        db.json_set(name, "$", Value::Int(1)).unwrap();
    }
    let (page1, cursor1) = db.json_list(Some("d"), None, 2).unwrap();
    assert_eq!(page1, vec!["d1", "d2"]);
    let c1 = cursor1.expect("more pages expected");
    let (page2, cursor2) = db.json_list(Some("d"), Some(&c1), 2).unwrap();
    assert_eq!(page2, vec!["d3", "d4"]);
    let c2 = cursor2.expect("more pages expected");
    let (page3, cursor3) = db.json_list(Some("d"), Some(&c2), 2).unwrap();
    assert_eq!(page3, vec!["d5"]);
    assert!(cursor3.is_none());
}
