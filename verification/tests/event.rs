//! Black-box tests for the event log primitive.

use stratadb::{Strata, Value};

fn db() -> Strata {
    Strata::open_temp().expect("failed to open temp db")
}

fn obj(pairs: &[(&str, Value)]) -> Value {
    Value::Object(
        pairs
            .iter()
            .map(|(k, v)| (k.to_string(), v.duplicate()))
            .collect(),
    )
}

fn s(v: &str) -> Value {
    Value::String(v.to_string())
}

#[test]
fn append_and_read_by_sequence() {
    let mut db = db();
    let seq = db
        .event_append("tool_call", obj(&[("tool", s("search"))]))
        .unwrap();

    let event = db.event_read(seq).unwrap();
    assert!(event.is_some());
}

#[test]
fn append_returns_incrementing_sequences() {
    let mut db = db();
    let s1 = db.event_append("a", obj(&[("x", Value::Int(1))])).unwrap();
    let s2 = db.event_append("b", obj(&[("x", Value::Int(2))])).unwrap();
    let s3 = db.event_append("c", obj(&[("x", Value::Int(3))])).unwrap();
    assert!(s2 > s1);
    assert!(s3 > s2);
}

#[test]
fn read_nonexistent_sequence_returns_none() {
    let db = db();
    assert!(db.event_read(99999).unwrap().is_none());
}

#[test]
fn read_by_type_filters_correctly() {
    let mut db = db();
    db.event_append("tool_call", obj(&[("tool", s("search"))])).unwrap();
    db.event_append("observation", obj(&[("result", s("found"))])).unwrap();
    db.event_append("tool_call", obj(&[("tool", s("write"))])).unwrap();

    let tool_calls = db.event_read_by_type("tool_call").unwrap();
    assert_eq!(tool_calls.len(), 2);

    let observations = db.event_read_by_type("observation").unwrap();
    assert_eq!(observations.len(), 1);
}

#[test]
fn read_by_type_nonexistent_returns_empty() {
    let mut db = db();
    db.event_append("a", obj(&[("x", Value::Int(1))])).unwrap();
    let events = db.event_read_by_type("nonexistent").unwrap();
    assert!(events.is_empty());
}

#[test]
fn len_empty() {
    let db = db();
    assert_eq!(db.event_len().unwrap(), 0);
}

#[test]
fn len_tracks_appends() {
    let mut db = db();
    db.event_append("a", obj(&[("x", Value::Int(1))])).unwrap();
    db.event_append("b", obj(&[("x", Value::Int(2))])).unwrap();
    db.event_append("c", obj(&[("x", Value::Int(3))])).unwrap();
    assert_eq!(db.event_len().unwrap(), 3);
}

#[test]
fn events_are_immutable() {
    let mut db = db();
    let seq = db
        .event_append("type", obj(&[("data", s("original"))]))
        .unwrap();

    // Append another event with same type — the original should be unchanged
    db.event_append("type", obj(&[("data", s("second"))])).unwrap();

    let original = db.event_read(seq).unwrap().unwrap();
    // The original event should still have its original payload
    assert!(format!("{:?}", original.value).contains("original"));
}

#[test]
fn many_events() {
    let mut db = db();
    for i in 0..500 {
        db.event_append("stream", obj(&[("i", Value::Int(i))])).unwrap();
    }
    assert_eq!(db.event_len().unwrap(), 500);

    let all = db.event_read_by_type("stream").unwrap();
    assert_eq!(all.len(), 500);
}
