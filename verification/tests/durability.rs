//! Recovery, counters, configuration and the formatting helpers.

use stratadb::numfmt::{format_ns, format_num};
use stratadb::{DistanceMetric, Strata, StrataError, Value};

fn db() -> Strata {
    Strata::cache().expect("failed to open temp db")
}

fn s(v: &str) -> Value {
    Value::String(v.to_string())
}

fn emb(v: &[f32]) -> Vec<i32> {
    v.iter().map(|x| (x * 65536.0) as i32).collect()
}

#[test]
fn reopen_preserves_every_primitive() {
    let mut db = db();
    db.kv_put("k", s("v")).unwrap();
    db.state_set("cell", Value::Int(7)).unwrap();
    db.event_append("stream", s("payload")).unwrap();
    db.json_set("doc", "$.a.b", Value::Int(1)).unwrap();
    db.vector_create_collection("vecs", 2, DistanceMetric::DotProduct).unwrap();
    db.vector_upsert("vecs", "v1", emb(&[1.0, 2.0]), None).unwrap();
    db.create_branch("side").unwrap();
    db.set_branch("side").unwrap();
    db.kv_put("k", s("side-v")).unwrap();
    db.set_branch("default").unwrap();

    let mut re = db.reopen();
    assert_eq!(re.current_branch(), "default");
    assert_eq!(re.kv_get("k").unwrap(), Some(s("v")));
    assert_eq!(re.state_read("cell").unwrap(), Some((Value::Int(7), 1)));
    assert_eq!(re.event_len().unwrap(), 1);
    assert_eq!(re.json_get("doc", "$.a.b").unwrap(), Some(Value::Int(1)));
    let got = re.vector_get("vecs", "v1").unwrap().unwrap();
    assert_eq!(got.data.embedding, emb(&[1.0, 2.0]));
    re.set_branch("side").unwrap();
    assert_eq!(re.kv_get("k").unwrap(), Some(s("side-v")));
}

#[test]
fn reopen_idempotent_for_deletes() {
    let mut db = db();
    db.kv_put("a", s("1")).unwrap();
    db.kv_delete("a").unwrap();
    db.json_set("d", "$", s("x")).unwrap();
    db.json_delete("d", "$").unwrap();

    let re = db.reopen();
    assert_eq!(re.kv_get("a").unwrap(), None);
    assert_eq!(re.json_get("d", "$").unwrap(), None);
}

#[test]
fn wal_counters_track_appends() {
    let mut db = db();
    assert_eq!(db.wal_counters().wal_appends, 0);
    db.kv_put("a", s("1")).unwrap();
    db.kv_put("b", s("2")).unwrap();
    assert_eq!(db.wal_counters().wal_appends, 2);
    // Cache durability never syncs
    assert_eq!(db.wal_counters().sync_calls, 0);
}

#[test]
fn always_durability_syncs_per_operation() {
    let mut db = db();
    db.config_set("durability", "always").unwrap();
    db.kv_put("a", s("1")).unwrap();
    db.kv_put("b", s("2")).unwrap();
    assert_eq!(db.wal_counters().sync_calls, 2);
}

#[test]
fn config_rejects_unknown_options() {
    let mut db = db();
    assert_eq!(db.config_set("durability", "sometimes"), Err(StrataError::InvalidArgument));
    assert_eq!(db.config_set("verbosity", "high"), Err(StrataError::InvalidArgument));
    assert!(db.config_set("auto_embed", "true").is_ok());
}

#[test]
fn poisoned_engine_rejects_mutations_but_reads_work() {
    let mut db = db();
    db.kv_put("a", s("1")).unwrap();
    db.mark_durability_failed();
    assert_eq!(db.kv_put("b", s("2")), Err(StrataError::InvalidState));
    assert_eq!(db.event_append("t", s("p")), Err(StrataError::InvalidState));
    assert_eq!(db.kv_get("a").unwrap(), Some(s("1")));
}

#[test]
fn ping_answers() {
    let db = db();
    assert!(db.ping());
}

#[test]
fn format_ns_picks_units() {
    assert_eq!(format_ns(999), "999 ns");
    assert_eq!(format_ns(1234), "1.23 us");
    assert_eq!(format_ns(1235), "1.24 us");
    assert_eq!(format_ns(999_994), "999.99 us");
    assert_eq!(format_ns(2_500_000), "2.50 ms");
    assert_eq!(format_ns(1_500_000_000), "1.50 s");
}

#[test]
fn format_num_groups_thousands() {
    assert_eq!(format_num(0), "0");
    assert_eq!(format_num(999), "999");
    assert_eq!(format_num(1000), "1,000");
    assert_eq!(format_num(1234567), "1,234,567");
}
