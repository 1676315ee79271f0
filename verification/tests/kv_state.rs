//! Key-value scans and state cell versioning.

use stratadb::{Strata, StrataError, Value};

fn db() -> Strata {
    Strata::cache().expect("failed to open temp db")
}

fn s(v: &str) -> Value {
    Value::String(v.to_string())
}

#[test]
fn overwrite_keeps_last_value() {
    let mut db = db();
    db.kv_put("counter:page_views", Value::Int(1)).unwrap();
    db.kv_put("counter:page_views", Value::Int(2)).unwrap();
    db.kv_put("counter:page_views", Value::Int(3)).unwrap();
    assert_eq!(db.kv_get("counter:page_views").unwrap(), Some(Value::Int(3)));
}

#[test]
fn prefix_scan_counts_and_order() {
    let mut db = db();
    for i in 0..10 {
        db.kv_put(&format!("alpha:{}", i), Value::Int(i)).unwrap();
        db.kv_put(&format!("beta:{}", i), Value::Int(i)).unwrap();
    }
    let alphas = db.kv_list(Some("alpha:")).unwrap();
    assert_eq!(alphas.len(), 10);
    for w in alphas.windows(2) {
        assert!(w[0] < w[1], "keys not in ascending order");
    }
    assert_eq!(db.kv_list(None).unwrap().len(), 20);
}

#[test]
fn delete_returns_presence_flag() {
    let mut db = db();
    db.kv_put("k", s("v")).unwrap();
    assert!(db.kv_delete("k").unwrap());
    assert!(!db.kv_delete("k").unwrap());
    assert_eq!(db.kv_get("k").unwrap(), None);
}

#[test]
fn state_versions_count_from_one() {
    let mut db = db();
    db.state_set("cell", s("a")).unwrap();
    assert_eq!(db.state_read("cell").unwrap(), Some((s("a"), 1)));
    db.state_set("cell", s("b")).unwrap();
    assert_eq!(db.state_read("cell").unwrap(), Some((s("b"), 2)));
    db.state_set("cell", s("c")).unwrap();
    assert_eq!(db.state_read("cell").unwrap(), Some((s("c"), 3)));
}

#[test]
fn cas_checks_exact_version() {
    let mut db = db();
    assert_eq!(db.state_cas("lock", None, s("agent-1")).unwrap(), Some(1));
    assert_eq!(db.state_cas("lock", None, s("agent-2")).unwrap(), None);
    assert_eq!(db.state_cas("lock", Some(9), s("agent-2")).unwrap(), None);
    assert_eq!(db.state_cas("lock", Some(1), s("free")).unwrap(), Some(2));
    assert_eq!(db.state_read("lock").unwrap(), Some((s("free"), 2)));
}

#[test]
fn absent_cell_reads_none() {
    let db = db();
    assert_eq!(db.state_get("missing").unwrap(), None);
    assert_eq!(db.state_read("missing").unwrap(), None);
}

#[test]
fn set_branch_to_missing_is_not_found() {
    let mut db = db();
    assert_eq!(db.set_branch("nowhere"), Err(StrataError::NotFound));
    assert_eq!(db.delete_branch("nowhere"), Err(StrataError::NotFound));
}

#[test]
fn vector_dimension_mismatch_is_rejected() {
    let mut db = db();
    db.vector_create_collection("vecs", 3, stratadb::DistanceMetric::Cosine).unwrap();
    assert_eq!(
        db.vector_upsert("vecs", "v", vec![1, 2], None),
        Err(StrataError::InvalidArgument)
    );
    assert_eq!(
        db.vector_upsert("missing", "v", vec![1, 2, 3], None),
        Err(StrataError::NotFound)
    );
    assert_eq!(
        db.vector_create_collection("zero", 0, stratadb::DistanceMetric::Cosine),
        Err(StrataError::InvalidArgument)
    );
}
