//! The mathematical model of the engine.
//!
//! A [`DbV`] is what an engine value means: a map from branch names to
//! branch states, the selected branch, the durability configuration, and
//! the write-ahead log as a sequence of records. Every mutating operation
//! of the engine is specified as a function from model to model, and the
//! log is coupled to the data by [`replay`]: applying the whole log to the
//! initial state always yields the current branches. Recovery is replay.

use vstd::prelude::*;

use crate::common::{bump, DistanceMetric, Durability};
use crate::paths::{doc_remove, doc_set, PathSegV};
use crate::value::ValueV;

verus! {

/// The name of the branch every engine starts on, as a spec sequence.
pub open spec fn default_branch_name() -> Seq<char> {
    "default"@
}

/// A state cell: a value and its write version, starting at 1.
pub ghost struct CellV {
    pub value: ValueV,
    pub version: int,
}

/// An appended event: its engine-assigned sequence number, its type, and
/// its payload.
pub ghost struct EventV {
    pub seq: int,
    pub event_type: Seq<char>,
    pub payload: ValueV,
}

/// A stored vector: its embedding (fixed-point coordinates) and optional
/// metadata.
pub ghost struct VecEntryV {
    pub embedding: Seq<i32>,
    pub metadata: Option<ValueV>,
}

/// A vector collection: fixed dimension and metric, the version assigned at
/// creation, and the entries by key.
pub ghost struct CollV {
    pub dimension: u64,
    pub metric: DistanceMetric,
    pub version: int,
    pub items: Map<Seq<char>, VecEntryV>,
}

/// Everything one branch holds, one field per primitive.
pub ghost struct BranchV {
    pub kv: Map<Seq<char>, ValueV>,
    pub cells: Map<Seq<char>, CellV>,
    pub events: Seq<EventV>,
    pub docs: Map<Seq<char>, ValueV>,
    pub colls: Map<Seq<char>, CollV>,
    pub next_coll_version: int,
}

/// One durable record of the write-ahead log. Branch lifecycle is logged
/// first-class; selecting a branch is process state and is not.
pub ghost enum RecV {
    CreateBranch { name: Seq<char> },
    DeleteBranch { name: Seq<char> },
    KvPut { branch: Seq<char>, key: Seq<char>, value: ValueV },
    KvDelete { branch: Seq<char>, key: Seq<char> },
    StateSet { branch: Seq<char>, cell: Seq<char>, value: ValueV },
    EventAppend { branch: Seq<char>, event_type: Seq<char>, payload: ValueV },
    JsonSet { branch: Seq<char>, key: Seq<char>, path: Seq<PathSegV>, value: ValueV },
    JsonDelete { branch: Seq<char>, key: Seq<char>, path: Seq<PathSegV> },
    VectorCreate { branch: Seq<char>, name: Seq<char>, dimension: u64, metric: DistanceMetric },
    VectorDeleteCollection { branch: Seq<char>, name: Seq<char> },
    VectorUpsert {
        branch: Seq<char>,
        coll: Seq<char>,
        key: Seq<char>,
        embedding: Seq<i32>,
        metadata: Option<ValueV>,
    },
    VectorDelete { branch: Seq<char>, coll: Seq<char>, key: Seq<char> },
}

/// The whole engine.
pub ghost struct DbV {
    pub branches: Map<Seq<char>, BranchV>,
    pub current: Seq<char>,
    pub durability: Durability,
    pub poisoned: bool,
    pub auto_embed: bool,
    pub wal: Seq<RecV>,
    pub wal_appends: u64,
    pub sync_calls: u64,
}

/// A branch with nothing in it.
pub open spec fn empty_branch() -> BranchV {
    BranchV {
        kv: Map::empty(),
        cells: Map::empty(),
        events: Seq::empty(),
        docs: Map::empty(),
        colls: Map::empty(),
        next_coll_version: 1,
    }
}

/// The branch map a fresh engine starts with: `default` alone, empty.
pub open spec fn init_branches() -> Map<Seq<char>, BranchV> {
    Map::empty().insert(default_branch_name(), empty_branch())
}

/// A fresh engine under the given durability policy.
pub open spec fn init_db(durability: Durability) -> DbV {
    DbV {
        branches: init_branches(),
        current: default_branch_name(),
        durability,
        poisoned: false,
        auto_embed: false,
        wal: Seq::empty(),
        wal_appends: 0,
        sync_calls: 0,
    }
}

// ---------------------------------------------------------------------------
// Branch-level effects, shared by the operations and by replay
// ---------------------------------------------------------------------------

/// The version a write to `cell` assigns.
pub open spec fn next_cell_version(b: BranchV, cell: Seq<char>) -> int {
    if b.cells.contains_key(cell) {
        b.cells[cell].version + 1
    } else {
        1
    }
}

/// The sequence number the next event on `b` receives.
pub open spec fn next_event_seq(b: BranchV) -> int {
    b.events.len() as int + 1
}

/// Write `value` to `cell`, assigning the next version.
pub open spec fn branch_state_set(b: BranchV, cell: Seq<char>, value: ValueV) -> BranchV {
    BranchV {
        cells: b.cells.insert(cell, CellV { value, version: next_cell_version(b, cell) }),
        ..b
    }
}

/// Append an event of `event_type` with `payload`.
pub open spec fn branch_event_append(b: BranchV, event_type: Seq<char>, payload: ValueV) -> BranchV {
    BranchV {
        events: b.events.push(EventV { seq: next_event_seq(b), event_type, payload }),
        ..b
    }
}

/// The document under `key`, or an empty object for a fresh one.
pub open spec fn doc_or_empty(b: BranchV, key: Seq<char>) -> ValueV {
    if b.docs.contains_key(key) {
        b.docs[key]
    } else {
        ValueV::Object(Seq::empty())
    }
}

// ---------------------------------------------------------------------------
// Replay: the meaning of one record, and of the whole log
// ---------------------------------------------------------------------------

/// Apply one log record to a branch map. Every guard re-checks what the
/// operation checked when it logged the record, so that a log replays to
/// the same state on any start.
pub open spec fn apply_rec(m: Map<Seq<char>, BranchV>, r: RecV) -> Map<Seq<char>, BranchV> {
    match r {
        RecV::CreateBranch { name } => if m.contains_key(name) {
            m
        } else {
            m.insert(name, empty_branch())
        },
        RecV::DeleteBranch { name } => m.remove(name),
        RecV::KvPut { branch, key, value } => if m.contains_key(branch) {
            m.insert(branch, BranchV { kv: m[branch].kv.insert(key, value), ..m[branch] })
        } else {
            m
        },
        RecV::KvDelete { branch, key } => if m.contains_key(branch) {
            m.insert(branch, BranchV { kv: m[branch].kv.remove(key), ..m[branch] })
        } else {
            m
        },
        RecV::StateSet { branch, cell, value } => if m.contains_key(branch)
            && next_cell_version(m[branch], cell) <= u64::MAX as int {
            m.insert(branch, branch_state_set(m[branch], cell, value))
        } else {
            m
        },
        RecV::EventAppend { branch, event_type, payload } => if m.contains_key(branch)
            && m[branch].events.len() < u64::MAX {
            m.insert(branch, branch_event_append(m[branch], event_type, payload))
        } else {
            m
        },
        RecV::JsonSet { branch, key, path, value } => if m.contains_key(branch) {
            match doc_set(doc_or_empty(m[branch], key), path, value) {
                Some(nd) => m.insert(
                    branch,
                    BranchV { docs: m[branch].docs.insert(key, nd), ..m[branch] },
                ),
                None => m,
            }
        } else {
            m
        },
        RecV::JsonDelete { branch, key, path } => if m.contains_key(branch) {
            let b = m[branch];
            let docs2 = if path.len() == 0 {
                b.docs.remove(key)
            } else if b.docs.contains_key(key) {
                let (nd, removed) = doc_remove(b.docs[key], path);
                if removed {
                    b.docs.insert(key, nd)
                } else {
                    b.docs
                }
            } else {
                b.docs
            };
            m.insert(branch, BranchV { docs: docs2, ..b })
        } else {
            m
        },
        RecV::VectorCreate { branch, name, dimension, metric } => if m.contains_key(branch)
            && !m[branch].colls.contains_key(name) && 1 <= dimension <= 65536
            && m[branch].next_coll_version < u64::MAX as int {
            let b = m[branch];
            m.insert(
                branch,
                BranchV {
                    colls: b.colls.insert(
                        name,
                        CollV {
                            dimension,
                            metric,
                            version: b.next_coll_version,
                            items: Map::empty(),
                        },
                    ),
                    next_coll_version: b.next_coll_version + 1,
                    ..b
                },
            )
        } else {
            m
        },
        RecV::VectorDeleteCollection { branch, name } => if m.contains_key(branch) {
            m.insert(branch, BranchV { colls: m[branch].colls.remove(name), ..m[branch] })
        } else {
            m
        },
        RecV::VectorUpsert { branch, coll, key, embedding, metadata } => if m.contains_key(branch)
            && m[branch].colls.contains_key(coll) && embedding.len()
            == m[branch].colls[coll].dimension {
            let b = m[branch];
            let c = b.colls[coll];
            m.insert(
                branch,
                BranchV {
                    colls: b.colls.insert(
                        coll,
                        CollV { items: c.items.insert(key, VecEntryV { embedding, metadata }), ..c },
                    ),
                    ..b
                },
            )
        } else {
            m
        },
        RecV::VectorDelete { branch, coll, key } => if m.contains_key(branch)
            && m[branch].colls.contains_key(coll) {
            let b = m[branch];
            let c = b.colls[coll];
            m.insert(
                branch,
                BranchV { colls: b.colls.insert(coll, CollV { items: c.items.remove(key), ..c }), ..b },
            )
        } else {
            m
        },
    }
}

/// Apply a whole log, oldest record first.
pub open spec fn replay(m0: Map<Seq<char>, BranchV>, s: Seq<RecV>) -> Map<Seq<char>, BranchV>
    decreases s.len(),
{
    if s.len() == 0 {
        m0
    } else {
        apply_rec(replay(m0, s.drop_last()), s.last())
    }
}

// ---------------------------------------------------------------------------
// The operations, as functions from model to model
// ---------------------------------------------------------------------------

/// Append a record: the log grows, the append counter moves, and under
/// `Always` durability every record costs a sync.
pub open spec fn log(d: DbV, r: RecV) -> DbV {
    DbV {
        wal: d.wal.push(r),
        wal_appends: bump(d.wal_appends),
        sync_calls: if d.durability is Always {
            bump(d.sync_calls)
        } else {
            d.sync_calls
        },
        ..d
    }
}

/// Apply a record to the branches and log it, in one step.
pub open spec fn step(d: DbV, r: RecV) -> DbV {
    log(DbV { branches: apply_rec(d.branches, r), ..d }, r)
}

/// The branch the engine is on.
pub open spec fn cur(d: DbV) -> BranchV {
    d.branches[d.current]
}

pub open spec fn spec_create_branch(d: DbV, name: Seq<char>) -> DbV {
    step(d, RecV::CreateBranch { name })
}

pub open spec fn spec_delete_branch(d: DbV, name: Seq<char>) -> DbV {
    step(d, RecV::DeleteBranch { name })
}

pub open spec fn spec_set_branch(d: DbV, name: Seq<char>) -> DbV {
    DbV { current: name, ..d }
}

pub open spec fn spec_kv_put(d: DbV, key: Seq<char>, value: ValueV) -> DbV {
    step(d, RecV::KvPut { branch: d.current, key, value })
}

pub open spec fn spec_kv_delete(d: DbV, key: Seq<char>) -> DbV {
    step(d, RecV::KvDelete { branch: d.current, key })
}

pub open spec fn spec_state_set(d: DbV, cell: Seq<char>, value: ValueV) -> DbV {
    step(d, RecV::StateSet { branch: d.current, cell, value })
}

pub open spec fn spec_event_append(d: DbV, event_type: Seq<char>, payload: ValueV) -> DbV {
    step(d, RecV::EventAppend { branch: d.current, event_type, payload })
}

pub open spec fn spec_json_set(d: DbV, key: Seq<char>, path: Seq<PathSegV>, value: ValueV) -> DbV {
    step(d, RecV::JsonSet { branch: d.current, key, path, value })
}

pub open spec fn spec_json_delete(d: DbV, key: Seq<char>, path: Seq<PathSegV>) -> DbV {
    step(d, RecV::JsonDelete { branch: d.current, key, path })
}

pub open spec fn spec_vector_create(
    d: DbV,
    name: Seq<char>,
    dimension: u64,
    metric: DistanceMetric,
) -> DbV {
    step(d, RecV::VectorCreate { branch: d.current, name, dimension, metric })
}

pub open spec fn spec_vector_delete_collection(d: DbV, name: Seq<char>) -> DbV {
    step(d, RecV::VectorDeleteCollection { branch: d.current, name })
}

pub open spec fn spec_vector_upsert(
    d: DbV,
    coll: Seq<char>,
    key: Seq<char>,
    embedding: Seq<i32>,
    metadata: Option<ValueV>,
) -> DbV {
    step(d, RecV::VectorUpsert { branch: d.current, coll, key, embedding, metadata })
}

pub open spec fn spec_vector_delete(d: DbV, coll: Seq<char>, key: Seq<char>) -> DbV {
    step(d, RecV::VectorDelete { branch: d.current, coll, key })
}

/// The durable part of two engines is the same: the same branches with the
/// same contents. This is what survives closing and reopening; the selected
/// branch and the diagnostics counters are process state.
pub open spec fn same_data(a: DbV, b: DbV) -> bool {
    a.branches == b.branches
}

} // verus!
