//! The engine's cross-cutting guarantees, stated and proved once over the
//! model: branch isolation, version discipline, event-log monotonicity,
//! round trips, and the emptiness of a re-created branch.

use vstd::prelude::*;

use crate::model::{
    cur, empty_branch, spec_create_branch, spec_delete_branch, spec_event_append, spec_json_set,
    spec_kv_delete, spec_kv_put, spec_state_set, spec_vector_upsert, DbV, RecV, VecEntryV,
};
use crate::paths::{doc_get, parse_path};
use crate::state::cell_version;
use crate::value::ValueV;

verus! {

/// The branch a record touches.
pub open spec fn rec_branch(r: RecV) -> Seq<char> {
    match r {
        RecV::CreateBranch { name } => name,
        RecV::DeleteBranch { name } => name,
        RecV::KvPut { branch, .. } => branch,
        RecV::KvDelete { branch, .. } => branch,
        RecV::StateSet { branch, .. } => branch,
        RecV::EventAppend { branch, .. } => branch,
        RecV::JsonSet { branch, .. } => branch,
        RecV::JsonDelete { branch, .. } => branch,
        RecV::VectorCreate { branch, .. } => branch,
        RecV::VectorDeleteCollection { branch, .. } => branch,
        RecV::VectorUpsert { branch, .. } => branch,
        RecV::VectorDelete { branch, .. } => branch,
    }
}

/// Branch isolation: one engine step touches one branch. Every other
/// branch holds exactly the state it held before, for every primitive.
pub proof fn lemma_step_isolation(d: DbV, r: RecV, other: Seq<char>)
    requires
        other != rec_branch(r),
    ensures
        crate::model::step(d, r).branches.contains_key(other) == d.branches.contains_key(other),
        d.branches.contains_key(other) ==> crate::model::step(d, r).branches[other]
            == d.branches[other],
{
}

/// Branch isolation for the key-value primitive: a put on the selected
/// branch leaves every other branch untouched.
pub proof fn lemma_kv_put_isolated(d: DbV, key: Seq<char>, value: ValueV, other: Seq<char>)
    requires
        other != d.current,
        d.branches.contains_key(other),
    ensures
        spec_kv_put(d, key, value).branches[other] == d.branches[other],
{
    lemma_step_isolation(d, RecV::KvPut { branch: d.current, key, value }, other);
}

/// Branch isolation for deletes.
pub proof fn lemma_kv_delete_isolated(d: DbV, key: Seq<char>, other: Seq<char>)
    requires
        other != d.current,
        d.branches.contains_key(other),
    ensures
        spec_kv_delete(d, key).branches[other] == d.branches[other],
{
    lemma_step_isolation(d, RecV::KvDelete { branch: d.current, key }, other);
}

/// Branch isolation for state cells.
pub proof fn lemma_state_set_isolated(d: DbV, cell: Seq<char>, value: ValueV, other: Seq<char>)
    requires
        other != d.current,
        d.branches.contains_key(other),
    ensures
        spec_state_set(d, cell, value).branches[other] == d.branches[other],
{
    lemma_step_isolation(d, RecV::StateSet { branch: d.current, cell, value }, other);
}

/// Branch isolation for the event log.
pub proof fn lemma_event_append_isolated(
    d: DbV,
    event_type: Seq<char>,
    payload: ValueV,
    other: Seq<char>,
)
    requires
        other != d.current,
        d.branches.contains_key(other),
    ensures
        spec_event_append(d, event_type, payload).branches[other] == d.branches[other],
{
    lemma_step_isolation(d, RecV::EventAppend { branch: d.current, event_type, payload }, other);
}

/// Writing one primitive never moves another: a key-value put leaves the
/// selected branch's cells, events, documents and collections as they
/// were.
pub proof fn lemma_kv_put_touches_only_kv(d: DbV, key: Seq<char>, value: ValueV)
    requires
        d.branches.contains_key(d.current),
    ensures
        cur(spec_kv_put(d, key, value)).cells == cur(d).cells,
        cur(spec_kv_put(d, key, value)).events == cur(d).events,
        cur(spec_kv_put(d, key, value)).docs == cur(d).docs,
        cur(spec_kv_put(d, key, value)).colls == cur(d).colls,
        cur(spec_kv_put(d, key, value)).kv == cur(d).kv.insert(key, value),
{
}

/// Version discipline: a successful write to a cell assigns exactly the
/// previous version plus one, and 1 to a fresh cell; no other cell moves.
pub proof fn lemma_cell_version_increment(d: DbV, cell: Seq<char>, value: ValueV)
    requires
        d.branches.contains_key(d.current),
        cell_version(d, cell) < u64::MAX,
    ensures
        cell_version(spec_state_set(d, cell, value), cell) == cell_version(d, cell) + 1,
        forall|c2: Seq<char>|
            c2 != cell ==> cell_version(spec_state_set(d, cell, value), c2) == cell_version(d, c2),
        cur(spec_state_set(d, cell, value)).cells[cell].value == value,
{
    assert forall|c2: Seq<char>| c2 != cell implies cell_version(spec_state_set(d, cell, value), c2)
        == cell_version(d, c2) by {
        assert(cur(spec_state_set(d, cell, value)).cells.contains_key(c2) == cur(
            d,
        ).cells.contains_key(c2));
    }
}

/// Only state writes move versions: the other primitives' operations leave
/// every cell of the selected branch exactly as it was.
pub proof fn lemma_versions_untouched_by_others(d: DbV, r: RecV)
    requires
        d.branches.contains_key(d.current),
        !(r is StateSet),
        !(r is CreateBranch),
        !(r is DeleteBranch),
        rec_branch(r) == d.current,
    ensures
        cur(crate::model::step(d, r)).cells == cur(d).cells,
{
    match r {
        RecV::CreateBranch { .. } => {},
        RecV::DeleteBranch { .. } => {},
        RecV::KvPut { .. } => {},
        RecV::KvDelete { .. } => {},
        RecV::StateSet { .. } => {},
        RecV::EventAppend { .. } => {},
        RecV::JsonSet { .. } => {},
        RecV::JsonDelete { .. } => {},
        RecV::VectorCreate { .. } => {},
        RecV::VectorDeleteCollection { .. } => {},
        RecV::VectorUpsert { .. } => {},
        RecV::VectorDelete { .. } => {},
    }
}

/// Event-log monotonicity: an append returns a sequence number strictly
/// above every sequence already on the branch, the count grows by exactly
/// one, and no already-appended event changes — events are immutable.
pub proof fn lemma_event_append_law(d: DbV, event_type: Seq<char>, payload: ValueV)
    requires
        d.branches.contains_key(d.current),
        cur(d).events.len() < u64::MAX,
        forall|i: int|
            0 <= i < cur(d).events.len() ==> (#[trigger] cur(d).events[i]).seq == i + 1,
    ensures
        ({
            let d2 = spec_event_append(d, event_type, payload);
            &&& cur(d2).events.len() == cur(d).events.len() + 1
            &&& cur(d2).events.last().seq == cur(d).events.len() + 1
            &&& forall|i: int|
                0 <= i < cur(d).events.len() ==> #[trigger] cur(d2).events[i] == cur(d).events[i]
            &&& forall|i: int|
                0 <= i < cur(d).events.len() ==> (#[trigger] cur(d).events[i]).seq < cur(
                    d2,
                ).events.last().seq
        }),
{
}

/// Round trip: writing a whole document at the root and reading the root
/// back yields exactly the value written, for every representable value.
pub proof fn lemma_json_root_round_trip(d: DbV, key: Seq<char>, v: ValueV)
    requires
        d.branches.contains_key(d.current),
    ensures
        ({
            let d2 = spec_json_set(d, key, Seq::empty(), v);
            cur(d2).docs.contains_key(key) && doc_get(cur(d2).docs[key], Seq::empty()) == Some(v)
        }),
{
}

/// The root path: `$` parses to the empty step sequence.
pub proof fn lemma_root_path()
    ensures
        parse_path("$"@) == Some(Seq::<crate::paths::PathSegV>::empty()),
{
    reveal_strlit("$");
    assert("$"@.len() == 1);
    assert("$"@[0] == '$');
}

/// Round trip: a put followed by a delete leaves the key absent.
pub proof fn lemma_kv_put_delete_gone(d: DbV, key: Seq<char>, value: ValueV)
    requires
        d.branches.contains_key(d.current),
    ensures
        !cur(spec_kv_delete(spec_kv_put(d, key, value), key)).kv.contains_key(key),
        forall|k2: Seq<char>|
            k2 != key ==> cur(spec_kv_delete(spec_kv_put(d, key, value), key)).kv.contains_key(k2)
                == cur(d).kv.contains_key(k2),
{
}

/// A branch created, deleted and created again succeeds at every step and
/// comes back as an empty namespace: no key, cell, event, document or
/// collection of the first incarnation survives.
pub proof fn lemma_branch_recreate_empty(d: DbV, name: Seq<char>)
    requires
        !d.branches.contains_key(name),
        name != d.current,
    ensures
        ({
            let d1 = spec_create_branch(d, name);
            let d2 = spec_delete_branch(d1, name);
            let d3 = spec_create_branch(d2, name);
            &&& d1.branches.contains_key(name) && d1.branches[name] == empty_branch()
            &&& !d2.branches.contains_key(name)
            &&& d3.branches.contains_key(name) && d3.branches[name] == empty_branch()
        }),
{
}

/// The dimension invariant: when every entry of a collection has the
/// collection's dimension, an upsert of a conforming embedding keeps it
/// that way, and the entry then holds exactly the embedding written.
pub proof fn lemma_vector_upsert_exact(
    d: DbV,
    coll: Seq<char>,
    key: Seq<char>,
    embedding: Seq<i32>,
    metadata: Option<ValueV>,
)
    requires
        d.branches.contains_key(d.current),
        cur(d).colls.contains_key(coll),
        embedding.len() == cur(d).colls[coll].dimension,
        forall|k2: Seq<char>|
            cur(d).colls[coll].items.contains_key(k2) ==> (#[trigger] cur(
                d,
            ).colls[coll].items[k2]).embedding.len() == cur(d).colls[coll].dimension,
    ensures
        ({
            let d2 = spec_vector_upsert(d, coll, key, embedding, metadata);
            &&& cur(d2).colls[coll].items[key] == (VecEntryV { embedding, metadata })
            &&& cur(d2).colls[coll].dimension == cur(d).colls[coll].dimension
            &&& forall|k2: Seq<char>|
                cur(d2).colls[coll].items.contains_key(k2) ==> (#[trigger] cur(
                    d2,
                ).colls[coll].items[k2]).embedding.len() == cur(d2).colls[coll].dimension
        }),
{
}

} // verus!
