//! The engine: branch-scoped storage for the five primitives, coupled to a
//! write-ahead log.
//!
//! [`Strata`] owns a directory of branches; every primitive operation works
//! on the selected branch and appends one log record before it is
//! acknowledged. The meaning of an engine value is a [`DbV`] and each
//! operation's contract says exactly which model function it computes.

use vstd::prelude::*;

use crate::common::{
    bump, bump_counter, DistanceMetric, Durability, StrataError, WalCounters,
};
use crate::model::{
    apply_rec, default_branch_name, init_branches, init_db, replay, spec_create_branch,
    spec_delete_branch, spec_set_branch, BranchV, CellV, CollV, DbV, EventV, RecV, VecEntryV,
};
use crate::paths::{segs_view, PathSeg};
use crate::table::{Table, TableValue};
use crate::text::str_eq;
use crate::value::{clone_string, Value, ValueV};

verus! {

/// A state cell: its value and its version, 1 on first write.
pub struct CellData {
    pub value: Value,
    pub version: u64,
}

impl View for CellData {
    type V = CellV;

    open spec fn view(&self) -> CellV {
        CellV { value: self.value@, version: self.version as int }
    }
}

impl TableValue for CellData {
    open spec fn inv(&self) -> bool {
        self.version >= 1
    }
}

/// An appended event. Events are immutable once appended.
#[derive(Debug)]
pub struct Event {
    /// The engine-assigned sequence number, 1 for the first event.
    pub seq: u64,
    /// The caller-supplied type, used by the secondary index.
    pub event_type: String,
    /// The payload.
    pub value: Value,
}

impl View for Event {
    type V = EventV;

    open spec fn view(&self) -> EventV {
        EventV { seq: self.seq as int, event_type: self.event_type@, payload: self.value@ }
    }
}

/// A stored vector: fixed-point coordinates and optional metadata.
#[derive(Debug, PartialEq)]
pub struct VectorData {
    pub embedding: Vec<i32>,
    pub metadata: Option<Value>,
}

/// The view of optional metadata.
pub open spec fn opt_vview(m: Option<Value>) -> Option<ValueV> {
    match m {
        Some(v) => Some(v@),
        None => None,
    }
}

impl View for VectorData {
    type V = VecEntryV;

    open spec fn view(&self) -> VecEntryV {
        VecEntryV { embedding: self.embedding@, metadata: opt_vview(self.metadata) }
    }
}

impl TableValue for VectorData {
    open spec fn inv(&self) -> bool {
        true
    }
}

/// A vector collection.
pub struct Collection {
    pub dimension: u64,
    pub metric: DistanceMetric,
    pub version: u64,
    pub items: Table<VectorData>,
}

impl View for Collection {
    type V = CollV;

    open spec fn view(&self) -> CollV {
        CollV {
            dimension: self.dimension,
            metric: self.metric,
            version: self.version as int,
            items: self.items@,
        }
    }
}

impl TableValue for Collection {
    open spec fn inv(&self) -> bool {
        self.items.wf() && self.version >= 1 && 1 <= self.dimension <= 65536 && forall|k: Seq<char>|
            self.items@.contains_key(k) ==> (#[trigger] self.items@[k]).embedding.len()
                == self.dimension
    }
}

/// The views of a branch's events, in order.
pub open spec fn events_view(s: Seq<Event>) -> Seq<EventV> {
    Seq::new(s.len(), |i: int| s[i]@)
}

/// Everything one branch holds.
pub struct BranchData {
    pub kv: Table<Value>,
    pub cells: Table<CellData>,
    pub events: Vec<Event>,
    pub docs: Table<Value>,
    pub colls: Table<Collection>,
    pub next_coll_version: u64,
}

impl View for BranchData {
    type V = BranchV;

    open spec fn view(&self) -> BranchV {
        BranchV {
            kv: self.kv@,
            cells: self.cells@,
            events: events_view(self.events@),
            docs: self.docs@,
            colls: self.colls@,
            next_coll_version: self.next_coll_version as int,
        }
    }
}

impl TableValue for BranchData {
    open spec fn inv(&self) -> bool {
        &&& self.kv.wf()
        &&& self.cells.wf()
        &&& self.docs.wf()
        &&& self.colls.wf()
        &&& self.next_coll_version >= 1
        &&& forall|i: int|
            0 <= i < self.events@.len() ==> (#[trigger] self.events@[i]).seq as int == i + 1
    }
}

impl BranchData {
    /// A branch with nothing in it.
    pub fn empty() -> (r: BranchData)
        ensures
            r.inv(),
            r@ == crate::model::empty_branch(),
    {
        let r = BranchData {
            kv: Table::new(),
            cells: Table::new(),
            events: Vec::new(),
            docs: Table::new(),
            colls: Table::new(),
            next_coll_version: 1,
        };
        proof {
            assert(events_view(r.events@) =~= Seq::<EventV>::empty());
        }
        r
    }
}

/// One durable record of the write-ahead log, as stored.
pub enum WalRecord {
    CreateBranch { name: String },
    DeleteBranch { name: String },
    KvPut { branch: String, key: String, value: Value },
    KvDelete { branch: String, key: String },
    StateSet { branch: String, cell: String, value: Value },
    EventAppend { branch: String, event_type: String, payload: Value },
    JsonSet { branch: String, key: String, path: Vec<PathSeg>, value: Value },
    JsonDelete { branch: String, key: String, path: Vec<PathSeg> },
    VectorCreate { branch: String, name: String, dimension: u64, metric: DistanceMetric },
    VectorDeleteCollection { branch: String, name: String },
    VectorUpsert {
        branch: String,
        coll: String,
        key: String,
        embedding: Vec<i32>,
        metadata: Option<Value>,
    },
    VectorDelete { branch: String, coll: String, key: String },
}

impl View for WalRecord {
    type V = RecV;

    open spec fn view(&self) -> RecV {
        match self {
            WalRecord::CreateBranch { name } => RecV::CreateBranch { name: name@ },
            WalRecord::DeleteBranch { name } => RecV::DeleteBranch { name: name@ },
            WalRecord::KvPut { branch, key, value } => RecV::KvPut {
                branch: branch@,
                key: key@,
                value: value@,
            },
            WalRecord::KvDelete { branch, key } => RecV::KvDelete { branch: branch@, key: key@ },
            WalRecord::StateSet { branch, cell, value } => RecV::StateSet {
                branch: branch@,
                cell: cell@,
                value: value@,
            },
            WalRecord::EventAppend { branch, event_type, payload } => RecV::EventAppend {
                branch: branch@,
                event_type: event_type@,
                payload: payload@,
            },
            WalRecord::JsonSet { branch, key, path, value } => RecV::JsonSet {
                branch: branch@,
                key: key@,
                path: segs_view(path@),
                value: value@,
            },
            WalRecord::JsonDelete { branch, key, path } => RecV::JsonDelete {
                branch: branch@,
                key: key@,
                path: segs_view(path@),
            },
            WalRecord::VectorCreate { branch, name, dimension, metric } => RecV::VectorCreate {
                branch: branch@,
                name: name@,
                dimension: *dimension,
                metric: *metric,
            },
            WalRecord::VectorDeleteCollection { branch, name } => RecV::VectorDeleteCollection {
                branch: branch@,
                name: name@,
            },
            WalRecord::VectorUpsert { branch, coll, key, embedding, metadata } => RecV::VectorUpsert {
                branch: branch@,
                coll: coll@,
                key: key@,
                embedding: embedding@,
                metadata: opt_vview(*metadata),
            },
            WalRecord::VectorDelete { branch, coll, key } => RecV::VectorDelete {
                branch: branch@,
                coll: coll@,
                key: key@,
            },
        }
    }
}

/// The views of the stored log records, oldest first.
pub open spec fn wal_view(s: Seq<WalRecord>) -> Seq<RecV> {
    Seq::new(s.len(), |i: int| s[i]@)
}

/// The engine.
pub struct Strata {
    pub branches: Table<BranchData>,
    pub current: String,
    pub durability: Durability,
    pub poisoned: bool,
    pub auto_embed: bool,
    pub wal: Vec<WalRecord>,
    pub wal_appends: u64,
    pub sync_calls: u64,
}

impl View for Strata {
    type V = DbV;

    open spec fn view(&self) -> DbV {
        DbV {
            branches: self.branches@,
            current: self.current@,
            durability: self.durability,
            poisoned: self.poisoned,
            auto_embed: self.auto_embed,
            wal: wal_view(self.wal@),
            wal_appends: self.wal_appends,
            sync_calls: self.sync_calls,
        }
    }
}

impl Strata {
    /// The engine's invariant: a well-formed branch directory that always
    /// holds the selected branch and the `default` branch, and a log that
    /// replays to exactly the branches held.
    pub open spec fn wf(self) -> bool {
        &&& self.branches.wf()
        &&& self@.branches.contains_key(self@.current)
        &&& self@.branches.contains_key(default_branch_name())
        &&& replay(init_branches(), self@.wal) == self@.branches
    }

    /// A fresh engine under the given durability policy, on `default`.
    pub fn new_with(durability: Durability) -> (r: Strata)
        ensures
            r.wf(),
            r@ == init_db(durability),
    {
        let mut branches: Table<BranchData> = Table::new();
        branches.put(String::from_str("default"), BranchData::empty());
        let r = Strata {
            branches,
            current: String::from_str("default"),
            durability,
            poisoned: false,
            auto_embed: false,
            wal: Vec::new(),
            wal_appends: 0,
            sync_calls: 0,
        };
        proof {
            assert(wal_view(r.wal@) =~= Seq::<RecV>::empty());
        }
        r
    }

    /// An ephemeral engine, as for tests and scratch work.
    pub fn open_temp() -> (r: Result<Strata, StrataError>)
        ensures
            match r {
                Ok(db) => db.wf() && db@ == init_db(Durability::Standard),
                Err(_) => false,
            },
    {
        Ok(Strata::new_with(Durability::Standard))
    }

    /// An engine under `Cache` durability: buffered writes, no syncs.
    pub fn cache() -> (r: Result<Strata, StrataError>)
        ensures
            match r {
                Ok(db) => db.wf() && db@ == init_db(Durability::Cache),
                Err(_) => false,
            },
    {
        Ok(Strata::new_with(Durability::Cache))
    }

    // -----------------------------------------------------------------------
    // Internal plumbing shared by the mutating operations
    // -----------------------------------------------------------------------

    /// Take the selected branch out of the directory for mutation.
    pub(crate) fn take_current(&mut self) -> (b: BranchData)
        requires
            old(self).wf(),
        ensures
            b.inv(),
            b@ == old(self)@.branches[old(self)@.current],
            final(self).branches.wf(),
            final(self).branches@ == old(self)@.branches.remove(old(self)@.current),
            final(self).current == old(self).current,
            final(self).durability == old(self).durability,
            final(self).poisoned == old(self).poisoned,
            final(self).auto_embed == old(self).auto_embed,
            final(self).wal == old(self).wal,
            final(self).wal_appends == old(self).wal_appends,
            final(self).sync_calls == old(self).sync_calls,
    {
        let cur = clone_string(&self.current);
        match self.branches.take(cur.as_str()) {
            Some(b) => b,
            None => vstd::pervasive::unreached(),
        }
    }

    /// Append one record to the log and move the counters as the
    /// durability policy asks.
    pub(crate) fn append_record(&mut self, rec: WalRecord)
        ensures
            final(self).branches == old(self).branches,
            final(self).current == old(self).current,
            final(self).durability == old(self).durability,
            final(self).poisoned == old(self).poisoned,
            final(self).auto_embed == old(self).auto_embed,
            final(self)@.wal == old(self)@.wal.push(rec@),
            final(self).wal_appends == bump(old(self).wal_appends),
            final(self).sync_calls == (if old(self).durability is Always {
                bump(old(self).sync_calls)
            } else {
                old(self).sync_calls
            }),
    {
        self.wal.push(rec);
        proof {
            assert(wal_view(self.wal@) =~= wal_view(old(self).wal@).push(self.wal@.last()@));
        }
        self.wal_appends = bump_counter(self.wal_appends);
        if self.durability == Durability::Always {
            self.sync_calls = bump_counter(self.sync_calls);
        }
    }

    /// Put the mutated branch back and log the record that carries the
    /// mutation: one engine step.
    pub(crate) fn commit_current(&mut self, b: BranchData, rec: WalRecord, Ghost(base): Ghost<DbV>)
        requires
            old(self).branches.wf(),
            b.inv(),
            old(self).branches@ == base.branches.remove(base.current),
            old(self).current@ == base.current,
            old(self).durability == base.durability,
            old(self).poisoned == base.poisoned,
            old(self).auto_embed == base.auto_embed,
            wal_view(old(self).wal@) == base.wal,
            old(self).wal_appends == base.wal_appends,
            old(self).sync_calls == base.sync_calls,
            base.branches.contains_key(base.current),
            base.branches.contains_key(default_branch_name()),
            replay(init_branches(), base.wal) == base.branches,
            apply_rec(base.branches, rec@) == base.branches.insert(base.current, b@),
        ensures
            final(self).wf(),
            final(self)@ == crate::model::step(base, rec@),
    {
        let cur = clone_string(&self.current);
        let ghost rv = rec@;
        self.branches.put(cur, b);
        self.append_record(rec);
        proof {
            assert(self@.branches =~= base.branches.insert(base.current, b@));
            assert(self@.wal.drop_last() =~= base.wal);
            assert(replay(init_branches(), self@.wal) == apply_rec(base.branches, rv));
        }
    }

    // -----------------------------------------------------------------------
    // Branches
    // -----------------------------------------------------------------------

    /// The name of the branch every operation currently works on.
    pub fn current_branch(&self) -> (r: String)
        ensures
            r@ == self@.current,
    {
        clone_string(&self.current)
    }

    /// Create a branch. Fails with `AlreadyExists` if the name is taken,
    /// with `InvalidState` on a poisoned engine.
    pub fn create_branch(&mut self, name: &str) -> (r: Result<(), StrataError>)
        requires
            old(self).wf(),
        ensures
            final(self).wf(),
            old(self)@.poisoned ==> r == Err::<(), StrataError>(StrataError::InvalidState)
                && final(self)@ == old(self)@,
            !old(self)@.poisoned && old(self)@.branches.contains_key(name@) ==> r == Err::<
                (),
                StrataError,
            >(StrataError::AlreadyExists) && final(self)@ == old(self)@,
            !old(self)@.poisoned && !old(self)@.branches.contains_key(name@) ==> r == Ok::<
                (),
                StrataError,
            >(()) && final(self)@ == spec_create_branch(old(self)@, name@),
    {
        if self.poisoned {
            return Err(StrataError::InvalidState);
        }
        if self.branches.contains(name) {
            return Err(StrataError::AlreadyExists);
        }
        let ghost base = self@;
        self.branches.put(name.to_owned(), BranchData::empty());
        self.append_record(WalRecord::CreateBranch { name: name.to_owned() });
        proof {
            assert(self@.branches =~= apply_rec(base.branches, RecV::CreateBranch { name: name@ }));
            assert(self@.wal.drop_last() =~= base.wal);
        }
        Ok(())
    }

    /// Switch to a branch. Fails with `NotFound` if it is absent. The
    /// switch is process state: nothing is logged.
    pub fn set_branch(&mut self, name: &str) -> (r: Result<(), StrataError>)
        requires
            old(self).wf(),
        ensures
            final(self).wf(),
            !old(self)@.branches.contains_key(name@) ==> r == Err::<(), StrataError>(
                StrataError::NotFound,
            ) && final(self)@ == old(self)@,
            old(self)@.branches.contains_key(name@) ==> r == Ok::<(), StrataError>(())
                && final(self)@ == spec_set_branch(old(self)@, name@),
    {
        if !self.branches.contains(name) {
            return Err(StrataError::NotFound);
        }
        self.current = name.to_owned();
        Ok(())
    }

    /// Delete a branch and purge everything under it. Fails with
    /// `InvalidState` for the selected branch, for `default`, or on a
    /// poisoned engine, and with `NotFound` for an absent name.
    pub fn delete_branch(&mut self, name: &str) -> (r: Result<(), StrataError>)
        requires
            old(self).wf(),
        ensures
            final(self).wf(),
            old(self)@.poisoned || name@ == old(self)@.current || name@ == default_branch_name()
                ==> r == Err::<(), StrataError>(StrataError::InvalidState) && final(self)@ == old(
                self,
            )@,
            !old(self)@.poisoned && name@ != old(self)@.current && name@ != default_branch_name()
                && !old(self)@.branches.contains_key(name@) ==> r == Err::<(), StrataError>(
                StrataError::NotFound,
            ) && final(self)@ == old(self)@,
            !old(self)@.poisoned && name@ != old(self)@.current && name@ != default_branch_name()
                && old(self)@.branches.contains_key(name@) ==> r == Ok::<(), StrataError>(())
                && final(self)@ == spec_delete_branch(old(self)@, name@),
    {
        if self.poisoned {
            return Err(StrataError::InvalidState);
        }
        if str_eq(name, self.current.as_str()) {
            return Err(StrataError::InvalidState);
        }
        if str_eq(name, "default") {
            return Err(StrataError::InvalidState);
        }
        if !self.branches.contains(name) {
            return Err(StrataError::NotFound);
        }
        let ghost base = self@;
        self.branches.remove(name);
        self.append_record(WalRecord::DeleteBranch { name: name.to_owned() });
        proof {
            assert(self@.branches =~= apply_rec(base.branches, RecV::DeleteBranch { name: name@ }));
            assert(self@.wal.drop_last() =~= base.wal);
        }
        Ok(())
    }

    /// The names of all branches, in ascending order.
    pub fn list_branches(&self) -> (r: Result<Vec<String>, StrataError>)
        requires
            self.wf(),
        ensures
            match r {
                Ok(names) => {
                    &&& crate::table::sorted_distinct(names@)
                    &&& forall|i: int|
                        0 <= i < names@.len() ==> self@.branches.contains_key(#[trigger] names@[i]@)
                    &&& forall|k: Seq<char>|
                        self@.branches.contains_key(k) ==> crate::table::seq_has_str(names@, k)
                },
                Err(_) => false,
            },
    {
        let names = self.branches.keys_with_prefix(None);
        proof {
            assert forall|k: Seq<char>| self@.branches.contains_key(k) implies
                crate::table::seq_has_str(names@, k) by {
                assert(crate::table::prefix_sel(None, k));
                assert(self.branches@.contains_key(k));
            }
        }
        Ok(names)
    }

    // -----------------------------------------------------------------------
    // Diagnostics and configuration
    // -----------------------------------------------------------------------

    /// Liveness check.
    pub fn ping(&self) -> (r: bool)
        ensures
            r,
    {
        true
    }

    /// A snapshot of the log counters.
    pub fn wal_counters(&self) -> (r: WalCounters)
        ensures
            r.wal_appends == self@.wal_appends,
            r.sync_calls == self@.sync_calls,
    {
        WalCounters { wal_appends: self.wal_appends, sync_calls: self.sync_calls }
    }

    /// Force buffered records to stable media. Under `Cache` durability
    /// this is a no-op; otherwise it costs one sync.
    pub fn flush(&mut self) -> (r: Result<(), StrataError>)
        requires
            old(self).wf(),
        ensures
            final(self).wf(),
            final(self)@ == (DbV {
                sync_calls: if old(self)@.durability is Cache {
                    old(self)@.sync_calls
                } else {
                    bump(old(self)@.sync_calls)
                },
                ..old(self)@
            }),
            r == Ok::<(), StrataError>(()),
    {
        if !(self.durability == Durability::Cache) {
            self.sync_calls = bump_counter(self.sync_calls);
        }
        Ok(())
    }

    /// Record that a write to stable storage failed: the engine is
    /// poisoned and every later mutation fails fast with `InvalidState`.
    pub fn mark_durability_failed(&mut self)
        requires
            old(self).wf(),
        ensures
            final(self).wf(),
            final(self)@ == (DbV { poisoned: true, ..old(self)@ }),
    {
        self.poisoned = true;
    }

    /// Set a recognized configuration option: `durability` to one of
    /// `cache`, `standard`, `always`, or `auto_embed` to `true` or
    /// `false`. Anything else is `InvalidArgument`.
    pub fn config_set(&mut self, key: &str, value: &str) -> (r: Result<(), StrataError>)
        requires
            old(self).wf(),
        ensures
            final(self).wf(),
            final(self)@ == (DbV {
                durability: final(self)@.durability,
                auto_embed: final(self)@.auto_embed,
                ..old(self)@
            }),
            r is Ok <==> (key@ == "durability"@ && (value@ == "cache"@ || value@ == "standard"@
                || value@ == "always"@)) || (key@ == "auto_embed"@ && (value@ == "true"@ || value@
                == "false"@)),
            r is Err ==> r == Err::<(), StrataError>(StrataError::InvalidArgument) && final(self)@
                == old(self)@,
            key@ == "durability"@ && value@ == "cache"@ ==> final(self)@.durability
                == Durability::Cache,
            key@ == "durability"@ && value@ == "standard"@ ==> final(self)@.durability
                == Durability::Standard,
            key@ == "durability"@ && value@ == "always"@ ==> final(self)@.durability
                == Durability::Always,
            key@ == "auto_embed"@ && value@ == "true"@ ==> final(self)@.auto_embed,
            key@ == "auto_embed"@ && value@ == "false"@ ==> !final(self)@.auto_embed,
            key@ != "durability"@ ==> final(self)@.durability == old(self)@.durability,
            key@ != "auto_embed"@ ==> final(self)@.auto_embed == old(self)@.auto_embed,
    {
        proof {
            reveal_strlit("durability");
            reveal_strlit("auto_embed");
            reveal_strlit("cache");
            reveal_strlit("standard");
            reveal_strlit("always");
            reveal_strlit("true");
            reveal_strlit("false");
            assert("durability"@.len() == 10);
            assert("auto_embed"@.len() == 10);
            assert("cache"@.len() == 5);
            assert("standard"@.len() == 8);
            assert("always"@.len() == 6);
            assert("true"@.len() == 4);
            assert("false"@.len() == 5);
            assert("durability"@[0] == 'd' && "auto_embed"@[0] == 'a');
            assert("cache"@[0] == 'c' && "false"@[0] == 'f');
        }
        if str_eq(key, "durability") {
            if str_eq(value, "cache") {
                self.durability = Durability::Cache;
                return Ok(());
            }
            if str_eq(value, "standard") {
                self.durability = Durability::Standard;
                return Ok(());
            }
            if str_eq(value, "always") {
                self.durability = Durability::Always;
                return Ok(());
            }
            return Err(StrataError::InvalidArgument);
        }
        if str_eq(key, "auto_embed") {
            if str_eq(value, "true") {
                self.auto_embed = true;
                return Ok(());
            }
            if str_eq(value, "false") {
                self.auto_embed = false;
                return Ok(());
            }
            return Err(StrataError::InvalidArgument);
        }
        Err(StrataError::InvalidArgument)
    }
}

} // verus!
