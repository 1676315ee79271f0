//! Recovery: replaying the write-ahead log.
//!
//! The engine's invariant couples its log to its data: replaying the whole
//! log over the initial state always yields exactly the branches held. So
//! recovery is replay, and `reopen` proves the durability story end to
//! end: the engine it builds from the log alone carries the same branches,
//! cells, events, documents and vectors as the one it was read from.

use vstd::prelude::*;

use crate::db::{BranchData, CellData, Collection, Event, Strata, VectorData, WalRecord};
use crate::model::{apply_rec, default_branch_name, init_branches, replay};
use crate::paths::clone_segs;
use crate::table::{Table, TableValue};
use crate::value::clone_string;
use crate::vector::{clone_coords, clone_metadata};

verus! {

/// An owned copy of a log record with the same meaning.
fn clone_record(rec: &WalRecord) -> (r: WalRecord)
    ensures
        r@ == rec@,
{
    match rec {
        WalRecord::CreateBranch { name } => WalRecord::CreateBranch { name: clone_string(name) },
        WalRecord::DeleteBranch { name } => WalRecord::DeleteBranch { name: clone_string(name) },
        WalRecord::KvPut { branch, key, value } => WalRecord::KvPut {
            branch: clone_string(branch),
            key: clone_string(key),
            value: value.duplicate(),
        },
        WalRecord::KvDelete { branch, key } => WalRecord::KvDelete {
            branch: clone_string(branch),
            key: clone_string(key),
        },
        WalRecord::StateSet { branch, cell, value } => WalRecord::StateSet {
            branch: clone_string(branch),
            cell: clone_string(cell),
            value: value.duplicate(),
        },
        WalRecord::EventAppend { branch, event_type, payload } => WalRecord::EventAppend {
            branch: clone_string(branch),
            event_type: clone_string(event_type),
            payload: payload.duplicate(),
        },
        WalRecord::JsonSet { branch, key, path, value } => WalRecord::JsonSet {
            branch: clone_string(branch),
            key: clone_string(key),
            path: clone_segs(path),
            value: value.duplicate(),
        },
        WalRecord::JsonDelete { branch, key, path } => WalRecord::JsonDelete {
            branch: clone_string(branch),
            key: clone_string(key),
            path: clone_segs(path),
        },
        WalRecord::VectorCreate { branch, name, dimension, metric } => WalRecord::VectorCreate {
            branch: clone_string(branch),
            name: clone_string(name),
            dimension: *dimension,
            metric: *metric,
        },
        WalRecord::VectorDeleteCollection { branch, name } => WalRecord::VectorDeleteCollection {
            branch: clone_string(branch),
            name: clone_string(name),
        },
        WalRecord::VectorUpsert { branch, coll, key, embedding, metadata } => WalRecord::VectorUpsert {
            branch: clone_string(branch),
            coll: clone_string(coll),
            key: clone_string(key),
            embedding: clone_coords(embedding),
            metadata: clone_metadata(metadata),
        },
        WalRecord::VectorDelete { branch, coll, key } => WalRecord::VectorDelete {
            branch: clone_string(branch),
            coll: clone_string(coll),
            key: clone_string(key),
        },
    }
}

/// Apply one record to a branch directory, exactly as the model replays it.
fn apply_record(branches: &mut Table<BranchData>, rec: &WalRecord)
    requires
        old(branches).wf(),
    ensures
        final(branches).wf(),
        final(branches)@ == apply_rec(old(branches)@, rec@),
{
    let ghost m0 = branches@;
    match rec {
        WalRecord::CreateBranch { name } => {
            if !branches.contains(name.as_str()) {
                branches.put(clone_string(name), BranchData::empty());
            }
        },
        WalRecord::DeleteBranch { name } => {
            branches.remove(name.as_str());
        },
        WalRecord::KvPut { branch, key, value } => {
            match branches.take(branch.as_str()) {
                Some(mut b) => {
                    b.kv.put(clone_string(key), value.duplicate());
                    branches.put(clone_string(branch), b);
                    proof {
                        assert(branches@ =~= apply_rec(m0, rec@));
                    }
                },
                None => {
                    proof {
                        assert(branches@ =~= m0);
                    }
                },
            }
        },
        WalRecord::KvDelete { branch, key } => {
            match branches.take(branch.as_str()) {
                Some(mut b) => {
                    b.kv.remove(key.as_str());
                    branches.put(clone_string(branch), b);
                    proof {
                        assert(branches@ =~= apply_rec(m0, rec@));
                    }
                },
                None => {
                    proof {
                        assert(branches@ =~= m0);
                    }
                },
            }
        },
        WalRecord::StateSet { branch, cell, value } => {
            match branches.take(branch.as_str()) {
                Some(mut b) => {
                    let existing: Option<u64> = match b.cells.get(cell.as_str()) {
                        Some(c) => Some(c.version),
                        None => None,
                    };
                    match existing {
                        Option::Some(v) => {
                            if v == u64::MAX {
                                branches.put(clone_string(branch), b);
                                proof {
                                    assert(branches@ =~= m0);
                                }
                            } else {
                                b.cells.put(
                                    clone_string(cell),
                                    CellData { value: value.duplicate(), version: v + 1 },
                                );
                                branches.put(clone_string(branch), b);
                                proof {
                                    assert(branches@ =~= apply_rec(m0, rec@));
                                }
                            }
                        },
                        Option::None => {
                            b.cells.put(
                                clone_string(cell),
                                CellData { value: value.duplicate(), version: 1 },
                            );
                            branches.put(clone_string(branch), b);
                            proof {
                                assert(branches@ =~= apply_rec(m0, rec@));
                            }
                        },
                    }
                },
                None => {
                    proof {
                        assert(branches@ =~= m0);
                    }
                },
            }
        },
        WalRecord::EventAppend { branch, event_type, payload } => {
            match branches.take(branch.as_str()) {
                Some(mut b) => {
                    if b.events.len() as u64 == u64::MAX {
                        branches.put(clone_string(branch), b);
                        proof {
                            assert(branches@ =~= m0);
                        }
                    } else {
                        let seq: u64 = b.events.len() as u64 + 1;
                        let ghost events0 = b.events@;
                        b.events.push(
                            Event {
                                seq,
                                event_type: clone_string(event_type),
                                value: payload.duplicate(),
                            },
                        );
                        proof {
                            assert(crate::db::events_view(b.events@) =~= crate::db::events_view(
                                events0,
                            ).push(b.events@.last()@));
                        }
                        branches.put(clone_string(branch), b);
                        proof {
                            assert(branches@ =~= apply_rec(m0, rec@));
                        }
                    }
                },
                None => {
                    proof {
                        assert(branches@ =~= m0);
                    }
                },
            }
        },
        WalRecord::JsonSet { branch, key, path, value } => {
            match branches.take(branch.as_str()) {
                Some(mut b) => {
                    let had = b.docs.contains(key.as_str());
                    let mut doc = if had {
                        match b.docs.take(key.as_str()) {
                            Some(d) => d,
                            None => vstd::pervasive::unreached(),
                        }
                    } else {
                        crate::value::Value::Object(Vec::new())
                    };
                    proof {
                        if !had {
                            assert(crate::value::vview_fields(doc->Object_0@) =~= Seq::<(
                                Seq<char>,
                                crate::value::ValueV,
                            )>::empty());
                        }
                        assert(crate::paths::segs_view(path@).skip(0) =~= crate::paths::segs_view(
                            path@,
                        ));
                    }
                    let ok = crate::json::doc_set_in(&mut doc, path, 0, value.duplicate());
                    if ok {
                        b.docs.put(clone_string(key), doc);
                        proof {
                            assert(b.docs@ =~= m0[branch@].docs.insert(key@, doc@));
                        }
                        branches.put(clone_string(branch), b);
                        proof {
                            assert(branches@ =~= apply_rec(m0, rec@));
                        }
                    } else {
                        if had {
                            b.docs.put(clone_string(key), doc);
                            proof {
                                assert(b.docs@ =~= m0[branch@].docs);
                            }
                        }
                        branches.put(clone_string(branch), b);
                        proof {
                            assert(branches@ =~= m0);
                        }
                    }
                },
                None => {
                    proof {
                        assert(branches@ =~= m0);
                    }
                },
            }
        },
        WalRecord::JsonDelete { branch, key, path } => {
            match branches.take(branch.as_str()) {
                Some(mut b) => {
                    if path.len() == 0 {
                        b.docs.remove(key.as_str());
                    } else {
                        let had = b.docs.contains(key.as_str());
                        if had {
                            let mut doc = match b.docs.take(key.as_str()) {
                                Some(d) => d,
                                None => vstd::pervasive::unreached(),
                            };
                            proof {
                                assert(crate::paths::segs_view(path@).skip(0)
                                    =~= crate::paths::segs_view(path@));
                            }
                            let removed = crate::json::doc_remove_in(&mut doc, path, 0);
                            b.docs.put(clone_string(key), doc);
                            proof {
                                if !removed {
                                    assert(b.docs@ =~= m0[branch@].docs);
                                } else {
                                    assert(b.docs@ =~= m0[branch@].docs.insert(
                                        key@,
                                        crate::paths::doc_remove(
                                            m0[branch@].docs[key@],
                                            crate::paths::segs_view(path@),
                                        ).0,
                                    ));
                                }
                            }
                        }
                    }
                    branches.put(clone_string(branch), b);
                    proof {
                        assert(branches@ =~= apply_rec(m0, rec@));
                    }
                },
                None => {
                    proof {
                        assert(branches@ =~= m0);
                    }
                },
            }
        },
        WalRecord::VectorCreate { branch, name, dimension, metric } => {
            match branches.take(branch.as_str()) {
                Some(mut b) => {
                    let dim_ok = 1 <= *dimension && *dimension <= 65536;
                    if !b.colls.contains(name.as_str()) && dim_ok && b.next_coll_version
                        < u64::MAX {
                        let version = b.next_coll_version;
                        b.colls.put(
                            clone_string(name),
                            Collection {
                                dimension: *dimension,
                                metric: *metric,
                                version,
                                items: Table::new(),
                            },
                        );
                        b.next_coll_version = version + 1;
                        branches.put(clone_string(branch), b);
                        proof {
                            assert(branches@ =~= apply_rec(m0, rec@));
                        }
                    } else {
                        branches.put(clone_string(branch), b);
                        proof {
                            assert(branches@ =~= m0);
                        }
                    }
                },
                None => {
                    proof {
                        assert(branches@ =~= m0);
                    }
                },
            }
        },
        WalRecord::VectorDeleteCollection { branch, name } => {
            match branches.take(branch.as_str()) {
                Some(mut b) => {
                    b.colls.remove(name.as_str());
                    branches.put(clone_string(branch), b);
                    proof {
                        assert(branches@ =~= apply_rec(m0, rec@));
                    }
                },
                None => {
                    proof {
                        assert(branches@ =~= m0);
                    }
                },
            }
        },
        WalRecord::VectorUpsert { branch, coll, key, embedding, metadata } => {
            match branches.take(branch.as_str()) {
                Some(mut b) => {
                    match b.colls.take(coll.as_str()) {
                        Some(mut c) => {
                            if embedding.len() as u64 == c.dimension {
                                c.items.put(
                                    clone_string(key),
                                    VectorData {
                                        embedding: clone_coords(embedding),
                                        metadata: clone_metadata(metadata),
                                    },
                                );
                                b.colls.put(clone_string(coll), c);
                                branches.put(clone_string(branch), b);
                                proof {
                                    assert(b.colls@ =~= m0[branch@].colls.insert(
                                        coll@,
                                        crate::model::CollV {
                                            items: m0[branch@].colls[coll@].items.insert(
                                                key@,
                                                crate::model::VecEntryV {
                                                    embedding: embedding@,
                                                    metadata: crate::db::opt_vview(*metadata),
                                                },
                                            ),
                                            ..m0[branch@].colls[coll@]
                                        },
                                    ));
                                    assert(branches@ =~= apply_rec(m0, rec@));
                                }
                            } else {
                                b.colls.put(clone_string(coll), c);
                                proof {
                                    assert(b.colls@ =~= m0[branch@].colls);
                                }
                                branches.put(clone_string(branch), b);
                                proof {
                                    assert(branches@ =~= m0);
                                }
                            }
                        },
                        None => {
                            branches.put(clone_string(branch), b);
                            proof {
                                assert(branches@ =~= m0);
                            }
                        },
                    }
                },
                None => {
                    proof {
                        assert(branches@ =~= m0);
                    }
                },
            }
        },
        WalRecord::VectorDelete { branch, coll, key } => {
            match branches.take(branch.as_str()) {
                Some(mut b) => {
                    match b.colls.take(coll.as_str()) {
                        Some(mut c) => {
                            c.items.remove(key.as_str());
                            b.colls.put(clone_string(coll), c);
                            branches.put(clone_string(branch), b);
                            proof {
                                assert(b.colls@ =~= m0[branch@].colls.insert(
                                    coll@,
                                    crate::model::CollV {
                                        items: m0[branch@].colls[coll@].items.remove(key@),
                                        ..m0[branch@].colls[coll@]
                                    },
                                ));
                                assert(branches@ =~= apply_rec(m0, rec@));
                            }
                        },
                        None => {
                            branches.put(clone_string(branch), b);
                            proof {
                                assert(branches@ =~= m0);
                            }
                        },
                    }
                },
                None => {
                    proof {
                        assert(branches@ =~= m0);
                    }
                },
            }
        },
    }
}

impl Strata {
    /// Rebuild an engine from this one's log alone, as opening the stored
    /// directory would. The result holds exactly the same branches with
    /// exactly the same contents — closing and reopening loses nothing —
    /// and starts on `default` with fresh process state.
    pub fn reopen(&self) -> (r: Strata)
        requires
            self.wf(),
        ensures
            r.wf(),
            r@.branches == self@.branches,
            r@.current == default_branch_name(),
            r@.durability == self@.durability,
            r@.wal == self@.wal,
            !r@.poisoned,
    {
        let mut branches: Table<BranchData> = Table::new();
        branches.put(String::from_str("default"), BranchData::empty());
        let mut wal2: Vec<WalRecord> = Vec::new();
        let mut i: usize = 0;
        proof {
            assert(crate::db::wal_view(wal2@) =~= crate::db::wal_view(self.wal@).take(0));
            assert(branches@ =~= init_branches());
            assert(replay(init_branches(), crate::db::wal_view(self.wal@).take(0))
                == init_branches());
        }
        while i < self.wal.len()
            invariant
                i <= self.wal@.len(),
                branches.wf(),
                branches@ == replay(init_branches(), crate::db::wal_view(self.wal@).take(i as int)),
                crate::db::wal_view(wal2@) == crate::db::wal_view(self.wal@).take(i as int),
            decreases self.wal@.len() - i,
        {
            let ghost w = crate::db::wal_view(self.wal@);
            proof {
                assert(w.take(i as int + 1).drop_last() =~= w.take(i as int));
                assert(w.take(i as int + 1).last() == w[i as int]);
            }
            apply_record(&mut branches, &self.wal[i]);
            let copy = clone_record(&self.wal[i]);
            let ghost wal2b = wal2@;
            wal2.push(copy);
            proof {
                assert(crate::db::wal_view(wal2@) =~= crate::db::wal_view(wal2b).push(
                    wal2@.last()@,
                ));
                assert(crate::db::wal_view(wal2@) =~= w.take(i as int + 1));
            }
            i = i + 1;
        }
        proof {
            assert(crate::db::wal_view(self.wal@).take(self.wal@.len() as int)
                =~= crate::db::wal_view(self.wal@));
        }
        let r = Strata {
            branches,
            current: String::from_str("default"),
            durability: self.durability,
            poisoned: false,
            auto_embed: self.auto_embed,
            wal: wal2,
            wal_appends: self.wal_appends,
            sync_calls: 0,
        };
        r
    }
}

} // verus!
