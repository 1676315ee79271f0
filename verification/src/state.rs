//! The state primitive: cells with monotonically increasing write versions,
//! the coordination token for optimistic concurrency.

use vstd::prelude::*;

use crate::common::StrataError;
use crate::db::{CellData, Strata, WalRecord};
use crate::model::{apply_rec, cur, next_cell_version, spec_state_set, RecV};
use crate::value::{clone_string, Value};

verus! {

/// The version stored under `cell`, or 0 for an absent cell.
pub open spec fn cell_version(d: crate::model::DbV, cell: Seq<char>) -> int {
    if cur(d).cells.contains_key(cell) {
        cur(d).cells[cell].version
    } else {
        0
    }
}

impl Strata {
    /// Write `value` to `cell`, assigning the next version: 1 on first
    /// write, the stored version plus one after that.
    pub fn state_set(&mut self, cell: &str, value: Value) -> (r: Result<(), StrataError>)
        requires
            old(self).wf(),
        ensures
            final(self).wf(),
            old(self)@.poisoned || cell_version(old(self)@, cell@) == u64::MAX ==> r == Err::<
                (),
                StrataError,
            >(StrataError::InvalidState) && final(self)@ == old(self)@,
            !old(self)@.poisoned && cell_version(old(self)@, cell@) < u64::MAX ==> r == Ok::<
                (),
                StrataError,
            >(()) && final(self)@ == spec_state_set(old(self)@, cell@, value@),
    {
        if self.poisoned {
            return Err(StrataError::InvalidState);
        }
        let rec = WalRecord::StateSet {
            branch: clone_string(&self.current),
            cell: cell.to_owned(),
            value: value.duplicate(),
        };
        let ghost base = self@;
        let mut b = self.take_current();
        let existing: Option<u64> = match b.cells.get(cell) {
            Some(c) => Some(c.version),
            None => None,
        };
        let version: u64 = match existing {
            Option::Some(v) => {
                if v == u64::MAX {
                    let name = clone_string(&self.current);
                    self.branches.put(name, b);
                    proof {
                        assert(self@.branches =~= base.branches);
                        assert(self@ == base);
                    }
                    return Err(StrataError::InvalidState);
                }
                v + 1
            },
            Option::None => 1,
        };
        b.cells.put(cell.to_owned(), CellData { value, version });
        proof {
            assert(apply_rec(base.branches, rec@) == base.branches.insert(base.current, b@));
        }
        self.commit_current(b, rec, Ghost(base));
        Ok(())
    }

    /// The value stored in `cell`, as an owned copy.
    pub fn state_get(&self, cell: &str) -> (r: Result<Option<Value>, StrataError>)
        requires
            self.wf(),
        ensures
            match r {
                Ok(ov) => match ov {
                    Some(v) => cur(self@).cells.contains_key(cell@) && v@ == cur(
                        self@,
                    ).cells[cell@].value,
                    None => !cur(self@).cells.contains_key(cell@),
                },
                Err(_) => false,
            },
    {
        let name = clone_string(&self.current);
        match self.branches.get(name.as_str()) {
            Some(b) => match b.cells.get(cell) {
                Some(c) => Ok(Some(c.value.duplicate())),
                None => Ok(None),
            },
            None => vstd::pervasive::unreached(),
        }
    }

    /// The value and version stored in `cell`.
    pub fn state_read(&self, cell: &str) -> (r: Result<Option<(Value, u64)>, StrataError>)
        requires
            self.wf(),
        ensures
            match r {
                Ok(ov) => match ov {
                    Some(p) => cur(self@).cells.contains_key(cell@) && p.0@ == cur(
                        self@,
                    ).cells[cell@].value && p.1 as int == cur(self@).cells[cell@].version,
                    None => !cur(self@).cells.contains_key(cell@),
                },
                Err(_) => false,
            },
    {
        let name = clone_string(&self.current);
        match self.branches.get(name.as_str()) {
            Some(b) => match b.cells.get(cell) {
                Some(c) => Ok(Some((c.value.duplicate(), c.version))),
                None => Ok(None),
            },
            None => vstd::pervasive::unreached(),
        }
    }

    /// Conditional write: succeeds, returning the new version, exactly when
    /// `expected` names the stored version — `None` for "the cell must not
    /// exist yet". A failed check returns `Ok(None)` and changes nothing.
    pub fn state_cas(&mut self, cell: &str, expected: Option<u64>, value: Value) -> (r: Result<
        Option<u64>,
        StrataError,
    >)
        requires
            old(self).wf(),
        ensures
            final(self).wf(),
            old(self)@.poisoned ==> r == Err::<Option<u64>, StrataError>(StrataError::InvalidState)
                && final(self)@ == old(self)@,
            !old(self)@.poisoned ==> (match expected {
                Option::None => if !cur(old(self)@).cells.contains_key(cell@) {
                    r == Ok::<Option<u64>, StrataError>(Some(1u64)) && final(self)@
                        == spec_state_set(old(self)@, cell@, value@)
                } else {
                    r == Ok::<Option<u64>, StrataError>(None::<u64>) && final(self)@ == old(self)@
                },
                Option::Some(v) => if cur(old(self)@).cells.contains_key(cell@) && v as int == cur(
                    old(self)@,
                ).cells[cell@].version && v < u64::MAX {
                    r == Ok::<Option<u64>, StrataError>(Some((v + 1) as u64)) && final(self)@
                        == spec_state_set(old(self)@, cell@, value@)
                } else if cur(old(self)@).cells.contains_key(cell@) && v as int == cur(
                    old(self)@,
                ).cells[cell@].version {
                    r == Err::<Option<u64>, StrataError>(StrataError::InvalidState) && final(self)@
                        == old(self)@
                } else {
                    r == Ok::<Option<u64>, StrataError>(None::<u64>) && final(self)@ == old(self)@
                },
            }),
    {
        if self.poisoned {
            return Err(StrataError::InvalidState);
        }
        let rec = WalRecord::StateSet {
            branch: clone_string(&self.current),
            cell: cell.to_owned(),
            value: value.duplicate(),
        };
        let ghost base = self@;
        let mut b = self.take_current();
        let existing: Option<u64> = match b.cells.get(cell) {
            Some(c) => Some(c.version),
            None => None,
        };
        let version: u64 = match existing {
            Option::Some(stored) => {
                let ok = match expected {
                    Option::Some(v) => v == stored,
                    Option::None => false,
                };
                if !ok {
                    let name = clone_string(&self.current);
                    self.branches.put(name, b);
                    proof {
                        assert(self@.branches =~= base.branches);
                        assert(self@ == base);
                    }
                    return Ok(None);
                }
                if stored == u64::MAX {
                    let name = clone_string(&self.current);
                    self.branches.put(name, b);
                    proof {
                        assert(self@.branches =~= base.branches);
                        assert(self@ == base);
                    }
                    return Err(StrataError::InvalidState);
                }
                stored + 1
            },
            Option::None => {
                let ok = match expected {
                    Option::Some(_) => false,
                    Option::None => true,
                };
                if !ok {
                    let name = clone_string(&self.current);
                    self.branches.put(name, b);
                    proof {
                        assert(self@.branches =~= base.branches);
                        assert(self@ == base);
                    }
                    return Ok(None);
                }
                1
            },
        };
        b.cells.put(cell.to_owned(), CellData { value, version });
        proof {
            assert(apply_rec(base.branches, rec@) == base.branches.insert(base.current, b@));
        }
        self.commit_current(b, rec, Ghost(base));
        Ok(Some(version))
    }
}

} // verus!
