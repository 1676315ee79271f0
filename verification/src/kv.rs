//! The key-value primitive: a prefix-scannable string-to-value mapping on
//! the selected branch.

use vstd::prelude::*;

use crate::common::StrataError;
use crate::db::{Strata, WalRecord};
use crate::model::{apply_rec, cur, spec_kv_delete, spec_kv_put, RecV};
use crate::table::{prefix_sel, seq_has_str, sorted_distinct};
use crate::value::{clone_string, Value};

verus! {

impl Strata {
    /// Map `key` to `value` on the selected branch, replacing any previous
    /// value.
    pub fn kv_put(&mut self, key: &str, value: Value) -> (r: Result<(), StrataError>)
        requires
            old(self).wf(),
        ensures
            final(self).wf(),
            old(self)@.poisoned ==> r == Err::<(), StrataError>(StrataError::InvalidState)
                && final(self)@ == old(self)@,
            !old(self)@.poisoned ==> r == Ok::<(), StrataError>(()) && final(self)@ == spec_kv_put(
                old(self)@,
                key@,
                value@,
            ),
    {
        if self.poisoned {
            return Err(StrataError::InvalidState);
        }
        let rec = WalRecord::KvPut {
            branch: clone_string(&self.current),
            key: key.to_owned(),
            value: value.duplicate(),
        };
        let ghost base = self@;
        let mut b = self.take_current();
        b.kv.put(key.to_owned(), value);
        proof {
            assert(apply_rec(base.branches, rec@) == base.branches.insert(base.current, b@));
        }
        self.commit_current(b, rec, Ghost(base));
        Ok(())
    }

    /// The value under `key` on the selected branch, as an owned copy.
    pub fn kv_get(&self, key: &str) -> (r: Result<Option<Value>, StrataError>)
        requires
            self.wf(),
        ensures
            match r {
                Ok(ov) => match ov {
                    Some(v) => cur(self@).kv.contains_key(key@) && v@ == cur(self@).kv[key@],
                    None => !cur(self@).kv.contains_key(key@),
                },
                Err(_) => false,
            },
    {
        let name = clone_string(&self.current);
        match self.branches.get(name.as_str()) {
            Some(b) => match b.kv.get(key) {
                Some(v) => Ok(Some(v.duplicate())),
                None => Ok(None),
            },
            None => vstd::pervasive::unreached(),
        }
    }

    /// Remove `key` from the selected branch; `Ok(false)` when it was
    /// absent.
    pub fn kv_delete(&mut self, key: &str) -> (r: Result<bool, StrataError>)
        requires
            old(self).wf(),
        ensures
            final(self).wf(),
            old(self)@.poisoned ==> r == Err::<bool, StrataError>(StrataError::InvalidState)
                && final(self)@ == old(self)@,
            !old(self)@.poisoned ==> r == Ok::<bool, StrataError>(
                cur(old(self)@).kv.contains_key(key@),
            ) && final(self)@ == spec_kv_delete(old(self)@, key@),
    {
        if self.poisoned {
            return Err(StrataError::InvalidState);
        }
        let rec = WalRecord::KvDelete { branch: clone_string(&self.current), key: key.to_owned() };
        let ghost base = self@;
        let mut b = self.take_current();
        let had = b.kv.remove(key);
        proof {
            assert(apply_rec(base.branches, rec@) == base.branches.insert(base.current, b@));
        }
        self.commit_current(b, rec, Ghost(base));
        Ok(had)
    }

    /// The keys on the selected branch that carry the given prefix, in
    /// ascending byte order.
    pub fn kv_list(&self, prefix: Option<&str>) -> (r: Result<Vec<String>, StrataError>)
        requires
            self.wf(),
        ensures
            match r {
                Ok(keys) => {
                    &&& sorted_distinct(keys@)
                    &&& forall|i: int|
                        0 <= i < keys@.len() ==> cur(self@).kv.contains_key(#[trigger] keys@[i]@)
                            && prefix_sel(prefix, keys@[i]@)
                    &&& forall|k: Seq<char>|
                        cur(self@).kv.contains_key(k) && prefix_sel(prefix, k) ==> seq_has_str(
                            keys@,
                            k,
                        )
                },
                Err(_) => false,
            },
    {
        let name = clone_string(&self.current);
        match self.branches.get(name.as_str()) {
            Some(b) => {
                let keys = b.kv.keys_with_prefix(prefix);
                proof {
                    assert forall|k: Seq<char>|
                        cur(self@).kv.contains_key(k) && prefix_sel(prefix, k) implies seq_has_str(
                        keys@,
                        k,
                    ) by {
                        assert(b.kv@.contains_key(k));
                    }
                }
                Ok(keys)
            },
            None => vstd::pervasive::unreached(),
        }
    }
}

} // verus!
