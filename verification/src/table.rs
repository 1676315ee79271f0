//! A string-keyed association table.
//!
//! Every primitive's per-branch storage — key-value entries, state cells,
//! documents, vector collections, and the branch directory itself — is a
//! `Table`: a vector of key/value pairs with pairwise distinct keys, viewed
//! as a mathematical `Map` from character sequences to value views.

use vstd::prelude::*;

use crate::text::{has_prefix, lex_le, str_eq, str_has_prefix, str_le};
use crate::value::clone_string;

verus! {

/// What a table asks of its values: a well-formedness condition it
/// preserves. Values enter a table only when they satisfy it and leave it
/// still satisfying it.
pub trait TableValue: View {
    /// The value's own well-formedness.
    spec fn inv(&self) -> bool;
}

impl TableValue for crate::value::Value {
    open spec fn inv(&self) -> bool {
        true
    }
}

/// A mapping from string keys to values, in insertion order.
pub struct Table<V> {
    pub entries: Vec<(String, V)>,
}

/// The map a sequence of key/value pairs denotes; a later pair for the same
/// key wins.
pub open spec fn tbl_view<V: View>(s: Seq<(String, V)>) -> Map<Seq<char>, V::V>
    decreases s.len(),
{
    if s.len() == 0 {
        Map::empty()
    } else {
        tbl_view(s.drop_last()).insert(s.last().0@, s.last().1@)
    }
}

/// Keys are pairwise distinct.
pub open spec fn tbl_unique<V>(s: Seq<(String, V)>) -> bool {
    forall|i: int, j: int| 0 <= i < j < s.len() ==> s[i].0@ != s[j].0@
}

impl<V: View> View for Table<V> {
    type V = Map<Seq<char>, V::V>;

    open spec fn view(&self) -> Map<Seq<char>, V::V> {
        tbl_view(self.entries@)
    }
}

/// An entry's key is mapped to that entry's value.
pub proof fn lemma_tbl_index<V: View>(s: Seq<(String, V)>, i: int)
    requires
        tbl_unique(s),
        0 <= i < s.len(),
    ensures
        tbl_view(s).contains_key(s[i].0@),
        tbl_view(s)[s[i].0@] == s[i].1@,
    decreases s.len(),
{
    if i < s.len() - 1 {
        lemma_tbl_index(s.drop_last(), i);
    }
}

/// A key under no entry is not in the map.
pub proof fn lemma_tbl_absent<V: View>(s: Seq<(String, V)>, k: Seq<char>)
    requires
        forall|i: int| 0 <= i < s.len() ==> s[i].0@ != k,
    ensures
        !tbl_view(s).contains_key(k),
    decreases s.len(),
{
    if s.len() > 0 {
        lemma_tbl_absent(s.drop_last(), k);
    }
}

/// The domain of the map is exactly the set of entry keys.
pub proof fn lemma_tbl_dom<V: View>(s: Seq<(String, V)>)
    ensures
        forall|k: Seq<char>|
            #[trigger] tbl_view(s).contains_key(k) <==> exists|i: int|
                0 <= i < s.len() && s[i].0@ == k,
    decreases s.len(),
{
    if s.len() > 0 {
        lemma_tbl_dom(s.drop_last());
        assert forall|k: Seq<char>| #[trigger] tbl_view(s).contains_key(k) implies exists|i: int|
            0 <= i < s.len() && s[i].0@ == k by {
            if k == s.last().0@ {
                assert(s[s.len() - 1].0@ == k);
            } else {
                assert(tbl_view(s.drop_last()).contains_key(k));
                let i = choose|i: int| 0 <= i < s.drop_last().len() && s.drop_last()[i].0@ == k;
                assert(s[i].0@ == k);
            }
        }
        assert forall|k: Seq<char>| (exists|i: int| 0 <= i < s.len() && s[i].0@ == k) implies
            #[trigger] tbl_view(s).contains_key(k) by {
            let i = choose|i: int| 0 <= i < s.len() && s[i].0@ == k;
            if i < s.len() - 1 {
                assert(s.drop_last()[i].0@ == k);
                assert(exists|i2: int|
                    0 <= i2 < s.drop_last().len() && s.drop_last()[i2].0@ == k);
                assert(tbl_view(s.drop_last()).contains_key(k));
            }
        }
    }
}

/// Replacing the entry at `i` updates the map at that entry's key.
pub proof fn lemma_tbl_update<V: View>(s: Seq<(String, V)>, i: int, p: (String, V))
    requires
        tbl_unique(s),
        0 <= i < s.len(),
        p.0@ == s[i].0@,
    ensures
        tbl_view(s.update(i, p)) == tbl_view(s).insert(p.0@, p.1@),
        tbl_unique(s.update(i, p)),
    decreases s.len(),
{
    let s2 = s.update(i, p);
    if i == s.len() - 1 {
        assert(s2.drop_last() =~= s.drop_last());
        assert(tbl_view(s2) =~= tbl_view(s).insert(p.0@, p.1@));
    } else {
        lemma_tbl_update(s.drop_last(), i, p);
        assert(s2.drop_last() =~= s.drop_last().update(i, p));
        assert(s2.last() == s.last());
        assert(tbl_view(s2) == tbl_view(s.drop_last().update(i, p)).insert(
            s.last().0@,
            s.last().1@,
        ));
        assert(tbl_view(s2) =~= tbl_view(s).insert(p.0@, p.1@));
    }
}

/// Removing the entry at `i` removes that entry's key from the map.
pub proof fn lemma_tbl_remove<V: View>(s: Seq<(String, V)>, i: int)
    requires
        tbl_unique(s),
        0 <= i < s.len(),
    ensures
        tbl_view(s.remove(i)) == tbl_view(s).remove(s[i].0@),
        tbl_unique(s.remove(i)),
    decreases s.len(),
{
    let k = s[i].0@;
    let s2 = s.remove(i);
    assert forall|a: int, b: int| 0 <= a < b < s2.len() implies s2[a].0@ != s2[b].0@ by {
        assert(s2[a] == (if a < i { s[a] } else { s[a + 1] }));
        assert(s2[b] == (if b < i { s[b] } else { s[b + 1] }));
    }
    if i == s.len() - 1 {
        assert(s2 =~= s.drop_last());
        lemma_tbl_absent(s.drop_last(), k);
        assert(tbl_view(s.drop_last()) =~= tbl_view(s).remove(k));
    } else {
        lemma_tbl_remove(s.drop_last(), i);
        assert(s2.drop_last() =~= s.drop_last().remove(i));
        assert(s2.last() == s.last());
        assert(tbl_view(s2) == tbl_view(s.drop_last().remove(i)).insert(s.last().0@, s.last().1@));
        assert(tbl_view(s2) =~= tbl_view(s).remove(k));
    }
}

impl<V: TableValue> Table<V> {
    /// Keys are pairwise distinct and every value satisfies its own
    /// well-formedness.
    pub open spec fn wf(self) -> bool {
        tbl_unique(self.entries@) && forall|i: int|
            0 <= i < self.entries@.len() ==> (#[trigger] self.entries@[i].1).inv()
    }

    /// An empty table.
    pub fn new() -> (r: Table<V>)
        ensures
            r.wf(),
            r@ == Map::<Seq<char>, V::V>::empty(),
            r.entries@.len() == 0,
    {
        Table { entries: Vec::new() }
    }

    /// The position of the entry for `k`, if there is one.
    fn find(&self, k: &str) -> (r: Option<usize>)
        ensures
            match r {
                Some(i) => i < self.entries@.len() && self.entries@[i as int].0@ == k@,
                None => forall|i: int| 0 <= i < self.entries@.len()
                    ==> self.entries@[i].0@ != k@,
            },
    {
        let mut i: usize = 0;
        while i < self.entries.len()
            invariant
                i <= self.entries@.len(),
                forall|j: int| 0 <= j < i as int ==> self.entries@[j].0@ != k@,
            decreases self.entries@.len() - i,
        {
            if str_eq(self.entries[i].0.as_str(), k) {
                return Some(i);
            }
            i = i + 1;
        }
        None
    }

    /// Whether `k` is present.
    pub fn contains(&self, k: &str) -> (r: bool)
        requires
            self.wf(),
        ensures
            r == self@.contains_key(k@),
    {
        match self.find(k) {
            Some(i) => {
                proof {
                    lemma_tbl_index(self.entries@, i as int);
                }
                true
            },
            None => {
                proof {
                    lemma_tbl_absent(self.entries@, k@);
                }
                false
            },
        }
    }

    /// The value under `k`, if there is one.
    pub fn get(&self, k: &str) -> (r: Option<&V>)
        requires
            self.wf(),
        ensures
            match r {
                Some(v) => self@.contains_key(k@) && v@ == self@[k@] && v.inv(),
                None => !self@.contains_key(k@),
            },
    {
        match self.find(k) {
            Some(i) => {
                proof {
                    lemma_tbl_index(self.entries@, i as int);
                }
                Some(&self.entries[i].1)
            },
            None => {
                proof {
                    lemma_tbl_absent(self.entries@, k@);
                }
                None
            },
        }
    }

    /// Map `k` to `v`, replacing any previous value.
    pub fn put(&mut self, k: String, v: V)
        requires
            old(self).wf(),
            v.inv(),
        ensures
            final(self).wf(),
            final(self)@ == old(self)@.insert(k@, v@),
    {
        let ghost s0 = self.entries@;
        match self.find(k.as_str()) {
            Some(i) => {
                proof {
                    lemma_tbl_update(s0, i as int, (k, v));
                }
                self.entries.set(i, (k, v));
            },
            None => {
                self.entries.push((k, v));
                proof {
                    assert(self.entries@.drop_last() =~= s0);
                }
            },
        }
    }

    /// Remove `k`; tell whether it was present.
    pub fn remove(&mut self, k: &str) -> (r: bool)
        requires
            old(self).wf(),
        ensures
            final(self).wf(),
            final(self)@ == old(self)@.remove(k@),
            r == old(self)@.contains_key(k@),
    {
        match self.take(k) {
            Some(_) => true,
            None => false,
        }
    }

    /// Remove `k` and hand its value out, if it was present.
    pub fn take(&mut self, k: &str) -> (r: Option<V>)
        requires
            old(self).wf(),
        ensures
            final(self).wf(),
            final(self)@ == old(self)@.remove(k@),
            match r {
                Some(v) => old(self)@.contains_key(k@) && v@ == old(self)@[k@] && v.inv(),
                None => !old(self)@.contains_key(k@) && final(self)@ == old(self)@,
            },
    {
        let ghost s0 = self.entries@;
        match self.find(k) {
            Some(i) => {
                proof {
                    lemma_tbl_index(s0, i as int);
                    lemma_tbl_remove(s0, i as int);
                }
                let (_, v) = self.entries.remove(i);
                Some(v)
            },
            None => {
                proof {
                    lemma_tbl_absent(s0, k@);
                    assert(tbl_view(s0).remove(k@) =~= tbl_view(s0));
                }
                None
            },
        }
    }

    /// The number of keys.
    pub fn len(&self) -> (r: usize)
        requires
            self.wf(),
        ensures
            r == self.entries@.len(),
            r == 0 <==> self@ == Map::<Seq<char>, V::V>::empty(),
    {
        proof {
            if self.entries@.len() > 0 {
                lemma_tbl_index(self.entries@, 0);
                assert(self@ != Map::<Seq<char>, V::V>::empty());
            } else {
                assert(self@ =~= Map::<Seq<char>, V::V>::empty());
            }
        }
        self.entries.len()
    }

    /// The keys that carry the given prefix, in ascending key order.
    pub fn keys_with_prefix(&self, prefix: Option<&str>) -> (r: Vec<String>)
        requires
            self.wf(),
        ensures
            sorted_distinct(r@),
            forall|i: int| 0 <= i < r@.len()
                ==> self@.contains_key(#[trigger] r@[i]@) && prefix_sel(prefix, r@[i]@),
            forall|k: Seq<char>| self@.contains_key(k) && prefix_sel(prefix, k)
                ==> seq_has_str(r@, k),
    {
        proof {
            lemma_tbl_dom(self.entries@);
        }
        let mut out: Vec<String> = Vec::new();
        let mut i: usize = 0;
        while i < self.entries.len()
            invariant
                self.wf(),
                i <= self.entries@.len(),
                sorted_distinct(out@),
                forall|j: int| 0 <= j < out@.len()
                    ==> (exists|e: int| 0 <= e < i as int && self.entries@[e].0@ == #[trigger] out@[j]@)
                        && prefix_sel(prefix, out@[j]@),
                forall|e: int| 0 <= e < i as int && prefix_sel(prefix, #[trigger] self.entries@[e].0@)
                    ==> seq_has_str(out@, self.entries@[e].0@),
            decreases self.entries@.len() - i,
        {
            let key = &self.entries[i].0;
            let keep = match prefix {
                Option::None => true,
                Option::Some(p) => str_has_prefix(key.as_str(), p),
            };
            if keep {
                let ghost out0 = out@;
                sorted_insert(&mut out, clone_string(key));
                proof {
                    assert forall|j: int| 0 <= j < out@.len() implies (exists|e: int|
                        0 <= e < i as int + 1 && self.entries@[e].0@ == #[trigger] out@[j]@)
                        && prefix_sel(prefix, out@[j]@) by {
                        assert(seq_has_str(out@, out@[j]@));
                        if out@[j]@ == self.entries@[i as int].0@ {
                            assert(self.entries@[i as int].0@ == out@[j]@);
                        } else {
                            assert(seq_has_str(out0, out@[j]@));
                            let j0 = choose|j0: int| 0 <= j0 < out0.len() && out0[j0]@ == out@[j]@;
                            let e = choose|e: int|
                                0 <= e < i as int && self.entries@[e].0@ == out0[j0]@;
                            assert(self.entries@[e].0@ == out@[j]@);
                        }
                    }
                    assert forall|e: int|
                        0 <= e < i as int + 1 && prefix_sel(
                            prefix,
                            #[trigger] self.entries@[e].0@,
                        ) implies seq_has_str(out@, self.entries@[e].0@) by {
                        if e < i as int {
                            assert(seq_has_str(out0, self.entries@[e].0@));
                        }
                    }
                }
            }
            i = i + 1;
        }
        proof {
            assert forall|j: int| 0 <= j < out@.len() implies self@.contains_key(#[trigger] out@[j]@)
                && prefix_sel(prefix, out@[j]@) by {
                let e = choose|e: int|
                    0 <= e < self.entries@.len() && self.entries@[e].0@ == out@[j]@;
                lemma_tbl_index(self.entries@, e);
            }
            assert forall|k: Seq<char>| self@.contains_key(k) && prefix_sel(prefix, k) implies
                seq_has_str(out@, k) by {
                let e = choose|e: int|
                    0 <= e < self.entries@.len() && self.entries@[e].0@ == k;
                assert(prefix_sel(prefix, self.entries@[e].0@));
            }
        }
        out
    }
}

/// Whether `k` passes the optional prefix filter.
pub open spec fn prefix_sel(prefix: Option<&str>, k: Seq<char>) -> bool {
    match prefix {
        Option::None => true,
        Option::Some(p) => has_prefix(k, p@),
    }
}

/// Some element of `s` has exactly the characters `k`.
pub open spec fn seq_has_str(s: Seq<String>, k: Seq<char>) -> bool {
    exists|i: int| 0 <= i < s.len() && s[i]@ == k
}

/// Strictly ascending in key order.
pub open spec fn sorted_distinct(s: Seq<String>) -> bool {
    forall|i: int, j: int| 0 <= i < j < s.len()
        ==> lex_le(#[trigger] s[i]@, #[trigger] s[j]@) && s[i]@ != s[j]@
}

/// The first position whose key is not strictly below `k`.
fn lower_bound(v: &Vec<String>, k: &str) -> (pos: usize)
    requires
        sorted_distinct(v@),
    ensures
        pos <= v@.len(),
        forall|j: int| 0 <= j < pos as int ==> lex_le(#[trigger] v@[j]@, k@) && v@[j]@ != k@,
        pos < v@.len() ==> lex_le(k@, v@[pos as int]@),
{
    let mut i: usize = 0;
    while i < v.len()
        invariant
            sorted_distinct(v@),
            i <= v@.len(),
            forall|j: int| 0 <= j < i as int ==> lex_le(#[trigger] v@[j]@, k@) && v@[j]@ != k@,
        decreases v@.len() - i,
    {
        if str_le(k, v[i].as_str()) {
            return i;
        }
        proof {
            crate::text::lemma_lex_le_total(k@, v@[i as int]@);
        }
        i = i + 1;
    }
    i
}

/// Insert `k` into a strictly sorted vector, keeping it strictly sorted;
/// a key already present is not duplicated.
pub fn sorted_insert(v: &mut Vec<String>, k: String)
    requires
        sorted_distinct(old(v)@),
    ensures
        sorted_distinct(final(v)@),
        forall|k2: Seq<char>|
            #[trigger] seq_has_str(final(v)@, k2) <==> (seq_has_str(old(v)@, k2) || k2 == k@),
{
    let i = lower_bound(v, k.as_str());
    if i < v.len() {
        if str_eq(v[i].as_str(), k.as_str()) {
            proof {
                assert(v@[i as int]@ == k@);
                assert(seq_has_str(v@, k@));
            }
            return;
        }
    }
    let ghost v0 = v@;
    let ghost pos = i as int;
    v.insert(i, k);
    proof {
        assert forall|a: int, b: int| 0 <= a < b < v@.len() implies lex_le(
            #[trigger] v@[a]@,
            #[trigger] v@[b]@,
        ) && v@[a]@ != v@[b]@ by {
            assert(v@[a] == (if a < pos { v0[a] } else if a == pos { k } else { v0[a - 1] }));
            assert(v@[b] == (if b < pos { v0[b] } else if b == pos { k } else { v0[b - 1] }));
            if a == pos && b > pos {
                // k is at most v0[pos], which is at most v0[b - 1]
                if b - 1 > pos {
                    crate::text::lemma_lex_le_trans(k@, v0[pos]@, v0[b - 1]@);
                    if k@ == v0[b - 1]@ {
                        crate::text::lemma_lex_le_antisym(k@, v0[pos]@);
                    }
                }
            }
        }
        assert forall|k2: Seq<char>| #[trigger] seq_has_str(v@, k2) implies (seq_has_str(v0, k2)
            || k2 == k@) by {
            let i2 = choose|i2: int| 0 <= i2 < v@.len() && v@[i2]@ == k2;
            if i2 < pos {
                assert(v0[i2]@ == k2);
            } else if i2 > pos {
                assert(v0[i2 - 1]@ == k2);
            }
        }
        assert forall|k2: Seq<char>| (seq_has_str(v0, k2) || k2 == k@) implies #[trigger] seq_has_str(
            v@,
            k2,
        ) by {
            if k2 == k@ {
                assert(v@[pos]@ == k2);
            } else {
                let i2 = choose|i2: int| 0 <= i2 < v0.len() && v0[i2]@ == k2;
                if i2 < pos {
                    assert(v@[i2]@ == k2);
                } else {
                    assert(v@[i2 + 1]@ == k2);
                }
            }
        }
    }
}

} // verus!
