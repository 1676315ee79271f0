//! The JSON document primitive: hierarchical values addressed by paths,
//! with path reads, creating writes, deletes and paginated key listing.

use vstd::prelude::*;

use crate::common::StrataError;
use crate::db::{Strata, WalRecord};
use crate::model::{apply_rec, cur, doc_or_empty, spec_json_delete, spec_json_set, DbV, RecV};
use crate::paths::{
    clone_segs, doc_get, doc_remove, doc_set, obj_find, obj_remove, obj_set, parse_path,
    parse_path_str, segs_view, PathSeg, PathSegV,
};
use crate::table::{prefix_sel, seq_has_str, sorted_distinct};
use crate::text::{lex_le, str_eq, str_le};
use crate::value::{
    clone_string, lemma_vview_elems, lemma_vview_fields, vview, vview_elems, vview_fields, Value,
    ValueV,
};

verus! {

// ---------------------------------------------------------------------------
// First-match lemmas for object fields
// ---------------------------------------------------------------------------

/// `obj_find` returns the first matching field.
proof fn lemma_obj_find_at(gs: Seq<(Seq<char>, ValueV)>, f: Seq<char>, j: int)
    requires
        0 <= j < gs.len(),
        gs[j].0 == f,
        forall|k: int| 0 <= k < j ==> gs[k].0 != f,
    ensures
        obj_find(gs, f) == Some(gs[j].1),
    decreases j,
{
    if j > 0 {
        lemma_obj_find_at(gs.skip(1), f, j - 1);
    }
}

/// `obj_find` misses when no field matches.
proof fn lemma_obj_find_absent(gs: Seq<(Seq<char>, ValueV)>, f: Seq<char>)
    requires
        forall|k: int| 0 <= k < gs.len() ==> gs[k].0 != f,
    ensures
        obj_find(gs, f) is None,
    decreases gs.len(),
{
    if gs.len() > 0 {
        lemma_obj_find_absent(gs.skip(1), f);
    }
}

/// `obj_set` replaces exactly the first matching field.
proof fn lemma_obj_set_at(gs: Seq<(Seq<char>, ValueV)>, f: Seq<char>, nv: ValueV, j: int)
    requires
        0 <= j < gs.len(),
        gs[j].0 == f,
        forall|k: int| 0 <= k < j ==> gs[k].0 != f,
    ensures
        obj_set(gs, f, nv) == gs.update(j, (f, nv)),
    decreases j,
{
    if j == 0 {
        assert(seq![(f, nv)] + gs.skip(1) =~= gs.update(0, (f, nv)));
    } else {
        lemma_obj_set_at(gs.skip(1), f, nv, j - 1);
        assert(seq![gs[0]] + gs.skip(1).update(j - 1, (f, nv)) =~= gs.update(j, (f, nv)));
    }
}

/// `obj_set` appends when no field matches.
proof fn lemma_obj_set_absent(gs: Seq<(Seq<char>, ValueV)>, f: Seq<char>, nv: ValueV)
    requires
        forall|k: int| 0 <= k < gs.len() ==> gs[k].0 != f,
    ensures
        obj_set(gs, f, nv) == gs.push((f, nv)),
    decreases gs.len(),
{
    if gs.len() == 0 {
        assert(seq![(f, nv)] =~= gs.push((f, nv)));
    } else {
        lemma_obj_set_absent(gs.skip(1), f, nv);
        assert(seq![gs[0]] + gs.skip(1).push((f, nv)) =~= gs.push((f, nv)));
    }
}

/// `obj_remove` drops exactly the first matching field.
proof fn lemma_obj_remove_at(gs: Seq<(Seq<char>, ValueV)>, f: Seq<char>, j: int)
    requires
        0 <= j < gs.len(),
        gs[j].0 == f,
        forall|k: int| 0 <= k < j ==> gs[k].0 != f,
    ensures
        obj_remove(gs, f) == gs.remove(j),
    decreases j,
{
    if j == 0 {
        assert(gs.skip(1) =~= gs.remove(0));
    } else {
        lemma_obj_remove_at(gs.skip(1), f, j - 1);
        assert(seq![gs[0]] + gs.skip(1).remove(j - 1) =~= gs.remove(j));
    }
}

// ---------------------------------------------------------------------------
// Executable tree walks
// ---------------------------------------------------------------------------

/// The position of the first field named `f`, if any.
fn find_field(fields: &Vec<(String, Value)>, f: &str) -> (r: Option<usize>)
    ensures
        match r {
            Some(j) => j < fields@.len() && fields@[j as int].0@ == f@ && forall|k: int|
                0 <= k < j as int ==> fields@[k].0@ != f@,
            None => forall|k: int| 0 <= k < fields@.len() ==> fields@[k].0@ != f@,
        },
{
    let mut j: usize = 0;
    while j < fields.len()
        invariant
            j <= fields@.len(),
            forall|k: int| 0 <= k < j as int ==> fields@[k].0@ != f@,
        decreases fields@.len() - j,
    {
        if str_eq(fields[j].0.as_str(), f) {
            return Some(j);
        }
        j = j + 1;
    }
    None
}

/// The subtree the path from step `i` on reaches in `v`, if any.
fn doc_get_ref<'a>(v: &'a Value, p: &Vec<PathSeg>, i: usize) -> (r: Option<&'a Value>)
    requires
        i <= p@.len(),
    ensures
        match r {
            Some(c) => doc_get(v@, segs_view(p@).skip(i as int)) == Some(c@),
            None => doc_get(v@, segs_view(p@).skip(i as int)) is None,
        },
    decreases p@.len() - i,
{
    let ghost sp = segs_view(p@).skip(i as int);
    if i == p.len() {
        proof {
            assert(sp =~= Seq::<PathSegV>::empty());
        }
        return Some(v);
    }
    proof {
        assert(sp[0] == p@[i as int]@);
        assert(sp.skip(1) =~= segs_view(p@).skip(i as int + 1));
    }
    match &p[i] {
        PathSeg::Field(f) => match v {
            Value::Object(fields) => {
                proof {
                    lemma_vview_fields(fields@);
                }
                match find_field(fields, f.as_str()) {
                    Some(j) => {
                        proof {
                            lemma_obj_find_at(vview_fields(fields@), f@, j as int);
                        }
                        doc_get_ref(&fields[j].1, p, i + 1)
                    },
                    None => {
                        proof {
                            lemma_obj_find_absent(vview_fields(fields@), f@);
                        }
                        None
                    },
                }
            },
            _ => None,
        },
        PathSeg::Index(x) => match v {
            Value::Array(elems) => {
                proof {
                    lemma_vview_elems(elems@);
                }
                if *x < elems.len() {
                    doc_get_ref(&elems[*x], p, i + 1)
                } else {
                    None
                }
            },
            _ => None,
        },
    }
}

/// Write `nv` at the path from step `i` on, in place. On failure the
/// document keeps its meaning and `false` comes back.
pub(crate) fn doc_set_in(v: &mut Value, p: &Vec<PathSeg>, i: usize, nv: Value) -> (r: bool)
    requires
        i <= p@.len(),
    ensures
        match doc_set(old(v)@, segs_view(p@).skip(i as int), nv@) {
            Some(nd) => r && final(v)@ == nd,
            None => !r && final(v)@ == old(v)@,
        },
    decreases p@.len() - i,
{
    let ghost sp = segs_view(p@).skip(i as int);
    if i == p.len() {
        proof {
            assert(sp =~= Seq::<PathSegV>::empty());
        }
        *v = nv;
        return true;
    }
    proof {
        assert(sp[0] == p@[i as int]@);
        assert(sp.skip(1) =~= segs_view(p@).skip(i as int + 1));
    }
    match &p[i] {
        PathSeg::Field(f) => match v {
            Value::Object(fields) => {
                let ghost gs = vview_fields(fields@);
                proof {
                    lemma_vview_fields(fields@);
                }
                match find_field(fields, f.as_str()) {
                    Some(j) => {
                        proof {
                            lemma_obj_find_at(gs, f@, j as int);
                            lemma_obj_set_at(gs, f@, doc_set(gs[j as int].1, sp.skip(1), nv@)->Some_0, j as int);
                        }
                        let mut pair = (String::new(), Value::Null);
                        fields.set_and_swap(j, &mut pair);
                        let (name0, mut child) = pair;
                        let ok = doc_set_in(&mut child, p, i + 1, nv);
                        fields.set(j, (name0, child));
                        proof {
                            lemma_vview_fields(fields@);
                            if ok {
                                assert(vview_fields(fields@) =~= obj_set(
                                    gs,
                                    f@,
                                    doc_set(gs[j as int].1, sp.skip(1), nv@)->Some_0,
                                ));
                            } else {
                                assert(vview_fields(fields@) =~= gs);
                            }
                        }
                        ok
                    },
                    None => {
                        proof {
                            lemma_obj_find_absent(gs, f@);
                        }
                        let mut child = Value::Object(Vec::new());
                        proof {
                            assert(vview_fields(child->Object_0@) =~= Seq::<(
                                Seq<char>,
                                ValueV,
                            )>::empty());
                        }
                        let ok = doc_set_in(&mut child, p, i + 1, nv);
                        if ok {
                            proof {
                                lemma_obj_set_absent(
                                    gs,
                                    f@,
                                    doc_set(
                                        ValueV::Object(Seq::empty()),
                                        sp.skip(1),
                                        nv@,
                                    )->Some_0,
                                );
                            }
                            let name0 = clone_string(f);
                            fields.push((name0, child));
                            proof {
                                lemma_vview_fields(fields@);
                                assert(vview_fields(fields@) =~= gs.push(
                                    (
                                        f@,
                                        doc_set(
                                            ValueV::Object(Seq::empty()),
                                            sp.skip(1),
                                            nv@,
                                        )->Some_0,
                                    ),
                                ));
                            }
                        }
                        ok
                    },
                }
            },
            _ => false,
        },
        PathSeg::Index(x) => match v {
            Value::Array(elems) => {
                let ghost ge = vview_elems(elems@);
                proof {
                    lemma_vview_elems(elems@);
                }
                if *x < elems.len() {
                    let xi = *x;
                    let mut child = Value::Null;
                    elems.set_and_swap(xi, &mut child);
                    let ok = doc_set_in(&mut child, p, i + 1, nv);
                    elems.set_and_swap(xi, &mut child);
                    proof {
                        lemma_vview_elems(elems@);
                        if ok {
                            assert(vview_elems(elems@) =~= ge.update(
                                xi as int,
                                doc_set(ge[xi as int], sp.skip(1), nv@)->Some_0,
                            ));
                        } else {
                            assert(vview_elems(elems@) =~= ge);
                        }
                    }
                    ok
                } else {
                    false
                }
            },
            _ => false,
        },
    }
}

/// Delete at the (non-empty) path from step `i` on, in place; tell whether
/// something was removed.
pub(crate) fn doc_remove_in(v: &mut Value, p: &Vec<PathSeg>, i: usize) -> (r: bool)
    requires
        i < p@.len(),
    ensures
        final(v)@ == doc_remove(old(v)@, segs_view(p@).skip(i as int)).0,
        r == doc_remove(old(v)@, segs_view(p@).skip(i as int)).1,
    decreases p@.len() - i,
{
    let ghost sp = segs_view(p@).skip(i as int);
    proof {
        assert(sp[0] == p@[i as int]@);
        assert(sp.skip(1) =~= segs_view(p@).skip(i as int + 1));
    }
    let plen = p.len();
    let last = i + 1 == plen;
    match &p[i] {
        PathSeg::Field(f) => match v {
            Value::Object(fields) => {
                let ghost gs = vview_fields(fields@);
                proof {
                    lemma_vview_fields(fields@);
                }
                match find_field(fields, f.as_str()) {
                    Some(j) => {
                        proof {
                            lemma_obj_find_at(gs, f@, j as int);
                        }
                        if last {
                            proof {
                                lemma_obj_remove_at(gs, f@, j as int);
                            }
                            fields.remove(j);
                            proof {
                                lemma_vview_fields(fields@);
                                assert(vview_fields(fields@) =~= gs.remove(j as int));
                            }
                            true
                        } else {
                            let ghost dr = doc_remove(gs[j as int].1, sp.skip(1));
                            let mut pair = (String::new(), Value::Null);
                            fields.set_and_swap(j, &mut pair);
                            let (name0, mut child) = pair;
                            let removed = doc_remove_in(&mut child, p, i + 1);
                            fields.set(j, (name0, child));
                            proof {
                                lemma_vview_fields(fields@);
                                if removed {
                                    lemma_obj_set_at(gs, f@, dr.0, j as int);
                                    assert(vview_fields(fields@) =~= obj_set(gs, f@, dr.0));
                                } else {
                                    assert(vview_fields(fields@) =~= gs);
                                }
                            }
                            removed
                        }
                    },
                    None => {
                        proof {
                            lemma_obj_find_absent(gs, f@);
                        }
                        false
                    },
                }
            },
            _ => false,
        },
        PathSeg::Index(x) => match v {
            Value::Array(elems) => {
                let ghost ge = vview_elems(elems@);
                proof {
                    lemma_vview_elems(elems@);
                }
                if *x < elems.len() {
                    let xi = *x;
                    if last {
                        elems.remove(xi);
                        proof {
                            lemma_vview_elems(elems@);
                            assert(vview_elems(elems@) =~= ge.remove(xi as int));
                        }
                        true
                    } else {
                        let ghost dr = doc_remove(ge[xi as int], sp.skip(1));
                        let mut child = Value::Null;
                        elems.set_and_swap(xi, &mut child);
                        let removed = doc_remove_in(&mut child, p, i + 1);
                        elems.set_and_swap(xi, &mut child);
                        proof {
                            lemma_vview_elems(elems@);
                            if removed {
                                assert(vview_elems(elems@) =~= ge.update(xi as int, dr.0));
                            } else {
                                assert(vview_elems(elems@) =~= ge);
                            }
                        }
                        removed
                    }
                } else {
                    false
                }
            },
            _ => false,
        },
    }
}

// ---------------------------------------------------------------------------
// The engine operations
// ---------------------------------------------------------------------------

/// Whether a delete at this key and path removes anything.
pub open spec fn json_removed(d: DbV, key: Seq<char>, p: Seq<PathSegV>) -> bool {
    if p.len() == 0 {
        cur(d).docs.contains_key(key)
    } else if cur(d).docs.contains_key(key) {
        doc_remove(cur(d).docs[key], p).1
    } else {
        false
    }
}

impl Strata {
    /// Write `value` at `path` inside the document under `key`, creating
    /// missing intermediate object fields; `$` replaces the whole document.
    /// A malformed path, or one that traverses a non-object or leaves an
    /// array, is `InvalidArgument`.
    pub fn json_set(&mut self, key: &str, path: &str, value: Value) -> (r: Result<
        (),
        StrataError,
    >)
        requires
            old(self).wf(),
        ensures
            final(self).wf(),
            old(self)@.poisoned ==> r == Err::<(), StrataError>(StrataError::InvalidState)
                && final(self)@ == old(self)@,
            !old(self)@.poisoned && parse_path(path@) is None ==> r == Err::<(), StrataError>(
                StrataError::InvalidArgument,
            ) && final(self)@ == old(self)@,
            !old(self)@.poisoned ==> (parse_path(path@) matches Some(p) ==> match doc_set(
                doc_or_empty(cur(old(self)@), key@),
                p,
                value@,
            ) {
                Some(_) => r == Ok::<(), StrataError>(()) && final(self)@ == spec_json_set(
                    old(self)@,
                    key@,
                    p,
                    value@,
                ),
                None => r == Err::<(), StrataError>(StrataError::InvalidArgument) && final(self)@
                    == old(self)@,
            }),
    {
        if self.poisoned {
            return Err(StrataError::InvalidState);
        }
        let segs = match parse_path_str(path) {
            Ok(p) => p,
            Err(e) => {
                return Err(e);
            },
        };
        let rec = WalRecord::JsonSet {
            branch: clone_string(&self.current),
            key: key.to_owned(),
            path: clone_segs(&segs),
            value: value.duplicate(),
        };
        let ghost base = self@;
        let mut b = self.take_current();
        let had = b.docs.contains(key);
        let mut doc = if had {
            match b.docs.take(key) {
                Some(d) => d,
                None => vstd::pervasive::unreached(),
            }
        } else {
            Value::Object(Vec::new())
        };
        proof {
            if !had {
                assert(crate::value::vview_fields(doc->Object_0@) =~= Seq::<(
                    Seq<char>,
                    ValueV,
                )>::empty());
                assert(doc@ == doc_or_empty(base.branches[base.current], key@));
            }
            assert(segs_view(segs@).skip(0) =~= segs_view(segs@));
        }
        let ok = doc_set_in(&mut doc, &segs, 0, value);
        if !ok {
            if had {
                b.docs.put(key.to_owned(), doc);
                proof {
                    assert(b.docs@ =~= base.branches[base.current].docs);
                }
            }
            let name = clone_string(&self.current);
            self.branches.put(name, b);
            proof {
                assert(self@.branches =~= base.branches);
                assert(self@ == base);
            }
            return Err(StrataError::InvalidArgument);
        }
        b.docs.put(key.to_owned(), doc);
        proof {
            assert(b.docs@ =~= base.branches[base.current].docs.insert(key@, doc@));
            assert(apply_rec(base.branches, rec@) == base.branches.insert(base.current, b@));
        }
        self.commit_current(b, rec, Ghost(base));
        Ok(())
    }

    /// The value at `path` inside the document under `key`: `Ok(None)` for
    /// an absent document or an unreachable path, `InvalidArgument` for a
    /// malformed path.
    pub fn json_get(&self, key: &str, path: &str) -> (r: Result<Option<Value>, StrataError>)
        requires
            self.wf(),
        ensures
            match r {
                Ok(ov) => parse_path(path@) matches Some(p) && (match ov {
                    Some(v) => cur(self@).docs.contains_key(key@) && doc_get(
                        cur(self@).docs[key@],
                        p,
                    ) == Some(v@),
                    None => !cur(self@).docs.contains_key(key@) || doc_get(
                        cur(self@).docs[key@],
                        p,
                    ) is None,
                }),
                Err(e) => parse_path(path@) is None && e == StrataError::InvalidArgument,
            },
    {
        let segs = match parse_path_str(path) {
            Ok(p) => p,
            Err(e) => {
                return Err(e);
            },
        };
        let name = clone_string(&self.current);
        match self.branches.get(name.as_str()) {
            Some(b) => match b.docs.get(key) {
                Some(doc) => {
                    proof {
                        assert(segs_view(segs@).skip(0) =~= segs_view(segs@));
                    }
                    match doc_get_ref(doc, &segs, 0) {
                        Some(sub) => Ok(Some(sub.duplicate())),
                        None => Ok(None),
                    }
                },
                None => Ok(None),
            },
            None => vstd::pervasive::unreached(),
        }
    }

    /// Delete at `path` inside the document under `key`: at `$` the whole
    /// document goes; deeper, the addressed field or element goes. Returns
    /// whether anything was removed.
    pub fn json_delete(&mut self, key: &str, path: &str) -> (r: Result<bool, StrataError>)
        requires
            old(self).wf(),
        ensures
            final(self).wf(),
            old(self)@.poisoned ==> r == Err::<bool, StrataError>(StrataError::InvalidState)
                && final(self)@ == old(self)@,
            !old(self)@.poisoned && parse_path(path@) is None ==> r == Err::<bool, StrataError>(
                StrataError::InvalidArgument,
            ) && final(self)@ == old(self)@,
            !old(self)@.poisoned ==> (parse_path(path@) matches Some(p) ==> r == Ok::<
                bool,
                StrataError,
            >(json_removed(old(self)@, key@, p)) && final(self)@ == spec_json_delete(
                old(self)@,
                key@,
                p,
            )),
    {
        if self.poisoned {
            return Err(StrataError::InvalidState);
        }
        let segs = match parse_path_str(path) {
            Ok(p) => p,
            Err(e) => {
                return Err(e);
            },
        };
        let rec = WalRecord::JsonDelete {
            branch: clone_string(&self.current),
            key: key.to_owned(),
            path: clone_segs(&segs),
        };
        let ghost base = self@;
        let mut b = self.take_current();
        let removed: bool;
        if segs.len() == 0 {
            removed = b.docs.remove(key);
        } else {
            let had = b.docs.contains(key);
            if had {
                let mut doc = match b.docs.take(key) {
                    Some(d) => d,
                    None => vstd::pervasive::unreached(),
                };
                proof {
                    assert(segs_view(segs@).skip(0) =~= segs_view(segs@));
                }
                removed = doc_remove_in(&mut doc, &segs, 0);
                b.docs.put(key.to_owned(), doc);
                proof {
                    if !removed {
                        assert(b.docs@ =~= base.branches[base.current].docs);
                    } else {
                        assert(b.docs@ =~= base.branches[base.current].docs.insert(
                            key@,
                            doc_remove(
                                base.branches[base.current].docs[key@],
                                segs_view(segs@),
                            ).0,
                        ));
                    }
                }
            } else {
                removed = false;
            }
        }
        proof {
            assert(apply_rec(base.branches, rec@) == base.branches.insert(base.current, b@));
        }
        self.commit_current(b, rec, Ghost(base));
        Ok(removed)
    }

    /// A page of document keys in ascending order: those with the given
    /// prefix, strictly after the cursor, at most `limit` of them. The
    /// second result is the cursor for the next page, or `None` when this
    /// page ends the listing.
    pub fn json_list(&self, prefix: Option<&str>, cursor: Option<&str>, limit: usize) -> (r:
        Result<(Vec<String>, Option<String>), StrataError>)
        requires
            self.wf(),
        ensures
            match r {
                Ok(page) => {
                    &&& sorted_distinct(page.0@)
                    &&& page.0@.len() <= limit
                    &&& forall|i: int|
                        0 <= i < page.0@.len() ==> cur(self@).docs.contains_key(
                            #[trigger] page.0@[i]@,
                        ) && prefix_sel(prefix, page.0@[i]@) && after_cursor(cursor, page.0@[i]@)
                    &&& (page.1 is None && limit > 0 ==> forall|k: Seq<char>|
                        cur(self@).docs.contains_key(k) && prefix_sel(prefix, k) && after_cursor(
                            cursor,
                            k,
                        ) ==> seq_has_str(page.0@, k))
                    &&& (match page.1 {
                        Some(c) => page.0@.len() == limit && limit > 0 && c@ == page.0@[
                            limit - 1
                        ]@,
                        None => true,
                    })
                },
                Err(_) => false,
            },
    {
        let name = clone_string(&self.current);
        let b = match self.branches.get(name.as_str()) {
            Some(b) => b,
            None => vstd::pervasive::unreached(),
        };
        let keys = b.docs.keys_with_prefix(prefix);
        let mut out: Vec<String> = Vec::new();
        let mut more = false;
        let mut i: usize = 0;
        while i < keys.len()
            invariant
                i <= keys@.len(),
                out@.len() <= limit,
                sorted_distinct(keys@),
                sorted_distinct(out@),
                forall|j: int|
                    0 <= j < out@.len() ==> (exists|e: int|
                        0 <= e < i as int && keys@[e]@ == #[trigger] out@[j]@) && after_cursor(
                        cursor,
                        out@[j]@,
                    ),
                !more ==> forall|e: int|
                    0 <= e < i as int && after_cursor(cursor, #[trigger] keys@[e]@) ==> seq_has_str(
                        out@,
                        keys@[e]@,
                    ),
                more ==> out@.len() == limit,
            decreases keys@.len() - i,
        {
            let k = &keys[i];
            let keep = match cursor {
                Option::None => true,
                Option::Some(c) => !str_le(k.as_str(), c),
            };
            if keep {
                if out.len() < limit {
                    let ghost out0 = out@;
                    proof {
                        assert forall|a: int, b2: int|
                            0 <= a < b2 < out0.push(keys@[i as int]).len() implies lex_le(
                            #[trigger] out0.push(keys@[i as int])[a]@,
                            #[trigger] out0.push(keys@[i as int])[b2]@,
                        ) && out0.push(keys@[i as int])[a]@ != out0.push(keys@[i as int])[b2]@ by {
                            if b2 == out0.len() {
                                let e0 = choose|e0: int|
                                    0 <= e0 < i as int && keys@[e0]@ == out0[a]@;
                                assert(keys@[e0]@ == out0[a]@);
                                assert(lex_le(keys@[e0]@, keys@[i as int]@));
                            }
                        }
                    }
                    out.push(clone_string(k));
                    proof {
                        assert(out@[out@.len() - 1]@ == keys@[i as int]@);
                        assert forall|j: int| 0 <= j < out@.len() implies (exists|e: int|
                            0 <= e < i as int + 1 && keys@[e]@ == #[trigger] out@[j]@) by {
                            if j < out0.len() {
                                let e0 = choose|e0: int|
                                    0 <= e0 < i as int && keys@[e0]@ == out0[j]@;
                                assert(keys@[e0]@ == out@[j]@);
                            } else {
                                assert(keys@[i as int]@ == out@[j]@);
                            }
                        }
                        assert forall|e: int|
                            0 <= e < i as int + 1 && after_cursor(
                                cursor,
                                #[trigger] keys@[e]@,
                            ) implies seq_has_str(out@, keys@[e]@) by {
                            if e < i as int {
                                if !more {
                                    assert(seq_has_str(out0, keys@[e]@));
                                    let j0 = choose|j0: int|
                                        0 <= j0 < out0.len() && out0[j0]@ == keys@[e]@;
                                    assert(out@[j0]@ == keys@[e]@);
                                }
                            } else {
                                assert(out@[out@.len() - 1]@ == keys@[e]@);
                            }
                        }
                    }
                } else {
                    more = true;
                }
            }
            i = i + 1;
        }
        let next = if more {
            if out.len() > 0 {
                let lastix = out.len() - 1;
                Some(clone_string(&out[lastix]))
            } else {
                None
            }
        } else {
            None
        };
        proof {
            if !more {
                assert forall|k: Seq<char>|
                    cur(self@).docs.contains_key(k) && prefix_sel(prefix, k) && after_cursor(
                        cursor,
                        k,
                    ) implies seq_has_str(out@, k) by {
                    assert(seq_has_str(keys@, k));
                    let e = choose|e: int| 0 <= e < keys@.len() && keys@[e]@ == k;
                    assert(after_cursor(cursor, keys@[e]@));
                }
            }
            assert forall|j: int| 0 <= j < out@.len() implies cur(self@).docs.contains_key(
                #[trigger] out@[j]@,
            ) && prefix_sel(prefix, out@[j]@) && after_cursor(cursor, out@[j]@) by {
                let e = choose|e: int| 0 <= e < keys@.len() && keys@[e]@ == out@[j]@;
                assert(cur(self@).docs.contains_key(keys@[e]@) && prefix_sel(prefix, keys@[e]@));
            }
        }
        Ok((out, next))
    }
}

/// Whether `k` comes strictly after the optional cursor in key order.
pub open spec fn after_cursor(cursor: Option<&str>, k: Seq<char>) -> bool {
    match cursor {
        Option::None => true,
        Option::Some(c) => !lex_le(k, c@),
    }
}

} // verus!
