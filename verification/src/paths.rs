//! Document paths.
//!
//! A path addresses a subtree of a stored document: `$` is the root, `.name`
//! steps into an object field, `[i]` into an array element. A leading `$` is
//! optional before a bare first field name. The grammar, the meaning of a
//! path against a document tree, and the parser all live here.

use vstd::prelude::*;

use crate::common::StrataError;
use crate::value::ValueV;

verus! {

/// One step of a parsed path.
#[derive(Debug, PartialEq)]
pub enum PathSeg {
    /// Step into an object field by name.
    Field(String),
    /// Step into an array element by position.
    Index(usize),
}

/// The mathematical form of a path step.
pub ghost enum PathSegV {
    Field(Seq<char>),
    Index(int),
}

impl View for PathSeg {
    type V = PathSegV;

    open spec fn view(&self) -> PathSegV {
        match self {
            PathSeg::Field(s) => PathSegV::Field(s@),
            PathSeg::Index(i) => PathSegV::Index(*i as int),
        }
    }
}

/// The views of a parsed path's steps, in order.
pub open spec fn segs_view(p: Seq<PathSeg>) -> Seq<PathSegV> {
    Seq::new(p.len(), |i: int| p[i]@)
}

// ---------------------------------------------------------------------------
// Meaning of a path against a document tree
// ---------------------------------------------------------------------------

/// The value of the first field named `f`, if any.
pub open spec fn obj_find(fields: Seq<(Seq<char>, ValueV)>, f: Seq<char>) -> Option<ValueV>
    decreases fields.len(),
{
    if fields.len() == 0 {
        None
    } else if fields[0].0 == f {
        Some(fields[0].1)
    } else {
        obj_find(fields.skip(1), f)
    }
}

/// Replace the first field named `f`, or append one.
pub open spec fn obj_set(fields: Seq<(Seq<char>, ValueV)>, f: Seq<char>, nv: ValueV) -> Seq<
    (Seq<char>, ValueV),
>
    decreases fields.len(),
{
    if fields.len() == 0 {
        seq![(f, nv)]
    } else if fields[0].0 == f {
        seq![(f, nv)] + fields.skip(1)
    } else {
        seq![fields[0]] + obj_set(fields.skip(1), f, nv)
    }
}

/// Drop the first field named `f`, if any.
pub open spec fn obj_remove(fields: Seq<(Seq<char>, ValueV)>, f: Seq<char>) -> Seq<
    (Seq<char>, ValueV),
>
    decreases fields.len(),
{
    if fields.len() == 0 {
        fields
    } else if fields[0].0 == f {
        fields.skip(1)
    } else {
        seq![fields[0]] + obj_remove(fields.skip(1), f)
    }
}

/// The subtree of `v` a path reaches, if it reaches one.
pub open spec fn doc_get(v: ValueV, p: Seq<PathSegV>) -> Option<ValueV>
    decreases p.len(),
{
    if p.len() == 0 {
        Some(v)
    } else {
        match p[0] {
            PathSegV::Field(f) => match v {
                ValueV::Object(fields) => match obj_find(fields, f) {
                    Some(child) => doc_get(child, p.skip(1)),
                    None => None,
                },
                _ => None,
            },
            PathSegV::Index(i) => match v {
                ValueV::Array(elems) => if 0 <= i < elems.len() {
                    doc_get(elems[i], p.skip(1))
                } else {
                    None
                },
                _ => None,
            },
        }
    }
}

/// The document after writing `nv` at the path, or `None` when the path is
/// invalid for this document.
///
/// A missing object field along the way is created as an empty object; a
/// field step into a non-object, or an array step anywhere but into an
/// existing element of an existing array, fails.
pub open spec fn doc_set(v: ValueV, p: Seq<PathSegV>, nv: ValueV) -> Option<ValueV>
    decreases p.len(),
{
    if p.len() == 0 {
        Some(nv)
    } else {
        match p[0] {
            PathSegV::Field(f) => match v {
                ValueV::Object(fields) => {
                    let child = match obj_find(fields, f) {
                        Some(c) => c,
                        None => ValueV::Object(Seq::empty()),
                    };
                    match doc_set(child, p.skip(1), nv) {
                        Some(nc) => Some(ValueV::Object(obj_set(fields, f, nc))),
                        None => None,
                    }
                },
                _ => None,
            },
            PathSegV::Index(i) => match v {
                ValueV::Array(elems) => if 0 <= i < elems.len() {
                    match doc_set(elems[i], p.skip(1), nv) {
                        Some(nc) => Some(ValueV::Array(elems.update(i, nc))),
                        None => None,
                    }
                } else {
                    None
                },
                _ => None,
            },
        }
    }
}

/// The document after deleting at the (non-empty) path, and whether
/// something was removed. A path that reaches nothing leaves the document
/// unchanged.
pub open spec fn doc_remove(v: ValueV, p: Seq<PathSegV>) -> (ValueV, bool)
    decreases p.len(),
{
    if p.len() == 0 {
        (v, false)
    } else if p.len() == 1 {
        match p[0] {
            PathSegV::Field(f) => match v {
                ValueV::Object(fields) => match obj_find(fields, f) {
                    Some(_) => (ValueV::Object(obj_remove(fields, f)), true),
                    None => (v, false),
                },
                _ => (v, false),
            },
            PathSegV::Index(i) => match v {
                ValueV::Array(elems) => if 0 <= i < elems.len() {
                    (ValueV::Array(elems.remove(i)), true)
                } else {
                    (v, false)
                },
                _ => (v, false),
            },
        }
    } else {
        match p[0] {
            PathSegV::Field(f) => match v {
                ValueV::Object(fields) => match obj_find(fields, f) {
                    Some(child) => {
                        let (nc, removed) = doc_remove(child, p.skip(1));
                        if removed {
                            (ValueV::Object(obj_set(fields, f, nc)), true)
                        } else {
                            (v, false)
                        }
                    },
                    None => (v, false),
                },
                _ => (v, false),
            },
            PathSegV::Index(i) => match v {
                ValueV::Array(elems) => if 0 <= i < elems.len() {
                    let (nc, removed) = doc_remove(elems[i], p.skip(1));
                    if removed {
                        (ValueV::Array(elems.update(i, nc)), true)
                    } else {
                        (v, false)
                    }
                } else {
                    (v, false)
                },
                _ => (v, false),
            },
        }
    }
}

// ---------------------------------------------------------------------------
// The path grammar
// ---------------------------------------------------------------------------

/// Characters a field name may hold: anything but the three structural ones.
pub open spec fn is_name_char(c: char) -> bool {
    c != '.' && c != '[' && c != ']'
}

/// A decimal digit.
pub open spec fn is_digit_char(c: char) -> bool {
    48 <= (c as u32) <= 57
}

/// The end of the run of name characters starting at `i`.
pub open spec fn name_end(s: Seq<char>, i: int) -> int
    decreases s.len() - i when 0 <= i <= s.len()
{
    if i >= s.len() {
        i
    } else if is_name_char(s[i]) {
        name_end(s, i + 1)
    } else {
        i
    }
}

/// The end of the run of digits starting at `i`.
pub open spec fn digit_end(s: Seq<char>, i: int) -> int
    decreases s.len() - i when 0 <= i <= s.len()
{
    if i >= s.len() {
        i
    } else if is_digit_char(s[i]) {
        digit_end(s, i + 1)
    } else {
        i
    }
}

/// `name_end` stays between its start and the end of the sequence.
pub proof fn lemma_name_end_bounds(s: Seq<char>, i: int)
    requires
        0 <= i <= s.len(),
    ensures
        i <= name_end(s, i) <= s.len(),
    decreases s.len() - i,
{
    if i < s.len() && is_name_char(s[i]) {
        lemma_name_end_bounds(s, i + 1);
    }
}

/// `digit_end` stays between its start and the end of the sequence.
pub proof fn lemma_digit_end_bounds(s: Seq<char>, i: int)
    requires
        0 <= i <= s.len(),
    ensures
        i <= digit_end(s, i) <= s.len(),
    decreases s.len() - i,
{
    if i < s.len() && is_digit_char(s[i]) {
        lemma_digit_end_bounds(s, i + 1);
    }
}

/// The number the digits `s[i..e)` denote.
pub open spec fn digits_val(s: Seq<char>, i: int, e: int) -> int
    decreases e - i,
{
    if i >= e {
        0
    } else {
        digits_val(s, i, e - 1) * 10 + ((s[e - 1] as u32) - 48)
    }
}

/// The steps written from position `i` on: a sequence of `.name` and
/// `[index]` items running to the end of the string.
pub open spec fn parse_from(s: Seq<char>, i: int) -> Option<Seq<PathSegV>>
    decreases s.len() - i when 0 <= i <= s.len() via parse_from_decreases
{
    if i >= s.len() {
        Some(Seq::empty())
    } else if s[i] == '.' {
        let e = name_end(s, i + 1);
        if e == i + 1 {
            None
        } else {
            match parse_from(s, e) {
                Some(rest) => Some(seq![PathSegV::Field(s.subrange(i + 1, e))] + rest),
                None => None,
            }
        }
    } else if s[i] == '[' {
        let e = digit_end(s, i + 1);
        if e == i + 1 || e >= s.len() || s[e] != ']' || digits_val(s, i + 1, e) > usize::MAX as int {
            None
        } else {
            match parse_from(s, e + 1) {
                Some(rest) => Some(seq![PathSegV::Index(digits_val(s, i + 1, e))] + rest),
                None => None,
            }
        }
    } else {
        None
    }
}

#[via_fn]
proof fn parse_from_decreases(s: Seq<char>, i: int) {
    if 0 <= i <= s.len() && i < s.len() {
        if s[i] == '.' {
            lemma_name_end_bounds(s, i + 1);
        } else if s[i] == '[' {
            lemma_digit_end_bounds(s, i + 1);
        }
    }
}

/// What a whole path string denotes: `None` when it is malformed.
///
/// A path is `$` alone, or an optional `$` followed by steps, where the
/// first step may also be a bare field name.
pub open spec fn parse_path(s: Seq<char>) -> Option<Seq<PathSegV>> {
    if s.len() == 0 {
        None
    } else if s[0] == '$' {
        parse_from(s, 1)
    } else if is_name_char(s[0]) {
        let e = name_end(s, 0);
        match parse_from(s, e) {
            Some(rest) => Some(seq![PathSegV::Field(s.subrange(0, e))] + rest),
            None => None,
        }
    } else {
        None
    }
}

// ---------------------------------------------------------------------------
// The parser
// ---------------------------------------------------------------------------

/// Every character of the run `[from, name_end)` is a name character.
proof fn lemma_name_run(s: Seq<char>, from: int)
    requires
        0 <= from <= s.len(),
    ensures
        forall|k: int| from <= k < name_end(s, from) ==> is_name_char(s[k]),
    decreases s.len() - from,
{
    lemma_name_end_bounds(s, from);
    if from < s.len() && is_name_char(s[from]) {
        lemma_name_run(s, from + 1);
        lemma_name_end_bounds(s, from + 1);
    }
}

/// Every character of the run `[from, digit_end)` is a digit.
proof fn lemma_digit_run(s: Seq<char>, from: int)
    requires
        0 <= from <= s.len(),
    ensures
        forall|k: int| from <= k < digit_end(s, from) ==> is_digit_char(s[k]),
    decreases s.len() - from,
{
    lemma_digit_end_bounds(s, from);
    if from < s.len() && is_digit_char(s[from]) {
        lemma_digit_run(s, from + 1);
        lemma_digit_end_bounds(s, from + 1);
    }
}

/// The value of a digit run is non-negative.
proof fn lemma_digits_val_nonneg(s: Seq<char>, i: int, e: int)
    requires
        forall|k: int| i <= k < e ==> is_digit_char(s[k]),
        0 <= i,
        e <= s.len(),
    ensures
        digits_val(s, i, e) >= 0,
    decreases e - i,
{
    if i < e {
        lemma_digits_val_nonneg(s, i, e - 1);
    }
}

/// More digits never shrink the value.
proof fn lemma_digits_val_mono(s: Seq<char>, i: int, j: int, e: int)
    requires
        i <= j <= e <= s.len(),
        0 <= i,
        forall|k: int| i <= k < e ==> is_digit_char(s[k]),
    ensures
        digits_val(s, i, j) <= digits_val(s, i, e),
    decreases e - j,
{
    if j < e {
        lemma_digits_val_mono(s, i, j, e - 1);
        lemma_digits_val_nonneg(s, i, e - 1);
    }
}

/// The end of the run of name characters starting at `from`.
fn scan_name(s: &str, from: usize, n: usize) -> (e: usize)
    requires
        from <= n,
        n == s@.len(),
    ensures
        e == name_end(s@, from as int),
        from <= e <= n,
{
    let mut j: usize = from;
    proof {
        lemma_name_end_bounds(s@, from as int);
    }
    while j < n
        invariant
            from <= j <= n,
            n == s@.len(),
            name_end(s@, from as int) == name_end(s@, j as int),
            name_end(s@, from as int) <= n,
        decreases n - j,
    {
        let c = s.get_char(j);
        if c == '.' || c == '[' || c == ']' {
            return j;
        }
        proof {
            lemma_name_end_bounds(s@, j as int + 1);
        }
        j = j + 1;
    }
    j
}

/// The end of the run of digits starting at `from`.
fn scan_digits(s: &str, from: usize, n: usize) -> (e: usize)
    requires
        from <= n,
        n == s@.len(),
    ensures
        e == digit_end(s@, from as int),
        from <= e <= n,
{
    let mut j: usize = from;
    proof {
        lemma_digit_end_bounds(s@, from as int);
    }
    while j < n
        invariant
            from <= j <= n,
            n == s@.len(),
            digit_end(s@, from as int) == digit_end(s@, j as int),
            digit_end(s@, from as int) <= n,
        decreases n - j,
    {
        let c = s.get_char(j) as u32;
        if !(48 <= c && c <= 57) {
            return j;
        }
        proof {
            lemma_digit_end_bounds(s@, j as int + 1);
        }
        j = j + 1;
    }
    j
}

/// The number a run of digits denotes, or `None` past the machine limit.
fn read_digits(s: &str, from: usize, e: usize) -> (r: Option<usize>)
    requires
        from <= e <= s@.len(),
        forall|k: int| from as int <= k < e as int ==> is_digit_char(s@[k]),
    ensures
        match r {
            Some(v) => v as int == digits_val(s@, from as int, e as int) && v as int
                <= usize::MAX as int,
            None => digits_val(s@, from as int, e as int) > usize::MAX as int,
        },
{
    let mut j: usize = from;
    let mut val: usize = 0;
    while j < e
        invariant
            from <= j <= e <= s@.len(),
            forall|k: int| from as int <= k < e as int ==> is_digit_char(s@[k]),
            val as int == digits_val(s@, from as int, j as int),
        decreases e - j,
    {
        let d: u32 = s.get_char(j) as u32 - 48;
        let du: usize = d as usize;
        proof {
            assert(is_digit_char(s@[j as int]));
            assert(du <= 9);
        }
        if val > (usize::MAX - du) / 10 {
            proof {
                assert((val as int) * 10 + du as int > usize::MAX as int) by (nonlinear_arith)
                    requires
                        val as int > (usize::MAX as int - du as int) / 10,
                        du as int <= 9,
                        val as int >= 0,
                        du as int >= 0,
                ;
                lemma_digits_val_mono(s@, from as int, j as int + 1, e as int);
            }
            return None;
        }
        proof {
            assert((val as int) * 10 + du as int <= usize::MAX as int) by (nonlinear_arith)
                requires
                    val as int <= (usize::MAX as int - du as int) / 10,
                    du as int <= 9,
                    val as int >= 0,
                    du as int >= 0,
            ;
        }
        val = val * 10 + du;
        j = j + 1;
    }
    Some(val)
}

/// Unfolding of `parse_from` at a `.name` step.
proof fn lemma_parse_from_dot(s: Seq<char>, i: int)
    requires
        0 <= i < s.len(),
        s[i] == '.',
        name_end(s, i + 1) != i + 1,
    ensures
        parse_from(s, i) == (match parse_from(s, name_end(s, i + 1)) {
            Some(rest) => Some(
                seq![PathSegV::Field(s.subrange(i + 1, name_end(s, i + 1)))] + rest,
            ),
            None => None::<Seq<PathSegV>>,
        }),
{
    let e = name_end(s, i + 1);
    lemma_name_end_bounds(s, i + 1);
    reveal_with_fuel(parse_from, 2);
    match parse_from(s, e) {
        Some(rest) => {
            assert(parse_from(s, i) == Some(seq![PathSegV::Field(s.subrange(i + 1, e))] + rest));
        },
        None => {
            assert(parse_from(s, i) is None);
        },
    }
}

/// Unfolding of `parse_from` at an `[index]` step.
proof fn lemma_parse_from_idx(s: Seq<char>, i: int)
    requires
        0 <= i < s.len(),
        s[i] == '[',
        digit_end(s, i + 1) != i + 1,
        digit_end(s, i + 1) < s.len(),
        s[digit_end(s, i + 1)] == ']',
        digits_val(s, i + 1, digit_end(s, i + 1)) <= usize::MAX as int,
    ensures
        parse_from(s, i) == (match parse_from(s, digit_end(s, i + 1) + 1) {
            Some(rest) => Some(
                seq![PathSegV::Index(digits_val(s, i + 1, digit_end(s, i + 1)))] + rest,
            ),
            None => None::<Seq<PathSegV>>,
        }),
{
    let e = digit_end(s, i + 1);
    lemma_digit_end_bounds(s, i + 1);
    reveal_with_fuel(parse_from, 2);
    match parse_from(s, e + 1) {
        Some(rest) => {
            assert(parse_from(s, i) == Some(
                seq![PathSegV::Index(digits_val(s, i + 1, e))] + rest,
            ));
        },
        None => {
            assert(parse_from(s, i) is None);
        },
    }
}

/// Unfolding of `parse_from` where no step can start.
proof fn lemma_parse_from_none(s: Seq<char>, i: int)
    requires
        0 <= i < s.len(),
    ensures
        s[i] == '.' && name_end(s, i + 1) == i + 1 ==> parse_from(s, i) is None,
        s[i] == '[' && (digit_end(s, i + 1) == i + 1 || digit_end(s, i + 1) >= s.len() || s[
            digit_end(s, i + 1)
        ] != ']' || digits_val(s, i + 1, digit_end(s, i + 1)) > usize::MAX as int) ==> parse_from(
            s,
            i,
        ) is None,
        s[i] != '.' && s[i] != '[' ==> parse_from(s, i) is None,
{
    lemma_name_end_bounds(s, i + 1);
    lemma_digit_end_bounds(s, i + 1);
    reveal_with_fuel(parse_from, 2);
}

/// Parse a path string; a malformed one is `InvalidArgument`.
#[verifier::loop_isolation(false)]
pub fn parse_path_str(s: &str) -> (r: Result<Vec<PathSeg>, StrataError>)
    ensures
        match r {
            Ok(p) => parse_path(s@) == Some(segs_view(p@)),
            Err(e) => parse_path(s@) is None && e == StrataError::InvalidArgument,
        },
{
    let n = s.unicode_len();
    if n == 0 {
        return Err(StrataError::InvalidArgument);
    }
    let mut out: Vec<PathSeg> = Vec::new();
    let mut i: usize;
    let c0 = s.get_char(0);
    if c0 == '$' {
        i = 1;
        proof {
            assert(match parse_from(s@, 1) {
                Some(rest) => parse_path(s@) == Some(segs_view(out@) + rest),
                None => parse_path(s@) is None,
            }) by {
                if parse_from(s@, 1) is Some {
                    assert(segs_view(out@) + parse_from(s@, 1)->Some_0 =~= parse_from(
                        s@,
                        1,
                    )->Some_0);
                }
            }
        }
    } else if c0 == '.' || c0 == '[' || c0 == ']' {
        return Err(StrataError::InvalidArgument);
    } else {
        let e = scan_name(s, 0, n);
        proof {
            lemma_name_end_bounds(s@, 0);
            lemma_name_end_bounds(s@, 1);
            assert(e >= 1) by {
                assert(is_name_char(s@[0]));
                assert(name_end(s@, 0) == name_end(s@, 1));
            }
        }
        let name = s.substring_char(0, e).to_owned();
        out.push(PathSeg::Field(name));
        i = e;
        proof {
            assert(match parse_from(s@, i as int) {
                Some(rest) => parse_path(s@) == Some(segs_view(out@) + rest),
                None => parse_path(s@) is None,
            }) by {
                if parse_from(s@, i as int) is Some {
                    let rest = parse_from(s@, i as int)->Some_0;
                    assert(segs_view(out@) + rest =~= seq![
                        PathSegV::Field(s@.subrange(0, e as int)),
                    ] + rest);
                }
            }
        }
    }
    while i < n
        invariant
            i <= n,
            n == s@.len(),
            match parse_from(s@, i as int) {
                Some(rest) => parse_path(s@) == Some(segs_view(out@) + rest),
                None => parse_path(s@) is None,
            },
        decreases n - i,
    {
        let c = s.get_char(i);
        if c == '.' {
            let e = scan_name(s, i + 1, n);
            if e == i + 1 {
                proof {
                    lemma_parse_from_none(s@, i as int);
                }
                return Err(StrataError::InvalidArgument);
            }
            let name = s.substring_char(i + 1, e).to_owned();
            proof {
                lemma_parse_from_dot(s@, i as int);
                if parse_from(s@, e as int) is Some {
                    let rest = parse_from(s@, e as int)->Some_0;
                    assert(segs_view(out@.push(PathSeg::Field(name))) + rest =~= segs_view(out@)
                        + (seq![PathSegV::Field(s@.subrange(i as int + 1, e as int))] + rest));
                }
            }
            out.push(PathSeg::Field(name));
            i = e;
        } else if c == '[' {
            let e = scan_digits(s, i + 1, n);
            if e == i + 1 || e >= n {
                proof {
                    lemma_parse_from_none(s@, i as int);
                }
                return Err(StrataError::InvalidArgument);
            }
            let close = s.get_char(e);
            if close != ']' {
                proof {
                    lemma_parse_from_none(s@, i as int);
                }
                return Err(StrataError::InvalidArgument);
            }
            proof {
                lemma_digit_run(s@, i as int + 1);
            }
            let idx = match read_digits(s, i + 1, e) {
                Some(v) => v,
                None => {
                    proof {
                        lemma_parse_from_none(s@, i as int);
                    }
                    return Err(StrataError::InvalidArgument);
                },
            };
            proof {
                lemma_parse_from_idx(s@, i as int);
                if parse_from(s@, e as int + 1) is Some {
                    let rest = parse_from(s@, e as int + 1)->Some_0;
                    assert(segs_view(out@.push(PathSeg::Index(idx))) + rest =~= segs_view(out@)
                        + (seq![PathSegV::Index(digits_val(s@, i as int + 1, e as int))] + rest));
                }
            }
            out.push(PathSeg::Index(idx));
            i = e + 1;
        } else {
            proof {
                lemma_parse_from_none(s@, i as int);
            }
            return Err(StrataError::InvalidArgument);
        }
    }
    proof {
        assert(segs_view(out@) + Seq::<PathSegV>::empty() =~= segs_view(out@));
    }
    Ok(out)
}

/// An owned copy of a parsed path.
pub fn clone_segs(p: &Vec<PathSeg>) -> (r: Vec<PathSeg>)
    ensures
        segs_view(r@) == segs_view(p@),
{
    let mut out: Vec<PathSeg> = Vec::new();
    let mut i: usize = 0;
    while i < p.len()
        invariant
            i <= p@.len(),
            out@.len() == i as int,
            forall|j: int| 0 <= j < i as int ==> out@[j]@ == p@[j]@,
        decreases p@.len() - i,
    {
        let seg = match &p[i] {
            PathSeg::Field(f) => PathSeg::Field(crate::value::clone_string(f)),
            PathSeg::Index(x) => PathSeg::Index(*x),
        };
        out.push(seg);
        i = i + 1;
    }
    proof {
        assert(segs_view(out@) =~= segs_view(p@));
    }
    out
}

} // verus!
