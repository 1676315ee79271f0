//! The tagged value type shared by every primitive.
//!
//! A `Value` is a recursive sum type: scalars, byte strings, arrays and
//! string-keyed objects. Floating-point numbers are carried as their IEEE-754
//! bit patterns, so the engine itself stays within exactly representable
//! integer arithmetic. The mathematical meaning of a `Value` is given by
//! [`ValueV`] and the view function [`vview`].

use vstd::prelude::*;

verus! {

/// A dynamically typed value.
///
/// `Float` holds an IEEE-754 double's bit pattern; the engine never computes
/// with it, it only stores and returns it. `Object` holds its fields in
/// insertion order; field lookup takes the first pair with a matching name.
#[derive(Debug, PartialEq)]
pub enum Value {
    Null,
    Bool(bool),
    Int(i64),
    Float(u64),
    String(String),
    Bytes(Vec<u8>),
    Array(Vec<Value>),
    Object(Vec<(String, Value)>),
}

/// The mathematical shape of a [`Value`]: the same tree with sequences in
/// place of vectors and character sequences in place of strings.
pub ghost enum ValueV {
    Null,
    Bool(bool),
    Int(int),
    Float(u64),
    String(Seq<char>),
    Bytes(Seq<u8>),
    Array(Seq<ValueV>),
    Object(Seq<(Seq<char>, ValueV)>),
}

/// The view of a [`Value`]: the tree it denotes.
pub open spec fn vview(v: Value) -> ValueV
    decreases v,
{
    match v {
        Value::Null => ValueV::Null,
        Value::Bool(b) => ValueV::Bool(b),
        Value::Int(i) => ValueV::Int(i as int),
        Value::Float(bits) => ValueV::Float(bits),
        Value::String(s) => ValueV::String(s@),
        Value::Bytes(b) => ValueV::Bytes(b@),
        Value::Array(a) => ValueV::Array(vview_elems(a@)),
        Value::Object(o) => ValueV::Object(vview_fields(o@)),
    }
}

/// The views of the elements of an array, in order.
pub open spec fn vview_elems(s: Seq<Value>) -> Seq<ValueV>
    decreases s,
{
    if s.len() == 0 {
        Seq::empty()
    } else {
        vview_elems(s.drop_last()).push(vview(s.last()))
    }
}

/// The views of the fields of an object, in order.
pub open spec fn vview_fields(s: Seq<(String, Value)>) -> Seq<(Seq<char>, ValueV)>
    decreases s,
{
    if s.len() == 0 {
        Seq::empty()
    } else {
        vview_fields(s.drop_last()).push((s.last().0@, vview(s.last().1)))
    }
}

/// `vview_elems` is the element-wise view.
pub proof fn lemma_vview_elems(s: Seq<Value>)
    ensures
        vview_elems(s).len() == s.len(),
        forall|i: int| 0 <= i < s.len() ==> vview_elems(s)[i] == vview(s[i]),
    decreases s.len(),
{
    if s.len() > 0 {
        lemma_vview_elems(s.drop_last());
    }
}

/// `vview_fields` is the field-wise view.
pub proof fn lemma_vview_fields(s: Seq<(String, Value)>)
    ensures
        vview_fields(s).len() == s.len(),
        forall|i: int| 0 <= i < s.len()
            ==> vview_fields(s)[i] == (s[i].0@, vview(s[i].1)),
    decreases s.len(),
{
    if s.len() > 0 {
        lemma_vview_fields(s.drop_last());
    }
}

impl View for Value {
    type V = ValueV;

    open spec fn view(&self) -> ValueV {
        vview(*self)
    }
}

impl Value {
    /// An owned copy with the same meaning, returned to callers so that the
    /// engine's own storage stays private.
    pub fn duplicate(&self) -> (r: Value)
        ensures
            r@ == self@,
        decreases *self,
    {
        match self {
            Value::Null => Value::Null,
            Value::Bool(b) => Value::Bool(*b),
            Value::Int(i) => Value::Int(*i),
            Value::Float(bits) => Value::Float(*bits),
            Value::String(s) => Value::String(clone_string(s)),
            Value::Bytes(b) => Value::Bytes(clone_bytes(b)),
            Value::Array(a) => {
                proof {
                    assert(decreases_to!(*self => *a));
                }
                Value::Array(duplicate_elems(a))
            },
            Value::Object(o) => {
                proof {
                    assert(decreases_to!(*self => *o));
                }
                Value::Object(duplicate_fields(o))
            },
        }
    }
}

/// Element-wise copies of an array's values.
fn duplicate_elems(a: &Vec<Value>) -> (r: Vec<Value>)
    ensures
        vview_elems(r@) == vview_elems(a@),
    decreases *a,
{
    let mut out: Vec<Value> = Vec::new();
    let mut i: usize = 0;
    while i < a.len()
        invariant
            i <= a.len(),
            out@.len() == i as int,
            forall|j: int| 0 <= j < i as int ==> vview(out@[j]) == vview(a@[j]),
        decreases a.len() - i,
    {
        proof {
            assert(decreases_to!(*a => a@[i as int]));
        }
        let e = a[i].duplicate();
        out.push(e);
        i = i + 1;
    }
    proof {
        lemma_vview_elems(out@);
        lemma_vview_elems(a@);
        assert(vview_elems(out@) =~= vview_elems(a@));
    }
    out
}

/// Field-wise copies of an object's name/value pairs.
fn duplicate_fields(o: &Vec<(String, Value)>) -> (r: Vec<(String, Value)>)
    ensures
        vview_fields(r@) == vview_fields(o@),
    decreases *o,
{
    let mut out: Vec<(String, Value)> = Vec::new();
    let mut i: usize = 0;
    while i < o.len()
        invariant
            i <= o.len(),
            out@.len() == i as int,
            forall|j: int| 0 <= j < i as int
                ==> out@[j].0@ == o@[j].0@ && vview(out@[j].1) == vview(o@[j].1),
        decreases o.len() - i,
    {
        let k = clone_string(&o[i].0);
        proof {
            assert(decreases_to!(*o => o@[i as int].1));
        }
        let v = o[i].1.duplicate();
        out.push((k, v));
        i = i + 1;
    }
    proof {
        lemma_vview_fields(out@);
        lemma_vview_fields(o@);
        assert(vview_fields(out@) =~= vview_fields(o@));
    }
    out
}

/// An owned copy of a string with the same characters.
pub fn clone_string(s: &String) -> (r: String)
    ensures
        r@ == s@,
{
    s.clone()
}

/// An owned copy of a byte vector with the same bytes.
pub fn clone_bytes(b: &Vec<u8>) -> (r: Vec<u8>)
    ensures
        r@ == b@,
{
    let mut out: Vec<u8> = Vec::new();
    let mut i: usize = 0;
    while i < b.len()
        invariant
            i <= b.len(),
            out@ == b@.subrange(0, i as int),
        decreases b.len() - i,
    {
        out.push(b[i]);
        proof {
            assert(out@ =~= b@.subrange(0, i as int + 1));
        }
        i = i + 1;
    }
    proof {
        assert(b@.subrange(0, b@.len() as int) =~= b@);
    }
    out
}

} // verus!
