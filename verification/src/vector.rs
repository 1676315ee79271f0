//! The vector primitive: collections of fixed-dimension embeddings with
//! exact nearest-neighbor search.
//!
//! Embeddings are dense vectors of fixed-point coordinates: an `i32`
//! coordinate counts units of 1/65536. Scores are exact integers computed
//! in the same fixed-point system, so every search is reproducible and the
//! ranking is fully specified: cosine similarity scaled by 65536, raw inner
//! products, or negated squared distance — in every metric a higher score
//! is closer. Search scans the whole collection, which trivially returns
//! the true nearest neighbors.

use vstd::prelude::*;

use crate::common::{DistanceMetric, StrataError};
use crate::db::{Collection, Strata, VectorData, WalRecord};
use crate::model::{apply_rec, cur, spec_vector_create, spec_vector_delete,
    spec_vector_delete_collection, spec_vector_upsert, RecV, VecEntryV};
use crate::table::{seq_has_str, Table, TableValue};
use crate::text::{lex_le, str_le};
use crate::value::{clone_string, Value};

verus! {

/// The scale of the fixed-point system: one unit is 1/65536.
pub open spec fn fp_scale() -> int {
    65536
}

/// The inner product of two equally long coordinate sequences.
pub open spec fn dot_spec(a: Seq<i32>, b: Seq<i32>) -> int
    decreases a.len(),
{
    if a.len() == 0 || b.len() == 0 {
        0
    } else {
        dot_spec(a.drop_last(), b.drop_last()) + a.last() * b.last()
    }
}

/// The squared distance between two equally long coordinate sequences.
pub open spec fn sqdist_spec(a: Seq<i32>, b: Seq<i32>) -> int
    decreases a.len(),
{
    if a.len() == 0 || b.len() == 0 {
        0
    } else {
        sqdist_spec(a.drop_last(), b.drop_last()) + (a.last() - b.last()) * (a.last() - b.last())
    }
}

/// `r` is the integer square root of `n`.
pub open spec fn is_isqrt(n: int, r: int) -> bool {
    0 <= r && r * r <= n && n < (r + 1) * (r + 1)
}

/// The integer square root.
pub open spec fn isqrt_spec(n: int) -> int {
    choose|r: int| is_isqrt(n, r)
}

/// The score of an entry against a query, by metric. Cosine divides the
/// inner product by the two vector norms, scaled back into fixed point;
/// a zero-length vector scores 0. Euclidean negates the squared distance.
pub open spec fn score_spec(metric: DistanceMetric, q: Seq<i32>, e: Seq<i32>) -> int {
    match metric {
        DistanceMetric::Cosine => {
            let nq = isqrt_spec(dot_spec(q, q));
            let ne = isqrt_spec(dot_spec(e, e));
            if nq == 0 || ne == 0 {
                0
            } else {
                let d = dot_spec(q, e);
                if d >= 0 {
                    (d * fp_scale()) / (nq * ne)
                } else {
                    -(((-d) * fp_scale()) / (nq * ne))
                }
            }
        },
        DistanceMetric::Euclidean => -sqdist_spec(q, e),
        DistanceMetric::DotProduct => dot_spec(q, e),
    }
}

/// Inner products of bounded vectors are bounded by the length.
proof fn lemma_dot_bound(a: Seq<i32>, b: Seq<i32>)
    requires
        a.len() == b.len(),
    ensures
        -(a.len() as int) * 0x4000000000000000 <= dot_spec(a, b),
        dot_spec(a, b) <= (a.len() as int) * 0x4000000000000000,
    decreases a.len(),
{
    if a.len() > 0 {
        lemma_dot_bound(a.drop_last(), b.drop_last());
        assert(a.last() * b.last() <= 0x4000000000000000 && -0x4000000000000000 <= a.last()
            * b.last()) by (nonlinear_arith)
            requires
                -0x80000000 <= a.last() <= 0x7fffffff,
                -0x80000000 <= b.last() <= 0x7fffffff,
        ;
    }
}

/// Squared distances of bounded vectors are bounded by the length.
proof fn lemma_sqdist_bound(a: Seq<i32>, b: Seq<i32>)
    requires
        a.len() == b.len(),
    ensures
        0 <= sqdist_spec(a, b),
        sqdist_spec(a, b) <= (a.len() as int) * 0x10000000000000000,
    decreases a.len(),
{
    if a.len() > 0 {
        lemma_sqdist_bound(a.drop_last(), b.drop_last());
        let d = a.last() - b.last();
        assert(0 <= d * d && d * d <= 0x10000000000000000) by (nonlinear_arith)
            requires
                -0x100000000 <= d <= 0x100000000,
        ;
    }
}

/// A square root certificate names a unique value.
proof fn lemma_isqrt_unique(n: int, r: int)
    requires
        is_isqrt(n, r),
    ensures
        isqrt_spec(n) == r,
{
    let r2 = isqrt_spec(n);
    assert(is_isqrt(n, r2));
    assert(r == r2) by (nonlinear_arith)
        requires
            0 <= r,
            0 <= r2,
            r * r <= n,
            n < (r + 1) * (r + 1),
            r2 * r2 <= n,
            n < (r2 + 1) * (r2 + 1),
    ;
}

/// The square root grows with its argument.
proof fn lemma_isqrt_le(n1: int, n2: int, r1: int, r2: int)
    requires
        is_isqrt(n1, r1),
        is_isqrt(n2, r2),
        n1 <= n2,
    ensures
        r1 <= r2,
{
    assert(r1 <= r2) by (nonlinear_arith)
        requires
            0 <= r1,
            0 <= r2,
            r1 * r1 <= n1,
            n2 < (r2 + 1) * (r2 + 1),
            n1 <= n2,
            r2 * r2 <= n2,
            n1 < (r1 + 1) * (r1 + 1),
    ;
}

/// The inner product, exactly.
fn dot_i128(a: &Vec<i32>, b: &Vec<i32>) -> (r: i128)
    requires
        a@.len() == b@.len(),
        a@.len() <= 65536,
    ensures
        r == dot_spec(a@, b@),
        -(a@.len() as int) * 0x4000000000000000 <= r as int <= (a@.len() as int)
            * 0x4000000000000000,
{
    let mut acc: i128 = 0;
    let mut i: usize = 0;
    proof {
        lemma_dot_bound(a@.take(0), b@.take(0));
        assert(a@.take(0) =~= Seq::<i32>::empty());
    }
    while i < a.len()
        invariant
            i <= a@.len(),
            a@.len() == b@.len(),
            a@.len() <= 65536,
            acc as int == dot_spec(a@.take(i as int), b@.take(i as int)),
            -(i as int) * 0x4000000000000000 <= acc as int <= (i as int) * 0x4000000000000000,
        decreases a@.len() - i,
    {
        let x: i128 = a[i] as i128;
        let y: i128 = b[i] as i128;
        proof {
            assert(-0x4000000000000000 <= x * y <= 0x4000000000000000) by (nonlinear_arith)
                requires
                    -0x80000000 <= x <= 0x7fffffff,
                    -0x80000000 <= y <= 0x7fffffff,
            ;
            assert((i as int) * 0x4000000000000000 + 0x4000000000000000 == (i as int + 1)
                * 0x4000000000000000) by (nonlinear_arith);
            assert((i as int + 1) * 0x4000000000000000 <= 65536 * 0x4000000000000000)
                by (nonlinear_arith)
                requires
                    i as int + 1 <= 65536,
            ;
            assert(a@.take(i as int + 1).drop_last() =~= a@.take(i as int));
            assert(b@.take(i as int + 1).drop_last() =~= b@.take(i as int));
        }
        acc = acc + x * y;
        i = i + 1;
    }
    proof {
        assert(a@.take(a@.len() as int) =~= a@);
        assert(b@.take(b@.len() as int) =~= b@);
    }
    acc
}

/// The squared distance, exactly.
fn sqdist_i128(a: &Vec<i32>, b: &Vec<i32>) -> (r: i128)
    requires
        a@.len() == b@.len(),
        a@.len() <= 65536,
    ensures
        r == sqdist_spec(a@, b@),
        0 <= r as int <= (a@.len() as int) * 0x10000000000000000,
{
    let mut acc: i128 = 0;
    let mut i: usize = 0;
    proof {
        assert(a@.take(0) =~= Seq::<i32>::empty());
    }
    while i < a.len()
        invariant
            i <= a@.len(),
            a@.len() == b@.len(),
            a@.len() <= 65536,
            acc as int == sqdist_spec(a@.take(i as int), b@.take(i as int)),
            0 <= acc as int <= (i as int) * 0x10000000000000000,
        decreases a@.len() - i,
    {
        let x: i128 = a[i] as i128;
        let y: i128 = b[i] as i128;
        let d: i128 = x - y;
        proof {
            assert(0 <= d * d <= 0x10000000000000000) by (nonlinear_arith)
                requires
                    -0x100000000 <= d <= 0x100000000,
            ;
            assert((i as int) * 0x10000000000000000 + 0x10000000000000000 == (i as int + 1)
                * 0x10000000000000000) by (nonlinear_arith);
            assert((i as int + 1) * 0x10000000000000000 <= 65536 * 0x10000000000000000)
                by (nonlinear_arith)
                requires
                    i as int + 1 <= 65536,
            ;
            assert(a@.take(i as int + 1).drop_last() =~= a@.take(i as int));
            assert(b@.take(i as int + 1).drop_last() =~= b@.take(i as int));
        }
        acc = acc + d * d;
        i = i + 1;
    }
    proof {
        assert(a@.take(a@.len() as int) =~= a@);
        assert(b@.take(b@.len() as int) =~= b@);
    }
    acc
}

/// The integer square root, by bisection.
fn isqrt_u128(n: u128) -> (r: u128)
    requires
        n < 0x4000000000000000000000000000000,
    ensures
        is_isqrt(n as int, r as int),
        r as int == isqrt_spec(n as int),
{
    let mut lo: u128 = 0;
    let mut hi: u128 = 0x10000000000000000;
    proof {
        assert((0x10000000000000000 as int) * (0x10000000000000000 as int) > n as int)
            by (nonlinear_arith)
            requires
                n < 0x4000000000000000000000000000000,
        ;
    }
    while lo + 1 < hi
        invariant
            lo < hi,
            hi <= 0x10000000000000000,
            (lo as int) * (lo as int) <= n as int,
            (hi as int) * (hi as int) > n as int,
        decreases hi - lo,
    {
        let mid: u128 = lo + (hi - lo) / 2;
        proof {
            assert((mid as int) * (mid as int) <= 0xffffffffffffffffffffffffffffffff)
                by (nonlinear_arith)
                requires
                    mid <= 0xffffffffffffffff,
            ;
        }
        if mid * mid <= n {
            lo = mid;
        } else {
            hi = mid;
        }
    }
    proof {
        lemma_isqrt_unique(n as int, lo as int);
    }
    lo
}

/// The score of one entry, exactly as the model defines it.
fn score_exec(metric: DistanceMetric, q: &Vec<i32>, e: &Vec<i32>) -> (r: i128)
    requires
        q@.len() == e@.len(),
        q@.len() <= 65536,
    ensures
        r == score_spec(metric, q@, e@),
{
    match metric {
        DistanceMetric::Cosine => {
            let qq = dot_i128(q, q);
            let ee = dot_i128(e, e);
            proof {
                lemma_dot_bound(q@, q@);
                lemma_dot_bound(e@, e@);
                lemma_sq_nonneg(q@);
                lemma_sq_nonneg(e@);
            }
            let nq = isqrt_u128(qq as u128);
            let ne = isqrt_u128(ee as u128);
            proof {
                assert(nq as int == isqrt_spec(dot_spec(q@, q@)));
                assert(ne as int == isqrt_spec(dot_spec(e@, e@)));
                assert((nq as int) * (nq as int) <= 65536 * 0x4000000000000000);
                assert(nq < 0x100000000000 && ne < 0x100000000000) by (nonlinear_arith)
                    requires
                        (nq as int) * (nq as int) <= 65536 * 0x4000000000000000,
                        (ne as int) * (ne as int) <= 65536 * 0x4000000000000000,
                ;
            }
            if nq == 0 || ne == 0 {
                return 0;
            }
            let d = dot_i128(q, e);
            proof {
                assert((nq as int) * (ne as int) <= 0xffffffffffffffffffffffffffffffff && (
                nq as int) * (ne as int) > 0) by (nonlinear_arith)
                    requires
                        0 < nq < 0x100000000000,
                        0 < ne < 0x100000000000,
                ;
            }
            let m: u128 = nq * ne;
            if d >= 0 {
                let big: u128 = (d as u128) * 65536;
                let s = big / m;
                proof {
                    assert(s <= big);
                }
                s as i128
            } else {
                let ad: i128 = -d;
                let big: u128 = (ad as u128) * 65536;
                let s = big / m;
                proof {
                    assert(s <= big);
                }
                -(s as i128)
            }
        },
        DistanceMetric::Euclidean => {
            let sq = sqdist_i128(q, e);
            -sq
        },
        DistanceMetric::DotProduct => dot_i128(q, e),
    }
}

/// A vector's inner product with itself is non-negative.
proof fn lemma_sq_nonneg(a: Seq<i32>)
    ensures
        dot_spec(a, a) >= 0,
    decreases a.len(),
{
    if a.len() > 0 {
        lemma_sq_nonneg(a.drop_last());
        assert(a.last() * a.last() >= 0) by (nonlinear_arith);
    }
}

/// An owned copy of a coordinate vector.
pub fn clone_coords(a: &Vec<i32>) -> (r: Vec<i32>)
    ensures
        r@ == a@,
{
    let mut out: Vec<i32> = Vec::new();
    let mut i: usize = 0;
    while i < a.len()
        invariant
            i <= a@.len(),
            out@ == a@.take(i as int),
        decreases a@.len() - i,
    {
        out.push(a[i]);
        proof {
            assert(out@ =~= a@.take(i as int + 1));
        }
        i = i + 1;
    }
    proof {
        assert(a@.take(a@.len() as int) =~= a@);
    }
    out
}

/// An owned copy of optional metadata, with the same meaning.
pub fn clone_metadata(m: &Option<Value>) -> (r: Option<Value>)
    ensures
        crate::db::opt_vview(r) == crate::db::opt_vview(*m),
{
    match m {
        Some(v) => Some(v.duplicate()),
        None => None,
    }
}

/// What a listing says of one collection.
#[derive(Debug)]
pub struct CollectionInfo {
    pub name: String,
    pub dimension: u64,
    pub metric: DistanceMetric,
}

/// One stored vector, handed out by `vector_get`.
#[derive(Debug)]
pub struct VectorRecord {
    pub key: String,
    pub data: VectorData,
}

/// One search hit: a key and its exact score.
#[derive(Debug)]
pub struct SearchResult {
    pub key: String,
    pub score: i128,
}

impl Strata {
    /// Create a collection of the given dimension and metric; the returned
    /// version is unique within the branch. The dimension must lie in
    /// 1..=65536; a taken name is `AlreadyExists`.
    pub fn vector_create_collection(&mut self, name: &str, dimension: u64, metric: DistanceMetric)
        -> (r: Result<u64, StrataError>)
        requires
            old(self).wf(),
        ensures
            final(self).wf(),
            old(self)@.poisoned || cur(old(self)@).next_coll_version >= u64::MAX ==> r == Err::<
                u64,
                StrataError,
            >(StrataError::InvalidState) && final(self)@ == old(self)@,
            !old(self)@.poisoned && !(cur(old(self)@).next_coll_version >= u64::MAX) && (dimension
                == 0 || dimension > 65536) ==> r == Err::<u64, StrataError>(
                StrataError::InvalidArgument,
            ) && final(self)@ == old(self)@,
            !old(self)@.poisoned && !(cur(old(self)@).next_coll_version >= u64::MAX) && 1
                <= dimension <= 65536 && cur(old(self)@).colls.contains_key(name@) ==> r == Err::<
                u64,
                StrataError,
            >(StrataError::AlreadyExists) && final(self)@ == old(self)@,
            !old(self)@.poisoned && !(cur(old(self)@).next_coll_version >= u64::MAX) && 1
                <= dimension <= 65536 && !cur(old(self)@).colls.contains_key(name@) ==> r == Ok::<
                u64,
                StrataError,
            >(r->Ok_0) && r->Ok_0 as int == cur(old(self)@).next_coll_version && r->Ok_0 >= 1
                && final(self)@ == spec_vector_create(old(self)@, name@, dimension, metric),
    {
        if self.poisoned {
            return Err(StrataError::InvalidState);
        }
        let ghost base = self@;
        let mut b = self.take_current();
        if b.next_coll_version == u64::MAX {
            let nm = clone_string(&self.current);
            self.branches.put(nm, b);
            proof {
                assert(self@.branches =~= base.branches);
                assert(self@ == base);
            }
            return Err(StrataError::InvalidState);
        }
        if dimension == 0 || dimension > 65536 {
            let nm = clone_string(&self.current);
            self.branches.put(nm, b);
            proof {
                assert(self@.branches =~= base.branches);
                assert(self@ == base);
            }
            return Err(StrataError::InvalidArgument);
        }
        if b.colls.contains(name) {
            let nm = clone_string(&self.current);
            self.branches.put(nm, b);
            proof {
                assert(self@.branches =~= base.branches);
                assert(self@ == base);
            }
            return Err(StrataError::AlreadyExists);
        }
        let version = b.next_coll_version;
        let rec = WalRecord::VectorCreate {
            branch: clone_string(&self.current),
            name: name.to_owned(),
            dimension,
            metric,
        };
        b.colls.put(
            name.to_owned(),
            Collection { dimension, metric, version, items: Table::new() },
        );
        b.next_coll_version = version + 1;
        proof {
            assert(apply_rec(base.branches, rec@) == base.branches.insert(base.current, b@));
        }
        self.commit_current(b, rec, Ghost(base));
        Ok(version)
    }

    /// Delete a collection and everything in it; `Ok(false)` when there was
    /// none.
    pub fn vector_delete_collection(&mut self, name: &str) -> (r: Result<bool, StrataError>)
        requires
            old(self).wf(),
        ensures
            final(self).wf(),
            old(self)@.poisoned ==> r == Err::<bool, StrataError>(StrataError::InvalidState)
                && final(self)@ == old(self)@,
            !old(self)@.poisoned ==> r == Ok::<bool, StrataError>(
                cur(old(self)@).colls.contains_key(name@),
            ) && final(self)@ == spec_vector_delete_collection(old(self)@, name@),
    {
        if self.poisoned {
            return Err(StrataError::InvalidState);
        }
        let rec = WalRecord::VectorDeleteCollection {
            branch: clone_string(&self.current),
            name: name.to_owned(),
        };
        let ghost base = self@;
        let mut b = self.take_current();
        let had = b.colls.remove(name);
        proof {
            assert(apply_rec(base.branches, rec@) == base.branches.insert(base.current, b@));
        }
        self.commit_current(b, rec, Ghost(base));
        Ok(had)
    }

    /// Every collection on the branch, by ascending name.
    pub fn vector_list_collections(&self) -> (r: Result<Vec<CollectionInfo>, StrataError>)
        requires
            self.wf(),
        ensures
            match r {
                Ok(infos) => {
                    &&& forall|i: int, j: int|
                        0 <= i < j < infos@.len() ==> lex_le(
                            #[trigger] infos@[i].name@,
                            #[trigger] infos@[j].name@,
                        ) && infos@[i].name@ != infos@[j].name@
                    &&& forall|i: int|
                        0 <= i < infos@.len() ==> cur(self@).colls.contains_key(
                            (#[trigger] infos@[i]).name@,
                        ) && infos@[i].dimension == cur(self@).colls[infos@[i].name@].dimension
                            && infos@[i].metric == cur(self@).colls[infos@[i].name@].metric
                    &&& forall|k: Seq<char>|
                        cur(self@).colls.contains_key(k) ==> exists|i: int|
                            0 <= i < infos@.len() && (#[trigger] infos@[i]).name@ == k
                },
                Err(_) => false,
            },
    {
        let nm = clone_string(&self.current);
        let b = match self.branches.get(nm.as_str()) {
            Some(b) => b,
            None => vstd::pervasive::unreached(),
        };
        let names = b.colls.keys_with_prefix(None);
        proof {
            assert forall|k: Seq<char>| cur(self@).colls.contains_key(k) implies seq_has_str(
                names@,
                k,
            ) by {
                assert(b.colls@.contains_key(k));
                assert(crate::table::prefix_sel(None, k));
            }
        }
        let mut out: Vec<CollectionInfo> = Vec::new();
        let mut i: usize = 0;
        while i < names.len()
            invariant
                self.wf(),
                b.inv(),
                b@ == cur(self@),
                i <= names@.len(),
                out@.len() == i as int,
                crate::table::sorted_distinct(names@),
                forall|j: int|
                    0 <= j < names@.len() ==> b.colls@.contains_key(#[trigger] names@[j]@),
                forall|j: int| 0 <= j < i as int ==> (#[trigger] out@[j]).name@ == names@[j]@,
                forall|j: int|
                    0 <= j < i as int ==> cur(self@).colls.contains_key((#[trigger] out@[j]).name@)
                        && out@[j].dimension == cur(self@).colls[out@[j].name@].dimension
                        && out@[j].metric == cur(self@).colls[out@[j].name@].metric,
            decreases names@.len() - i,
        {
            let nm2 = clone_string(&names[i]);
            let c = match b.colls.get(nm2.as_str()) {
                Some(c) => c,
                None => vstd::pervasive::unreached(),
            };
            out.push(CollectionInfo { name: nm2, dimension: c.dimension, metric: c.metric });
            i = i + 1;
        }
        proof {
            assert forall|k: Seq<char>| cur(self@).colls.contains_key(k) implies exists|i2: int|
                0 <= i2 < out@.len() && (#[trigger] out@[i2]).name@ == k by {
                assert(seq_has_str(names@, k));
                let e = choose|e: int| 0 <= e < names@.len() && names@[e]@ == k;
                assert(out@[e].name@ == k);
            }
        }
        Ok(out)
    }

    /// Create or replace the entry under `key`. The embedding must have
    /// exactly the collection's dimension; an absent collection is
    /// `NotFound`.
    pub fn vector_upsert(
        &mut self,
        name: &str,
        key: &str,
        embedding: Vec<i32>,
        metadata: Option<Value>,
    ) -> (r: Result<(), StrataError>)
        requires
            old(self).wf(),
        ensures
            final(self).wf(),
            old(self)@.poisoned ==> r == Err::<(), StrataError>(StrataError::InvalidState)
                && final(self)@ == old(self)@,
            !old(self)@.poisoned && !cur(old(self)@).colls.contains_key(name@) ==> r == Err::<
                (),
                StrataError,
            >(StrataError::NotFound) && final(self)@ == old(self)@,
            !old(self)@.poisoned && cur(old(self)@).colls.contains_key(name@) && embedding@.len()
                != cur(old(self)@).colls[name@].dimension ==> r == Err::<(), StrataError>(
                StrataError::InvalidArgument,
            ) && final(self)@ == old(self)@,
            !old(self)@.poisoned && cur(old(self)@).colls.contains_key(name@) && embedding@.len()
                == cur(old(self)@).colls[name@].dimension ==> r == Ok::<(), StrataError>(())
                && final(self)@ == spec_vector_upsert(
                old(self)@,
                name@,
                key@,
                embedding@,
                crate::db::opt_vview(metadata),
            ),
    {
        if self.poisoned {
            return Err(StrataError::InvalidState);
        }
        let rec = WalRecord::VectorUpsert {
            branch: clone_string(&self.current),
            coll: name.to_owned(),
            key: key.to_owned(),
            embedding: clone_coords(&embedding),
            metadata: clone_metadata(&metadata),
        };
        let ghost base = self@;
        let mut b = self.take_current();
        let mut c = match b.colls.take(name) {
            Some(c) => c,
            None => {
                let nm = clone_string(&self.current);
                self.branches.put(nm, b);
                proof {
                    assert(self@.branches =~= base.branches);
                    assert(self@ == base);
                }
                return Err(StrataError::NotFound);
            },
        };
        if embedding.len() as u64 != c.dimension {
            b.colls.put(name.to_owned(), c);
            proof {
                assert(b.colls@ =~= base.branches[base.current].colls);
            }
            let nm = clone_string(&self.current);
            self.branches.put(nm, b);
            proof {
                assert(self@.branches =~= base.branches);
                assert(self@ == base);
            }
            return Err(StrataError::InvalidArgument);
        }
        c.items.put(key.to_owned(), VectorData { embedding, metadata });
        b.colls.put(name.to_owned(), c);
        proof {
            assert(b.colls@ =~= base.branches[base.current].colls.insert(
                name@,
                crate::model::CollV {
                    items: base.branches[base.current].colls[name@].items.insert(
                        key@,
                        VecEntryV {
                            embedding: embedding@,
                            metadata: crate::db::opt_vview(metadata),
                        },
                    ),
                    ..base.branches[base.current].colls[name@]
                },
            ));
            assert(apply_rec(base.branches, rec@) == base.branches.insert(base.current, b@));
        }
        self.commit_current(b, rec, Ghost(base));
        Ok(())
    }

    /// The entry under `key`, with its exact embedding and metadata; an
    /// absent collection is `NotFound`.
    pub fn vector_get(&self, name: &str, key: &str) -> (r: Result<Option<VectorRecord>, StrataError>)
        requires
            self.wf(),
        ensures
            match r {
                Ok(ov) => cur(self@).colls.contains_key(name@) && (match ov {
                    Some(rec) => cur(self@).colls[name@].items.contains_key(key@) && rec.key@
                        == key@ && rec.data@ == cur(self@).colls[name@].items[key@],
                    None => !cur(self@).colls[name@].items.contains_key(key@),
                }),
                Err(e) => !cur(self@).colls.contains_key(name@) && e == StrataError::NotFound,
            },
    {
        let nm = clone_string(&self.current);
        let b = match self.branches.get(nm.as_str()) {
            Some(b) => b,
            None => vstd::pervasive::unreached(),
        };
        let c = match b.colls.get(name) {
            Some(c) => c,
            None => {
                return Err(StrataError::NotFound);
            },
        };
        match c.items.get(key) {
            Some(d) => Ok(
                Some(
                    VectorRecord {
                        key: key.to_owned(),
                        data: VectorData {
                            embedding: clone_coords(&d.embedding),
                            metadata: clone_metadata(&d.metadata),
                        },
                    },
                ),
            ),
            None => Ok(None),
        }
    }

    /// Remove the entry under `key`; `Ok(false)` when it was absent. An
    /// absent collection is `NotFound`.
    pub fn vector_delete(&mut self, name: &str, key: &str) -> (r: Result<bool, StrataError>)
        requires
            old(self).wf(),
        ensures
            final(self).wf(),
            old(self)@.poisoned ==> r == Err::<bool, StrataError>(StrataError::InvalidState)
                && final(self)@ == old(self)@,
            !old(self)@.poisoned && !cur(old(self)@).colls.contains_key(name@) ==> r == Err::<
                bool,
                StrataError,
            >(StrataError::NotFound) && final(self)@ == old(self)@,
            !old(self)@.poisoned && cur(old(self)@).colls.contains_key(name@) ==> r == Ok::<
                bool,
                StrataError,
            >(cur(old(self)@).colls[name@].items.contains_key(key@)) && final(self)@
                == spec_vector_delete(old(self)@, name@, key@),
    {
        if self.poisoned {
            return Err(StrataError::InvalidState);
        }
        let rec = WalRecord::VectorDelete {
            branch: clone_string(&self.current),
            coll: name.to_owned(),
            key: key.to_owned(),
        };
        let ghost base = self@;
        let mut b = self.take_current();
        let mut c = match b.colls.take(name) {
            Some(c) => c,
            None => {
                let nm = clone_string(&self.current);
                self.branches.put(nm, b);
                proof {
                    assert(self@.branches =~= base.branches);
                    assert(self@ == base);
                }
                return Err(StrataError::NotFound);
            },
        };
        let had = c.items.remove(key);
        b.colls.put(name.to_owned(), c);
        proof {
            assert(b.colls@ =~= base.branches[base.current].colls.insert(
                name@,
                crate::model::CollV {
                    items: base.branches[base.current].colls[name@].items.remove(key@),
                    ..base.branches[base.current].colls[name@]
                },
            ));
            assert(apply_rec(base.branches, rec@) == base.branches.insert(base.current, b@));
        }
        self.commit_current(b, rec, Ghost(base));
        Ok(had)
    }
}

// ---------------------------------------------------------------------------
// Search
// ---------------------------------------------------------------------------

/// The rank of a search hit: its score and its key.
pub open spec fn hit_view(h: SearchResult) -> (int, Seq<char>) {
    (h.score as int, h.key@)
}

/// `a` ranks at or before `b`: a higher score, or the same score and a key
/// that is not later.
pub open spec fn hit_before(a: (int, Seq<char>), b: (int, Seq<char>)) -> bool {
    a.0 > b.0 || (a.0 == b.0 && lex_le(a.1, b.1))
}

/// Hits in rank order with pairwise distinct keys.
pub open spec fn sorted_hits(s: Seq<SearchResult>) -> bool {
    forall|i: int, j: int|
        0 <= i < j < s.len() ==> hit_before(hit_view(#[trigger] s[i]), hit_view(#[trigger] s[j]))
            && s[i].key@ != s[j].key@
}

/// Some hit carries this key.
pub open spec fn seq_has_hit(s: Seq<SearchResult>, key: Seq<char>) -> bool {
    exists|i: int| 0 <= i < s.len() && s[i].key@ == key
}

/// The rank order is total.
proof fn lemma_hit_total(a: (int, Seq<char>), b: (int, Seq<char>))
    ensures
        hit_before(a, b) || hit_before(b, a),
{
    crate::text::lemma_lex_le_total(a.1, b.1);
}

/// The rank order is transitive.
proof fn lemma_hit_trans(a: (int, Seq<char>), b: (int, Seq<char>), c: (int, Seq<char>))
    requires
        hit_before(a, b),
        hit_before(b, c),
    ensures
        hit_before(a, c),
{
    if a.0 == b.0 && b.0 == c.0 {
        crate::text::lemma_lex_le_trans(a.1, b.1, c.1);
    }
}

/// The first position that the new hit ranks before.
#[verifier::loop_isolation(false)]
fn hit_lower_bound(v: &Vec<SearchResult>, key: &str, score: i128) -> (pos: usize)
    requires
        sorted_hits(v@),
    ensures
        pos <= v@.len(),
        forall|j: int|
            0 <= j < pos as int ==> hit_before(hit_view(#[trigger] v@[j]), (score as int, key@)),
        pos < v@.len() ==> hit_before((score as int, key@), hit_view(v@[pos as int])),
{
    let mut i: usize = 0;
    while i < v.len()
        invariant
            i <= v@.len(),
            forall|j: int|
                0 <= j < i as int ==> hit_before(hit_view(#[trigger] v@[j]), (score as int, key@)),
        decreases v@.len() - i,
    {
        let better = if score > v[i].score {
            true
        } else if score == v[i].score {
            str_le(key, v[i].key.as_str())
        } else {
            false
        };
        if better {
            return i;
        }
        proof {
            lemma_hit_total((score as int, key@), hit_view(v@[i as int]));
        }
        i = i + 1;
    }
    i
}

/// Insert a hit with a fresh key into a ranked vector, keeping it ranked.
fn insert_hit(v: &mut Vec<SearchResult>, key: String, score: i128)
    requires
        sorted_hits(old(v)@),
        forall|j: int| 0 <= j < old(v)@.len() ==> (#[trigger] old(v)@[j]).key@ != key@,
    ensures
        sorted_hits(final(v)@),
        final(v)@.len() == old(v)@.len() + 1,
        forall|k2: Seq<char>|
            #[trigger] seq_has_hit(final(v)@, k2) <==> (seq_has_hit(old(v)@, k2) || k2 == key@),
        forall|j: int|
            0 <= j < final(v)@.len() ==> (exists|j0: int|
                0 <= j0 < old(v)@.len() && (#[trigger] final(v)@[j]).key@ == old(v)@[j0].key@
                    && final(v)@[j].score == old(v)@[j0].score) || (final(v)@[j].key@ == key@
                && final(v)@[j].score == score),
{
    let i = hit_lower_bound(v, key.as_str(), score);
    let ghost v0 = v@;
    let ghost pos = i as int;
    let ghost new_hit = (score as int, key@);
    v.insert(i, SearchResult { key, score });
    proof {
        assert(v@[pos].key@ == new_hit.1 && v@[pos].score as int == new_hit.0);
        assert forall|a: int, b: int| 0 <= a < b < v@.len() implies hit_before(
            hit_view(#[trigger] v@[a]),
            hit_view(#[trigger] v@[b]),
        ) && v@[a].key@ != v@[b].key@ by {
            assert(v@[a] == (if a < pos {
                v0[a]
            } else if a == pos {
                v@[pos]
            } else {
                v0[a - 1]
            }));
            assert(v@[b] == (if b < pos {
                v0[b]
            } else if b == pos {
                v@[pos]
            } else {
                v0[b - 1]
            }));
            if a == pos && b > pos {
                if b - 1 > pos {
                    lemma_hit_trans(new_hit, hit_view(v0[pos]), hit_view(v0[b - 1]));
                }
            }
        }
        assert forall|k2: Seq<char>| #[trigger] seq_has_hit(v@, k2) implies (seq_has_hit(v0, k2)
            || k2 == key@) by {
            let j = choose|j: int| 0 <= j < v@.len() && v@[j].key@ == k2;
            if j < pos {
                assert(v0[j].key@ == k2);
            } else if j > pos {
                assert(v0[j - 1].key@ == k2);
            }
        }
        assert forall|k2: Seq<char>| (seq_has_hit(v0, k2) || k2 == new_hit.1) implies
            #[trigger] seq_has_hit(v@, k2) by {
            if k2 == new_hit.1 {
                assert(v@[pos].key@ == k2);
            } else {
                let j = choose|j: int| 0 <= j < v0.len() && v0[j].key@ == k2;
                if j < pos {
                    assert(v@[j].key@ == k2);
                } else {
                    assert(v@[j + 1].key@ == k2);
                }
            }
        }
        assert forall|j: int| 0 <= j < v@.len() implies (exists|j0: int|
            0 <= j0 < v0.len() && (#[trigger] v@[j]).key@ == v0[j0].key@ && v@[j].score == v0[
            j0
        ].score) || (v@[j].key@ == new_hit.1 && v@[j].score as int == new_hit.0) by {
            if j < pos {
                assert(v@[j].key@ == v0[j].key@ && v@[j].score == v0[j].score);
            } else if j > pos {
                assert(v@[j].key@ == v0[j - 1].key@ && v@[j].score == v0[j - 1].score);
            }
        }
    }
}

impl Strata {
    /// The up-to-`k` entries of the collection ranked most similar to the
    /// query: scores are exact, ranked by descending score with ties by
    /// ascending key, and nothing outside the page ranks before its end.
    /// An absent collection is `NotFound`; a query of the wrong dimension
    /// is `InvalidArgument`.
    pub fn vector_search(&self, name: &str, query: Vec<i32>, k: usize) -> (r: Result<
        Vec<SearchResult>,
        StrataError,
    >)
        requires
            self.wf(),
        ensures
            match r {
                Ok(hits) => cur(self@).colls.contains_key(name@) && query@.len() == cur(
                    self@,
                ).colls[name@].dimension && {
                    let items = cur(self@).colls[name@].items;
                    let metric = cur(self@).colls[name@].metric;
                    &&& hits@.len() <= k
                    &&& sorted_hits(hits@)
                    &&& forall|i: int|
                        0 <= i < hits@.len() ==> items.contains_key((#[trigger] hits@[i]).key@)
                            && hits@[i].score as int == score_spec(
                            metric,
                            query@,
                            items[hits@[i].key@].embedding,
                        )
                    &&& forall|key: Seq<char>|
                        items.contains_key(key) ==> (seq_has_hit(hits@, key) || (hits@.len()
                            == k && (k == 0 || hit_before(
                            hit_view(hits@[k - 1]),
                            (score_spec(metric, query@, items[key].embedding), key),
                        ))))
                },
                Err(e) => (e == StrataError::NotFound && !cur(self@).colls.contains_key(name@)) || (
                e == StrataError::InvalidArgument && cur(self@).colls.contains_key(name@)
                    && query@.len() != cur(self@).colls[name@].dimension),
            },
    {
        let nm = clone_string(&self.current);
        let b = match self.branches.get(nm.as_str()) {
            Some(b) => b,
            None => vstd::pervasive::unreached(),
        };
        let c = match b.colls.get(name) {
            Some(c) => c,
            None => {
                return Err(StrataError::NotFound);
            },
        };
        if query.len() as u64 != c.dimension {
            return Err(StrataError::InvalidArgument);
        }
        let ghost items = c.items@;
        let ghost metric = c.metric;
        let mut hits: Vec<SearchResult> = Vec::new();
        let mut idx: usize = 0;
        while idx < c.items.entries.len()
            invariant
                c.items.wf(),
                c.inv(),
                items == c.items@,
                metric == c.metric,
                query@.len() == c.dimension,
                idx <= c.items.entries@.len(),
                hits@.len() == idx as int,
                sorted_hits(hits@),
                forall|j: int|
                    0 <= j < hits@.len() ==> exists|e0: int|
                        0 <= e0 < idx as int && c.items.entries@[e0].0@ == (#[trigger] hits@[
                            j
                        ]).key@,
                forall|j: int|
                    0 <= j < hits@.len() ==> items.contains_key((#[trigger] hits@[j]).key@)
                        && hits@[j].score as int == score_spec(
                        metric,
                        query@,
                        items[hits@[j].key@].embedding,
                    ),
                forall|e0: int|
                    0 <= e0 < idx as int ==> seq_has_hit(
                        hits@,
                        (#[trigger] c.items.entries@[e0]).0@,
                    ),
            decreases c.items.entries@.len() - idx,
        {
            let ghost hits0 = hits@;
            proof {
                crate::table::lemma_tbl_index(c.items.entries@, idx as int);
                assert(items[c.items.entries@[idx as int].0@] == c.items.entries@[idx as int].1@);
                assert forall|j: int| 0 <= j < hits@.len() implies (#[trigger] hits@[j]).key@
                    != c.items.entries@[idx as int].0@ by {
                    let e0 = choose|e0: int|
                        0 <= e0 < idx as int && c.items.entries@[e0].0@ == hits@[j].key@;
                    assert(c.items.entries@[e0].0@ != c.items.entries@[idx as int].0@);
                }
            }
            let entry_key = clone_string(&c.items.entries[idx].0);
            let score = score_exec(c.metric, &query, &c.items.entries[idx].1.embedding);
            insert_hit(&mut hits, entry_key, score);
            proof {
                assert forall|j: int| 0 <= j < hits@.len() implies exists|e0: int|
                    0 <= e0 < idx as int + 1 && c.items.entries@[e0].0@ == (#[trigger] hits@[
                        j
                    ]).key@ by {
                    if hits@[j].key@ == c.items.entries@[idx as int].0@ {
                        assert(c.items.entries@[idx as int].0@ == hits@[j].key@);
                    } else {
                        assert(seq_has_hit(hits0, hits@[j].key@));
                        let j0 = choose|j0: int|
                            0 <= j0 < hits0.len() && hits0[j0].key@ == hits@[j].key@;
                        let e0 = choose|e0: int|
                            0 <= e0 < idx as int && c.items.entries@[e0].0@ == hits0[j0].key@;
                        assert(c.items.entries@[e0].0@ == hits@[j].key@);
                    }
                }
                assert forall|e0: int| 0 <= e0 < idx as int + 1 implies seq_has_hit(
                    hits@,
                    (#[trigger] c.items.entries@[e0]).0@,
                ) by {
                    if e0 < idx as int {
                        assert(seq_has_hit(hits0, c.items.entries@[e0].0@));
                    }
                }
            }
            idx = idx + 1;
        }
        proof {
            crate::table::lemma_tbl_dom(c.items.entries@);
        }
        while hits.len() > k
            invariant
                sorted_hits(hits@),
                forall|key: Seq<char>|
                    items.contains_key(key) && !seq_has_hit(hits@, key) ==> hits@.len() >= k,
                forall|j: int|
                    0 <= j < hits@.len() ==> items.contains_key((#[trigger] hits@[j]).key@)
                        && hits@[j].score as int == score_spec(
                        metric,
                        query@,
                        items[hits@[j].key@].embedding,
                    ),
                forall|key: Seq<char>|
                    items.contains_key(key) ==> (seq_has_hit(hits@, key) || hits@.len() == 0 || (
                    hits@.len() > 0 && hit_before(
                        hit_view(hits@[hits@.len() - 1]),
                        (score_spec(metric, query@, items[key].embedding), key),
                    ))),
            decreases hits@.len(),
        {
            let ghost hits0 = hits@;
            hits.pop();
            proof {
                assert(hits@ =~= hits0.drop_last());
                assert forall|key: Seq<char>| items.contains_key(key) implies (seq_has_hit(
                    hits@,
                    key,
                ) || hits@.len() == 0 || (hits@.len() > 0 && hit_before(
                    hit_view(hits@[hits@.len() - 1]),
                    (score_spec(metric, query@, items[key].embedding), key),
                ))) by {
                    if hits@.len() > 0 {
                        let pair = (score_spec(metric, query@, items[key].embedding), key);
                        if seq_has_hit(hits0, key) {
                            let j = choose|j: int| 0 <= j < hits0.len() && hits0[j].key@ == key;
                            if j < hits0.len() - 1 {
                                assert(hits@[j].key@ == key);
                            } else {
                                // the popped hit itself: dominated by the new last
                                assert(hits0[j].score as int == pair.0);
                                crate::text::lemma_lex_le_total(
                                    hits@[hits@.len() - 1].key@,
                                    key,
                                );
                                assert(hit_before(hit_view(hits@[hits@.len() - 1]), pair));
                            }
                        } else {
                            lemma_hit_trans(
                                hit_view(hits0[hits0.len() - 2]),
                                hit_view(hits0[hits0.len() - 1]),
                                pair,
                            );
                        }
                    }
                }
            }
        }
        Ok(hits)
    }
}

} // verus!
