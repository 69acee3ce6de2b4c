//! Exact vectors and matrices over rational scalars.
//!
//! Vectors are `Vec<Rat>`; matrices are dense row-major `Vec<Vec<Rat>>`
//! wrapped in [`Mat`].  Every operation is stated against the mathematical
//! inner product [`rdot`] over specification-level rationals.  The linear
//! solver and the inverse run Gauss-Jordan elimination and then re-check the
//! defining equations exactly at run time, so their contracts do not rest on
//! any property of the elimination itself.

use crate::rat::{
    lemma_radd_congruence, lemma_radd_wf, lemma_rat_eq_sym, lemma_rat_eq_trans,
    lemma_rmul_congruence, lemma_rsub_congruence, radd, rat_eq, rat_wf, rmul, rneg, rone, rsub,
    rzero, Rat, Ratio,
};
use crate::GbpError;
use vstd::prelude::*;

verus! {

// ------------------------------------------------------------------
// Specification helpers over sequences of rationals
// ------------------------------------------------------------------

/// The specification-level values of a sequence of scalars.
pub open spec fn rats(s: Seq<Rat>) -> Seq<Ratio> {
    s.map_values(|x: Rat| x@)
}

pub open spec fn seq_wf(s: Seq<Ratio>) -> bool {
    forall|i: int| 0 <= i < s.len() ==> rat_wf(#[trigger] s[i])
}

pub open spec fn vec_wf(v: Seq<Rat>) -> bool {
    forall|i: int| 0 <= i < v.len() ==> (#[trigger] v[i]).wf()
}

/// Inner product of two equally long sequences of rationals.
pub open spec fn rdot(a: Seq<Ratio>, b: Seq<Ratio>) -> Ratio
    decreases a.len(),
{
    if a.len() == 0 {
        rzero()
    } else {
        radd(rdot(a.drop_last(), b.drop_last()), rmul(a.last(), b.last()))
    }
}

pub proof fn lemma_rdot_wf(a: Seq<Ratio>, b: Seq<Ratio>)
    requires
        seq_wf(a),
        seq_wf(b),
        a.len() == b.len(),
    ensures
        rat_wf(rdot(a, b)),
    decreases a.len(),
{
    if a.len() == 0 {
    } else {
        assert(seq_wf(a.drop_last()));
        assert(seq_wf(b.drop_last()));
        lemma_rdot_wf(a.drop_last(), b.drop_last());
        lemma_radd_wf(a.last(), b.last());
        lemma_radd_wf(rdot(a.drop_last(), b.drop_last()), rmul(a.last(), b.last()));
    }
}

/// The inner product respects pointwise rational equality.
pub proof fn lemma_rdot_congruence(a: Seq<Ratio>, a2: Seq<Ratio>, b: Seq<Ratio>, b2: Seq<Ratio>)
    requires
        seq_wf(a),
        seq_wf(a2),
        seq_wf(b),
        seq_wf(b2),
        a.len() == a2.len(),
        a.len() == b.len(),
        a.len() == b2.len(),
        forall|i: int| 0 <= i < a.len() ==> rat_eq(#[trigger] a[i], a2[i]),
        forall|i: int| 0 <= i < a.len() ==> rat_eq(#[trigger] b[i], b2[i]),
    ensures
        rat_eq(rdot(a, b), rdot(a2, b2)),
    decreases a.len(),
{
    if a.len() == 0 {
    } else {
        assert(seq_wf(a.drop_last()));
        assert(seq_wf(a2.drop_last()));
        assert(seq_wf(b.drop_last()));
        assert(seq_wf(b2.drop_last()));
        lemma_rdot_congruence(a.drop_last(), a2.drop_last(), b.drop_last(), b2.drop_last());
        lemma_rmul_congruence(a.last(), a2.last(), b.last(), b2.last());
        lemma_rdot_wf(a.drop_last(), b.drop_last());
        lemma_rdot_wf(a2.drop_last(), b2.drop_last());
        crate::rat::lemma_radd_wf(a.last(), b.last());
        crate::rat::lemma_radd_wf(a2.last(), b2.last());
        lemma_radd_congruence(
            rdot(a.drop_last(), b.drop_last()),
            rdot(a2.drop_last(), b2.drop_last()),
            rmul(a.last(), b.last()),
            rmul(a2.last(), b2.last()),
        );
    }
}

/// One accumulation step: if the accumulator tracks a partial sum and the
/// addend tracks its specification value, the checked sum tracks the extended
/// partial sum.
pub proof fn lemma_acc_step(accv: Ratio, sumv: Ratio, addv: Ratio, specadd: Ratio, newv: Ratio)
    requires
        rat_wf(accv),
        rat_wf(sumv),
        rat_wf(addv),
        rat_wf(specadd),
        rat_wf(newv),
        rat_eq(accv, sumv),
        rat_eq(addv, specadd),
        rat_eq(newv, radd(accv, addv)),
    ensures
        rat_eq(newv, radd(sumv, specadd)),
{
    lemma_radd_congruence(accv, sumv, addv, specadd);
    lemma_radd_wf(accv, addv);
    lemma_radd_wf(sumv, specadd);
    lemma_rat_eq_trans(newv, radd(accv, addv), radd(sumv, specadd));
}

// ------------------------------------------------------------------
// Executable vector operations
// ------------------------------------------------------------------

/// An exact copy of a vector of scalars.
pub fn vec_copy(v: &Vec<Rat>) -> (r: Vec<Rat>)
    ensures
        r@ == v@,
{
    let mut r: Vec<Rat> = Vec::new();
    let n: usize = v.len();
    let mut i: usize = 0;
    while i < n
        invariant
            i <= n,
            n == v@.len(),
            r@ == v@.take(i as int),
        decreases n - i,
    {
        r.push(v[i]);
        proof {
            assert(r@ =~= v@.take(i + 1 as int));
        }
        i += 1;
    }
    proof {
        assert(v@.take(n as int) =~= v@);
    }
    r
}

/// A vector of zeros.
pub fn vec_zeros(n: usize) -> (r: Vec<Rat>)
    ensures
        r@.len() == n,
        vec_wf(r@),
        forall|k: int| 0 <= k < n ==> r@[k]@ == rzero(),
{
    let mut r: Vec<Rat> = Vec::new();
    let mut i: usize = 0;
    while i < n
        invariant
            i <= n,
            r@.len() == i,
            vec_wf(r@),
            forall|k: int| 0 <= k < i ==> r@[k]@ == rzero(),
        decreases n - i,
    {
        r.push(Rat::zero());
        i += 1;
    }
    r
}

/// Exact elementwise sum.
pub fn vec_add(a: &Vec<Rat>, b: &Vec<Rat>) -> (r: Option<Vec<Rat>>)
    requires
        vec_wf(a@),
        vec_wf(b@),
        a@.len() == b@.len(),
    ensures
        r matches Some(v) ==> {
            &&& v@.len() == a@.len()
            &&& vec_wf(v@)
            &&& forall|k: int| 0 <= k < a@.len() ==> rat_eq(v@[k]@, radd(a@[k]@, b@[k]@))
        },
{
    let n: usize = a.len();
    let mut r: Vec<Rat> = Vec::new();
    let mut i: usize = 0;
    while i < n
        invariant
            i <= n,
            n == a@.len() == b@.len(),
            vec_wf(a@),
            vec_wf(b@),
            r@.len() == i,
            vec_wf(r@),
            forall|k: int| 0 <= k < i ==> rat_eq(r@[k]@, radd(a@[k]@, b@[k]@)),
        decreases n - i,
    {
        match a[i].add(&b[i]) {
            Some(s) => {
                r.push(s);
            },
            None => {
                return None;
            },
        }
        i += 1;
    }
    Some(r)
}

/// Exact elementwise difference.
pub fn vec_sub(a: &Vec<Rat>, b: &Vec<Rat>) -> (r: Option<Vec<Rat>>)
    requires
        vec_wf(a@),
        vec_wf(b@),
        a@.len() == b@.len(),
    ensures
        r matches Some(v) ==> {
            &&& v@.len() == a@.len()
            &&& vec_wf(v@)
            &&& forall|k: int| 0 <= k < a@.len() ==> rat_eq(v@[k]@, rsub(a@[k]@, b@[k]@))
        },
{
    let n: usize = a.len();
    let mut r: Vec<Rat> = Vec::new();
    let mut i: usize = 0;
    while i < n
        invariant
            i <= n,
            n == a@.len() == b@.len(),
            vec_wf(a@),
            vec_wf(b@),
            r@.len() == i,
            vec_wf(r@),
            forall|k: int| 0 <= k < i ==> rat_eq(r@[k]@, rsub(a@[k]@, b@[k]@)),
        decreases n - i,
    {
        match a[i].sub(&b[i]) {
            Some(s) => {
                r.push(s);
            },
            None => {
                return None;
            },
        }
        i += 1;
    }
    Some(r)
}

/// Exact scaling of a vector by a scalar.
pub fn vec_scale(k: &Rat, v: &Vec<Rat>) -> (r: Option<Vec<Rat>>)
    requires
        k.wf(),
        vec_wf(v@),
    ensures
        r matches Some(w) ==> {
            &&& w@.len() == v@.len()
            &&& vec_wf(w@)
            &&& forall|j: int| 0 <= j < v@.len() ==> rat_eq(w@[j]@, rmul(k@, v@[j]@))
        },
{
    let n: usize = v.len();
    let mut r: Vec<Rat> = Vec::new();
    let mut i: usize = 0;
    while i < n
        invariant
            i <= n,
            n == v@.len(),
            k.wf(),
            vec_wf(v@),
            r@.len() == i,
            vec_wf(r@),
            forall|j: int| 0 <= j < i ==> rat_eq(r@[j]@, rmul(k@, v@[j]@)),
        decreases n - i,
    {
        match k.mul(&v[i]) {
            Some(s) => {
                r.push(s);
            },
            None => {
                return None;
            },
        }
        i += 1;
    }
    Some(r)
}

/// Exact elementwise negation.
pub fn vec_neg(v: &Vec<Rat>) -> (r: Option<Vec<Rat>>)
    requires
        vec_wf(v@),
    ensures
        r matches Some(w) ==> {
            &&& w@.len() == v@.len()
            &&& vec_wf(w@)
            &&& forall|j: int| 0 <= j < v@.len() ==> rat_eq(w@[j]@, rneg(v@[j]@))
        },
{
    let n: usize = v.len();
    let mut r: Vec<Rat> = Vec::new();
    let mut i: usize = 0;
    while i < n
        invariant
            i <= n,
            n == v@.len(),
            vec_wf(v@),
            r@.len() == i,
            vec_wf(r@),
            forall|j: int| 0 <= j < i ==> rat_eq(r@[j]@, rneg(v@[j]@)),
        decreases n - i,
    {
        match v[i].neg() {
            Some(s) => {
                r.push(s);
            },
            None => {
                return None;
            },
        }
        i += 1;
    }
    Some(r)
}

/// Exact inner product of two equally long vectors.
pub fn dot(a: &Vec<Rat>, b: &Vec<Rat>) -> (r: Option<Rat>)
    requires
        vec_wf(a@),
        vec_wf(b@),
        a@.len() == b@.len(),
    ensures
        r matches Some(v) ==> v.wf() && rat_eq(v@, rdot(rats(a@), rats(b@))),
{
    let n: usize = a.len();
    let mut acc: Rat = Rat::zero();
    let mut i: usize = 0;
    while i < n
        invariant
            i <= n,
            n == a@.len() == b@.len(),
            vec_wf(a@),
            vec_wf(b@),
            acc.wf(),
            rat_eq(acc@, rdot(rats(a@).take(i as int), rats(b@).take(i as int))),
        decreases n - i,
    {
        let p: Rat = match a[i].mul(&b[i]) {
            Some(p) => p,
            None => {
                return None;
            },
        };
        let s: Rat = match acc.add(&p) {
            Some(s) => s,
            None => {
                return None;
            },
        };
        proof {
            let ra = rats(a@);
            let rb = rats(b@);
            assert(ra.take(i + 1 as int).drop_last() =~= ra.take(i as int));
            assert(rb.take(i + 1 as int).drop_last() =~= rb.take(i as int));
            assert(seq_wf(ra.take(i as int)));
            assert(seq_wf(rb.take(i as int)));
            lemma_rdot_wf(ra.take(i as int), rb.take(i as int));
            lemma_radd_wf(ra[i as int], rb[i as int]);
            lemma_acc_step(
                acc@,
                rdot(ra.take(i as int), rb.take(i as int)),
                p@,
                rmul(ra[i as int], rb[i as int]),
                s@,
            );
        }
        acc = s;
        i += 1;
    }
    proof {
        assert(rats(a@).take(n as int) =~= rats(a@));
        assert(rats(b@).take(n as int) =~= rats(b@));
    }
    Some(acc)
}

/// A copy of the slice `v[i0 .. i0 + n]`.
pub fn subvec(v: &Vec<Rat>, i0: usize, n: usize) -> (r: Vec<Rat>)
    requires
        i0 + n <= v@.len(),
    ensures
        r@.len() == n,
        forall|k: int| 0 <= k < n ==> r@[k] == v@[i0 + k],
{
    let nv: usize = v.len();
    let mut r: Vec<Rat> = Vec::new();
    let mut i: usize = 0;
    while i < n
        invariant
            i <= n,
            nv == v@.len(),
            i0 + n <= nv,
            r@.len() == i,
            forall|k: int| 0 <= k < i ==> r@[k] == v@[i0 + k],
        decreases n - i,
    {
        r.push(v[i0 + i]);
        i += 1;
    }
    r
}

/// `e` is the quadratic form `dv' * m * dv`, witnessed by the intermediate
/// product `wv = m * dv`.
pub open spec fn quad_rel(e: Ratio, m: Mat, dv: Seq<Rat>, wv: Seq<Rat>) -> bool {
    &&& wv.len() == m.rows
    &&& dv.len() == m.cols
    &&& vec_wf(wv)
    &&& forall|i: int| 0 <= i < m.rows ==> rat_eq(#[trigger] wv[i]@, rdot(rowv(m, i), rats(dv)))
    &&& rat_eq(e, rdot(rats(dv), rats(wv)))
}

// ------------------------------------------------------------------
// Matrices
// ------------------------------------------------------------------

/// A dense matrix of exact rational scalars, stored row-major.
pub struct Mat {
    pub rows: usize,
    pub cols: usize,
    pub m: Vec<Vec<Rat>>,
}

/// Kronecker delta as a rational: one on the diagonal, zero elsewhere.
pub open spec fn kron(i: int, j: int) -> Ratio {
    if i == j {
        rone()
    } else {
        rzero()
    }
}

impl Mat {
    /// Well-formed: the row count and all row lengths match the stated
    /// dimensions and every entry has a positive denominator.
    pub open spec fn wf(self) -> bool {
        &&& self.m@.len() == self.rows
        &&& forall|i: int| 0 <= i < self.rows ==> (#[trigger] self.m@[i])@.len() == self.cols
        &&& forall|i: int, j: int|
            0 <= i < self.rows && 0 <= j < self.cols ==> (#[trigger] self.m@[i]@[j]).wf()
    }

    /// The specification-level entry at row `i`, column `j`.
    pub open spec fn at(self, i: int, j: int) -> Ratio {
        self.m@[i]@[j]@
    }

    /// Read one entry.
    pub fn get(&self, i: usize, j: usize) -> (r: Rat)
        requires
            self.wf(),
            i < self.rows,
            j < self.cols,
        ensures
            r.wf(),
            r@ == self.at(i as int, j as int),
    {
        self.m[i][j]
    }

    /// Write one entry.
    pub fn put(&mut self, i: usize, j: usize, v: Rat)
        requires
            old(self).wf(),
            i < old(self).rows,
            j < old(self).cols,
            v.wf(),
        ensures
            final(self).wf(),
            final(self).rows == old(self).rows,
            final(self).cols == old(self).cols,
            final(self).at(i as int, j as int) == v@,
            forall|p: int, q: int|
                0 <= p < old(self).rows && 0 <= q < old(self).cols && !(p == i && q == j)
                    ==> final(self).at(p, q) == old(self).at(p, q),
    {
        self.m[i][j] = v;
    }
}

/// The specification-level row `i` of a matrix.
pub open spec fn rowv(m: Mat, i: int) -> Seq<Ratio> {
    rats(m.m@[i]@)
}

/// The specification-level column `j` of a matrix.
pub open spec fn colv(m: Mat, j: int) -> Seq<Ratio> {
    Seq::new(m.m@.len() as nat, |i: int| m.at(i, j))
}

/// Symmetry up to rational equality.
pub open spec fn sym(m: Mat) -> bool {
    m.rows == m.cols && forall|i: int, j: int|
        0 <= i < m.rows && 0 <= j < m.rows ==> rat_eq(#[trigger] m.at(i, j), m.at(j, i))
}

/// The all-zero matrix.
pub fn mat_zeros(rows: usize, cols: usize) -> (r: Mat)
    ensures
        r.wf(),
        r.rows == rows,
        r.cols == cols,
        forall|i: int, j: int| 0 <= i < rows && 0 <= j < cols ==> r.at(i, j) == rzero(),
{
    let mut m: Vec<Vec<Rat>> = Vec::new();
    let mut i: usize = 0;
    while i < rows
        invariant
            i <= rows,
            m@.len() == i,
            forall|p: int| 0 <= p < i ==> (#[trigger] m@[p])@.len() == cols,
            forall|p: int, q: int| 0 <= p < i && 0 <= q < cols ==> (#[trigger] m@[p]@[q]).wf(),
            forall|p: int, q: int| 0 <= p < i && 0 <= q < cols ==> (#[trigger] m@[p]@[q])@ == rzero(),
        decreases rows - i,
    {
        m.push(vec_zeros(cols));
        i += 1;
    }
    Mat { rows, cols, m }
}

/// The identity matrix.
pub fn mat_identity(n: usize) -> (r: Mat)
    ensures
        r.wf(),
        r.rows == n,
        r.cols == n,
        forall|i: int, j: int| 0 <= i < n && 0 <= j < n ==> r.at(i, j) == kron(i, j),
{
    let mut r: Mat = mat_zeros(n, n);
    let mut i: usize = 0;
    while i < n
        invariant
            i <= n,
            r.wf(),
            r.rows == n,
            r.cols == n,
            forall|p: int, q: int|
                0 <= p < n && 0 <= q < n && (p >= i || p != q) ==> r.at(p, q) == rzero(),
            forall|p: int| 0 <= p < i ==> r.at(p, p) == rone(),
        decreases n - i,
    {
        r.put(i, i, Rat::one());
        i += 1;
    }
    r
}

/// An exact copy of a matrix.
pub fn mat_copy(a: &Mat) -> (r: Mat)
    requires
        a.wf(),
    ensures
        r.wf(),
        r.rows == a.rows,
        r.cols == a.cols,
        forall|p: int| 0 <= p < a.rows ==> (#[trigger] r.m@[p])@ == a.m@[p]@,
        forall|i: int, j: int|
            0 <= i < a.rows && 0 <= j < a.cols ==> #[trigger] r.at(i, j) == a.at(i, j),
{
    let mut m: Vec<Vec<Rat>> = Vec::new();
    let n: usize = a.m.len();
    let mut i: usize = 0;
    while i < n
        invariant
            i <= n,
            n == a.m@.len(),
            a.wf(),
            m@.len() == i,
            forall|p: int| 0 <= p < i ==> m@[p]@ == (#[trigger] a.m@[p])@,
        decreases n - i,
    {
        m.push(vec_copy(&a.m[i]));
        i += 1;
    }
    proof {
        assert forall|p: int| 0 <= p < a.rows implies (#[trigger] m@[p])@.len() == a.cols by {
            assert(m@[p]@ == a.m@[p]@);
        }
        assert forall|p: int, q: int|
            0 <= p < a.rows && 0 <= q < a.cols implies (#[trigger] m@[p]@[q]).wf() by {
            assert(m@[p]@ == a.m@[p]@);
        }
    }
    Mat { rows: a.rows, cols: a.cols, m }
}

/// Exact elementwise matrix sum.
pub fn mat_add(a: &Mat, b: &Mat) -> (r: Option<Mat>)
    requires
        a.wf(),
        b.wf(),
        a.rows == b.rows,
        a.cols == b.cols,
    ensures
        r matches Some(c) ==> {
            &&& c.wf()
            &&& c.rows == a.rows
            &&& c.cols == a.cols
            &&& forall|i: int, j: int|
                0 <= i < a.rows && 0 <= j < a.cols ==> rat_eq(
                    #[trigger] c.at(i, j),
                    radd(a.at(i, j), b.at(i, j)),
                )
        },
{
    let mut m: Vec<Vec<Rat>> = Vec::new();
    let n: usize = a.rows;
    let mut i: usize = 0;
    while i < n
        invariant
            i <= n,
            n == a.rows == b.rows,
            a.cols == b.cols,
            a.wf(),
            b.wf(),
            m@.len() == i,
            forall|p: int| 0 <= p < i ==> (#[trigger] m@[p])@.len() == a.cols,
            forall|p: int, q: int| 0 <= p < i && 0 <= q < a.cols ==> (#[trigger] m@[p]@[q]).wf(),
            forall|p: int, q: int|
                0 <= p < i && 0 <= q < a.cols ==> rat_eq(
                    (#[trigger] m@[p]@[q])@,
                    radd(a.at(p, q), b.at(p, q)),
                ),
        decreases n - i,
    {
        match vec_add(&a.m[i], &b.m[i]) {
            Some(row) => {
                m.push(row);
            },
            None => {
                return None;
            },
        }
        i += 1;
    }
    Some(Mat { rows: a.rows, cols: a.cols, m })
}

/// Exact elementwise matrix difference.
pub fn mat_sub(a: &Mat, b: &Mat) -> (r: Option<Mat>)
    requires
        a.wf(),
        b.wf(),
        a.rows == b.rows,
        a.cols == b.cols,
    ensures
        r matches Some(c) ==> {
            &&& c.wf()
            &&& c.rows == a.rows
            &&& c.cols == a.cols
            &&& forall|i: int, j: int|
                0 <= i < a.rows && 0 <= j < a.cols ==> rat_eq(
                    #[trigger] c.at(i, j),
                    rsub(a.at(i, j), b.at(i, j)),
                )
        },
{
    let mut m: Vec<Vec<Rat>> = Vec::new();
    let n: usize = a.rows;
    let mut i: usize = 0;
    while i < n
        invariant
            i <= n,
            n == a.rows == b.rows,
            a.cols == b.cols,
            a.wf(),
            b.wf(),
            m@.len() == i,
            forall|p: int| 0 <= p < i ==> (#[trigger] m@[p])@.len() == a.cols,
            forall|p: int, q: int| 0 <= p < i && 0 <= q < a.cols ==> (#[trigger] m@[p]@[q]).wf(),
            forall|p: int, q: int|
                0 <= p < i && 0 <= q < a.cols ==> rat_eq(
                    (#[trigger] m@[p]@[q])@,
                    rsub(a.at(p, q), b.at(p, q)),
                ),
        decreases n - i,
    {
        match vec_sub(&a.m[i], &b.m[i]) {
            Some(row) => {
                m.push(row);
            },
            None => {
                return None;
            },
        }
        i += 1;
    }
    Some(Mat { rows: a.rows, cols: a.cols, m })
}

/// Exact scaling of every entry by a scalar.
pub fn mat_scale(k: &Rat, a: &Mat) -> (r: Option<Mat>)
    requires
        k.wf(),
        a.wf(),
    ensures
        r matches Some(c) ==> {
            &&& c.wf()
            &&& c.rows == a.rows
            &&& c.cols == a.cols
            &&& forall|i: int, j: int|
                0 <= i < a.rows && 0 <= j < a.cols ==> rat_eq(
                    #[trigger] c.at(i, j),
                    rmul(k@, a.at(i, j)),
                )
        },
{
    let mut m: Vec<Vec<Rat>> = Vec::new();
    let n: usize = a.rows;
    let mut i: usize = 0;
    while i < n
        invariant
            i <= n,
            n == a.rows,
            k.wf(),
            a.wf(),
            m@.len() == i,
            forall|p: int| 0 <= p < i ==> (#[trigger] m@[p])@.len() == a.cols,
            forall|p: int, q: int| 0 <= p < i && 0 <= q < a.cols ==> (#[trigger] m@[p]@[q]).wf(),
            forall|p: int, q: int|
                0 <= p < i && 0 <= q < a.cols ==> rat_eq(
                    (#[trigger] m@[p]@[q])@,
                    rmul(k@, a.at(p, q)),
                ),
        decreases n - i,
    {
        match vec_scale(k, &a.m[i]) {
            Some(row) => {
                m.push(row);
            },
            None => {
                return None;
            },
        }
        i += 1;
    }
    Some(Mat { rows: a.rows, cols: a.cols, m })
}

/// The transpose.
pub fn transpose(a: &Mat) -> (r: Mat)
    requires
        a.wf(),
    ensures
        r.wf(),
        r.rows == a.cols,
        r.cols == a.rows,
        forall|i: int, j: int|
            0 <= i < a.cols && 0 <= j < a.rows ==> #[trigger] r.at(i, j) == a.at(j, i),
{
    let mut m: Vec<Vec<Rat>> = Vec::new();
    let mut i: usize = 0;
    while i < a.cols
        invariant
            i <= a.cols,
            a.wf(),
            m@.len() == i,
            forall|p: int| 0 <= p < i ==> (#[trigger] m@[p])@.len() == a.rows,
            forall|p: int, q: int| 0 <= p < i && 0 <= q < a.rows ==> (#[trigger] m@[p]@[q]).wf(),
            forall|p: int, q: int|
                0 <= p < i && 0 <= q < a.rows ==> (#[trigger] m@[p]@[q])@ == a.at(q, p),
        decreases a.cols - i,
    {
        let mut row: Vec<Rat> = Vec::new();
        let mut j: usize = 0;
        while j < a.rows
            invariant
                j <= a.rows,
                i < a.cols,
                a.wf(),
                row@.len() == j,
                forall|q: int| 0 <= q < j ==> (#[trigger] row@[q]).wf(),
                forall|q: int| 0 <= q < j ==> (#[trigger] row@[q])@ == a.at(q, i as int),
            decreases a.rows - j,
        {
            row.push(a.get(j, i));
            j += 1;
        }
        m.push(row);
        i += 1;
    }
    Mat { rows: a.cols, cols: a.rows, m }
}

/// Exact matrix product.
pub fn matmul(a: &Mat, b: &Mat) -> (r: Option<Mat>)
    requires
        a.wf(),
        b.wf(),
        a.cols == b.rows,
    ensures
        r matches Some(c) ==> {
            &&& c.wf()
            &&& c.rows == a.rows
            &&& c.cols == b.cols
            &&& forall|i: int, j: int|
                0 <= i < a.rows && 0 <= j < b.cols ==> rat_eq(
                    #[trigger] c.at(i, j),
                    rdot(rowv(*a, i), colv(*b, j)),
                )
        },
{
    let mut m: Vec<Vec<Rat>> = Vec::new();
    let mut i: usize = 0;
    while i < a.rows
        invariant
            i <= a.rows,
            a.wf(),
            b.wf(),
            a.cols == b.rows,
            m@.len() == i,
            forall|p: int| 0 <= p < i ==> (#[trigger] m@[p])@.len() == b.cols,
            forall|p: int, q: int| 0 <= p < i && 0 <= q < b.cols ==> (#[trigger] m@[p]@[q]).wf(),
            forall|p: int, q: int|
                0 <= p < i && 0 <= q < b.cols ==> rat_eq(
                    (#[trigger] m@[p]@[q])@,
                    rdot(rowv(*a, p), colv(*b, q)),
                ),
        decreases a.rows - i,
    {
        let mut row: Vec<Rat> = Vec::new();
        let mut j: usize = 0;
        while j < b.cols
            invariant
                j <= b.cols,
                i < a.rows,
                a.wf(),
                b.wf(),
                a.cols == b.rows,
                row@.len() == j,
                forall|q: int| 0 <= q < j ==> (#[trigger] row@[q]).wf(),
                forall|q: int|
                    0 <= q < j ==> rat_eq((#[trigger] row@[q])@, rdot(rowv(*a, i as int), colv(*b, q))),
            decreases b.cols - j,
        {
            let mut acc: Rat = Rat::zero();
            let mut k: usize = 0;
            while k < a.cols
                invariant
                    k <= a.cols,
                    i < a.rows,
                    j < b.cols,
                    a.wf(),
                    b.wf(),
                    a.cols == b.rows,
                    acc.wf(),
                    rat_eq(
                        acc@,
                        rdot(
                            rowv(*a, i as int).take(k as int),
                            colv(*b, j as int).take(k as int),
                        ),
                    ),
                decreases a.cols - k,
            {
                let p: Rat = match a.get(i, k).mul(&b.get(k, j)) {
                    Some(p) => p,
                    None => {
                        return None;
                    },
                };
                let s: Rat = match acc.add(&p) {
                    Some(s) => s,
                    None => {
                        return None;
                    },
                };
                proof {
                    let ra = rowv(*a, i as int);
                    let rb = colv(*b, j as int);
                    assert(ra.len() == a.cols && rb.len() == b.rows);
                    assert(ra.take(k + 1 as int).drop_last() =~= ra.take(k as int));
                    assert(rb.take(k + 1 as int).drop_last() =~= rb.take(k as int));
                    assert(ra[k as int] == a.at(i as int, k as int));
                    assert(rb[k as int] == b.at(k as int, j as int));
                    assert(seq_wf(ra.take(k as int))) by {
                        assert(forall|t: int|
                            0 <= t < k ==> #[trigger] ra.take(k as int)[t] == a.at(i as int, t));
                    }
                    assert(seq_wf(rb.take(k as int))) by {
                        assert(forall|t: int|
                            0 <= t < k ==> #[trigger] rb.take(k as int)[t] == b.at(t, j as int));
                    }
                    lemma_rdot_wf(ra.take(k as int), rb.take(k as int));
                    lemma_radd_wf(ra[k as int], rb[k as int]);
                    lemma_acc_step(
                        acc@,
                        rdot(ra.take(k as int), rb.take(k as int)),
                        p@,
                        rmul(ra[k as int], rb[k as int]),
                        s@,
                    );
                }
                acc = s;
                k += 1;
            }
            proof {
                assert(rowv(*a, i as int).take(a.cols as int) =~= rowv(*a, i as int));
                assert(colv(*b, j as int).take(a.cols as int) =~= colv(*b, j as int));
            }
            row.push(acc);
            j += 1;
        }
        m.push(row);
        i += 1;
    }
    Some(Mat { rows: a.rows, cols: b.cols, m })
}

/// Exact matrix-vector product.
pub fn matvec(a: &Mat, v: &Vec<Rat>) -> (r: Option<Vec<Rat>>)
    requires
        a.wf(),
        vec_wf(v@),
        v@.len() == a.cols,
    ensures
        r matches Some(w) ==> {
            &&& w@.len() == a.rows
            &&& vec_wf(w@)
            &&& forall|i: int|
                0 <= i < a.rows ==> rat_eq(w@[i]@, rdot(rowv(*a, i), rats(v@)))
        },
{
    let mut r: Vec<Rat> = Vec::new();
    let mut i: usize = 0;
    while i < a.rows
        invariant
            i <= a.rows,
            a.wf(),
            vec_wf(v@),
            v@.len() == a.cols,
            r@.len() == i,
            vec_wf(r@),
            forall|p: int| 0 <= p < i ==> rat_eq((#[trigger] r@[p])@, rdot(rowv(*a, p), rats(v@))),
        decreases a.rows - i,
    {
        proof {
            assert(vec_wf(a.m@[i as int]@));
        }
        match dot(&a.m[i], v) {
            Some(s) => {
                r.push(s);
            },
            None => {
                return None;
            },
        }
        i += 1;
    }
    Some(r)
}

/// A copy of the block of size `nr` x `nc` whose top-left corner is `(i0, j0)`.
pub fn submat(a: &Mat, i0: usize, j0: usize, nr: usize, nc: usize) -> (r: Mat)
    requires
        a.wf(),
        i0 + nr <= a.rows,
        j0 + nc <= a.cols,
    ensures
        r.wf(),
        r.rows == nr,
        r.cols == nc,
        forall|i: int, j: int|
            0 <= i < nr && 0 <= j < nc ==> #[trigger] r.at(i, j) == a.at(i0 + i, j0 + j),
{
    let mut m: Vec<Vec<Rat>> = Vec::new();
    let mut i: usize = 0;
    while i < nr
        invariant
            i <= nr,
            a.wf(),
            i0 + nr <= a.rows,
            j0 + nc <= a.cols,
            m@.len() == i,
            forall|p: int| 0 <= p < i ==> (#[trigger] m@[p])@.len() == nc,
            forall|p: int, q: int| 0 <= p < i && 0 <= q < nc ==> (#[trigger] m@[p]@[q]).wf(),
            forall|p: int, q: int|
                0 <= p < i && 0 <= q < nc ==> (#[trigger] m@[p]@[q])@ == a.at(i0 + p, j0 + q),
        decreases nr - i,
    {
        let mut row: Vec<Rat> = Vec::new();
        let mut j: usize = 0;
        while j < nc
            invariant
                j <= nc,
                i < nr,
                a.wf(),
                i0 + nr <= a.rows,
                j0 + nc <= a.cols,
                row@.len() == j,
                forall|q: int| 0 <= q < j ==> (#[trigger] row@[q]).wf(),
                forall|q: int| 0 <= q < j ==> (#[trigger] row@[q])@ == a.at(i0 + i, j0 + q),
            decreases nc - j,
        {
            row.push(a.get(i0 + i, j0 + j));
            j += 1;
        }
        m.push(row);
        i += 1;
    }
    Mat { rows: nr, cols: nc, m }
}

/// Decide symmetry exactly; `None` only when a comparison overflows.
pub fn sym_check(m: &Mat) -> (r: Option<bool>)
    requires
        m.wf(),
        m.rows == m.cols,
    ensures
        r matches Some(v) ==> (v <==> sym(*m)),
{
    let n: usize = m.rows;
    let mut i: usize = 0;
    while i < n
        invariant
            i <= n,
            m.wf(),
            n == m.rows == m.cols,
            forall|p: int, q: int|
                0 <= p < i && 0 <= q < n ==> rat_eq(#[trigger] m.at(p, q), m.at(q, p)),
        decreases n - i,
    {
        let mut j: usize = 0;
        while j < n
            invariant
                j <= n,
                i < n,
                m.wf(),
                n == m.rows == m.cols,
                forall|p: int, q: int|
                    0 <= p < i && 0 <= q < n ==> rat_eq(#[trigger] m.at(p, q), m.at(q, p)),
                forall|q: int| 0 <= q < j ==> rat_eq(#[trigger] m.at(i as int, q), m.at(q, i as int)),
            decreases n - j,
        {
            match m.get(i, j).eq_rat(&m.get(j, i)) {
                Some(true) => {},
                Some(false) => {
                    proof {
                        assert(!rat_eq(m.at(i as int, j as int), m.at(j as int, i as int)));
                    }
                    return Some(false);
                },
                None => {
                    return None;
                },
            }
            j += 1;
        }
        i += 1;
    }
    Some(true)
}

/// `x` certifies that `a` is singular: a nonzero vector that `a` maps to
/// zero.
pub open spec fn singular_witness(a: Mat, x: Vec<Rat>) -> bool {
    &&& vec_wf(x@)
    &&& x@.len() == a.rows
    &&& exists|k: int| 0 <= k < x@.len() && !rat_eq(#[trigger] x@[k]@, rzero())
    &&& forall|i: int|
        0 <= i < a.rows ==> rat_eq(#[trigger] rdot(rowv(a, i), rats(x@)), rzero())
}

/// The matrix has a nonzero kernel vector: it is exactly not invertible.
pub open spec fn is_singular(a: Mat) -> bool {
    exists|x: Vec<Rat>| #[trigger] singular_witness(a, x)
}

/// Shape invariant of an elimination tableau: `n` rows of width `w`, all
/// entries well formed.
pub open spec fn tableau_wf(t: Seq<Vec<Rat>>, n: int, w: int) -> bool {
    &&& t.len() == n
    &&& forall|i: int| 0 <= i < n ==> (#[trigger] t[i])@.len() == w
    &&& forall|i: int, j: int| 0 <= i < n && 0 <= j < w ==> (#[trigger] t[i]@[j]).wf()
}

/// Gauss-Jordan elimination on the first `n` columns of an `n` x `w` tableau.
/// Only the shape is promised; callers re-check the defining equations of
/// whatever they extract.  `Err(Some(col))` reports a column without pivot
/// (the caller certifies a kernel vector from the tableau); `Err(None)` is
/// machine-word exhaustion.
fn eliminate(aug: &mut Vec<Vec<Rat>>, n: usize, w: usize) -> (ok: Result<(), Option<usize>>)
    requires
        n <= w,
        tableau_wf(old(aug)@, n as int, w as int),
    ensures
        tableau_wf(final(aug)@, n as int, w as int),
        ok matches Err(c) ==> (c matches Some(col) ==> col < n),
{
    let mut col: usize = 0;
    while col < n
        invariant
            col <= n,
            n <= w,
            tableau_wf(aug@, n as int, w as int),
        decreases n - col,
    {
        // select a pivot row with a nonzero entry in this column
        let mut sel: usize = n;
        let mut p: usize = col;
        while p < n
            invariant
                col <= p,
                p <= n,
                sel <= n,
                n <= w,
                col < n,
                tableau_wf(aug@, n as int, w as int),
                sel < n ==> col <= sel,
            decreases n - p,
        {
            if sel == n && !aug[p][col].is_zero() {
                sel = p;
            }
            p += 1;
        }
        if sel == n {
            return Err(Some(col));
        }
        if sel != col {
            let row_a: Vec<Rat> = vec_copy(&aug[col]);
            let row_b: Vec<Rat> = vec_copy(&aug[sel]);
            aug[col] = row_b;
            aug[sel] = row_a;
        }
        // normalise the pivot row
        let piv: Rat = aug[col][col];
        let mut j: usize = 0;
        while j < w
            invariant
                j <= w,
                col < n,
                n <= w,
                piv.wf(),
                tableau_wf(aug@, n as int, w as int),
            decreases w - j,
        {
            let v: Rat = match aug[col][j].div(&piv) {
                Some(v) => v,
                None => {
                    return Err(None);
                },
            };
            aug[col][j] = v;
            j += 1;
        }
        // clear the column in all other rows
        let mut r2: usize = 0;
        while r2 < n
            invariant
                r2 <= n,
                col < n,
                n <= w,
                tableau_wf(aug@, n as int, w as int),
            decreases n - r2,
        {
            if r2 != col {
                let factor: Rat = aug[r2][col];
                if !factor.is_zero() {
                    let mut j2: usize = 0;
                    while j2 < w
                        invariant
                            j2 <= w,
                            r2 < n,
                            col < n,
                            n <= w,
                            factor.wf(),
                            tableau_wf(aug@, n as int, w as int),
                        decreases w - j2,
                    {
                        let t: Rat = aug[col][j2];
                        let prod: Rat = match factor.mul(&t) {
                            Some(v) => v,
                            None => {
                                return Err(None);
                            },
                        };
                        let v: Rat = match aug[r2][j2].sub(&prod) {
                            Some(v) => v,
                            None => {
                                return Err(None);
                            },
                        };
                        aug[r2][j2] = v;
                        j2 += 1;
                    }
                }
            }
            r2 += 1;
        }
        col += 1;
    }
    Ok(())
}

/// Certify singularity from a pivotless column of a partially reduced
/// tableau: the candidate kernel vector is re-checked exactly against the
/// original matrix, so the certificate does not rest on any property of the
/// elimination.
fn certify_singular(a: &Mat, aug: &Vec<Vec<Rat>>, col: usize, w: usize) -> (r: GbpError)
    requires
        a.wf(),
        a.rows == a.cols,
        col < a.rows,
        tableau_wf(aug@, a.rows as int, w as int),
        col < w,
    ensures
        r is Singular || r is Overflow,
        r is Singular ==> is_singular(*a),
{
    let n: usize = a.rows;
    let mut x: Vec<Rat> = Vec::new();
    let mut i: usize = 0;
    while i < n
        invariant
            i <= n,
            n == a.rows,
            col < n,
            col < w,
            tableau_wf(aug@, n as int, w as int),
            x@.len() == i,
            vec_wf(x@),
            col < i ==> x@[col as int]@ == rone(),
        decreases n - i,
    {
        if i == col {
            x.push(Rat::one());
        } else if i < col {
            match aug[i][col].neg() {
                Some(v) => {
                    x.push(v);
                },
                None => {
                    return GbpError::Overflow;
                },
            }
        } else {
            x.push(Rat::zero());
        }
        i += 1;
    }
    let y: Vec<Rat> = match matvec(a, &x) {
        Some(y) => y,
        None => {
            return GbpError::Overflow;
        },
    };
    let zero: Rat = Rat::zero();
    let mut i2: usize = 0;
    while i2 < n
        invariant
            i2 <= n,
            n == a.rows == a.cols,
            a.wf(),
            x@.len() == n,
            vec_wf(x@),
            x@[col as int]@ == rone(),
            col < n,
            zero@ == rzero(),
            y@.len() == n,
            vec_wf(y@),
            forall|i3: int| 0 <= i3 < n ==> rat_eq(y@[i3]@, rdot(rowv(*a, i3), rats(x@))),
            forall|i3: int|
                0 <= i3 < i2 ==> rat_eq(#[trigger] rdot(rowv(*a, i3), rats(x@)), rzero()),
        decreases n - i2,
    {
        match y[i2].eq_rat(&zero) {
            Some(true) => {
                proof {
                    let i3 = i2 as int;
                    assert(seq_wf(rowv(*a, i3))) by {
                        assert(forall|t: int|
                            0 <= t < a.cols ==> #[trigger] rowv(*a, i3)[t] == a.at(i3, t));
                    }
                    assert(seq_wf(rats(x@))) by {
                        assert(forall|t: int| 0 <= t < n ==> #[trigger] rats(x@)[t] == x@[t]@);
                    }
                    lemma_rdot_wf(rowv(*a, i3), rats(x@));
                    lemma_rat_eq_sym(y@[i3]@, rdot(rowv(*a, i3), rats(x@)));
                    lemma_rat_eq_trans(rdot(rowv(*a, i3), rats(x@)), y@[i3]@, zero@);
                }
            },
            _ => {
                return GbpError::Overflow;
            },
        }
        i2 += 1;
    }
    proof {
        assert(!rat_eq(x@[col as int]@, rzero()));
        assert(singular_witness(*a, x));
    }
    GbpError::Singular
}

/// Solve `a x = b` exactly.  The elimination result is re-checked at run
/// time, so an `Ok` answer provably satisfies every equation; failure is
/// either a missing pivot or machine-word exhaustion.
pub fn solve_linear(a: &Mat, b: &Vec<Rat>) -> (r: Result<Vec<Rat>, GbpError>)
    requires
        a.wf(),
        a.rows == a.cols,
        vec_wf(b@),
        b@.len() == a.rows,
    ensures
        r matches Ok(x) ==> {
            &&& x@.len() == a.rows
            &&& vec_wf(x@)
            &&& forall|i: int|
                0 <= i < a.rows ==> rat_eq(rdot(rowv(*a, i), rats(x@)), #[trigger] b@[i]@)
        },
        r matches Err(e) ==> (e is Singular || e is Overflow),
        r matches Err(e) && e is Singular ==> is_singular(*a),
{
    let n: usize = a.rows;
    if n >= usize::MAX / 2 {
        return Err(GbpError::Overflow);
    }
    let mut aug: Vec<Vec<Rat>> = Vec::new();
    let mut i: usize = 0;
    while i < n
        invariant
            i <= n,
            n < usize::MAX / 2,
            n == a.rows == a.cols,
            a.wf(),
            vec_wf(b@),
            b@.len() == n,
            tableau_wf(aug@, i as int, n + 1 as int),
        decreases n - i,
    {
        let mut row: Vec<Rat> = vec_copy(&a.m[i]);
        proof {
            assert(vec_wf(a.m@[i as int]@));
        }
        row.push(b[i]);
        aug.push(row);
        i += 1;
    }
    match eliminate(&mut aug, n, n + 1) {
        Ok(()) => {},
        Err(Some(col)) => {
            return Err(certify_singular(a, &aug, col, n + 1));
        },
        Err(None) => {
            return Err(GbpError::Overflow);
        },
    }
    let mut x: Vec<Rat> = Vec::new();
    let mut i2: usize = 0;
    while i2 < n
        invariant
            i2 <= n,
            tableau_wf(aug@, n as int, n + 1 as int),
            x@.len() == i2,
            vec_wf(x@),
        decreases n - i2,
    {
        x.push(aug[i2][n]);
        i2 += 1;
    }
    // exact run-time verification of the candidate solution
    let y: Vec<Rat> = match matvec(a, &x) {
        Some(y) => y,
        None => {
            return Err(GbpError::Overflow);
        },
    };
    let mut i3: usize = 0;
    while i3 < n
        invariant
            i3 <= n,
            n == a.rows == a.cols,
            a.wf(),
            vec_wf(b@),
            b@.len() == n,
            x@.len() == n,
            vec_wf(x@),
            y@.len() == n,
            vec_wf(y@),
            forall|i: int| 0 <= i < n ==> rat_eq(y@[i]@, rdot(rowv(*a, i), rats(x@))),
            forall|i: int| 0 <= i < i3 ==> rat_eq(rdot(rowv(*a, i), rats(x@)), #[trigger] b@[i]@),
        decreases n - i3,
    {
        match y[i3].eq_rat(&b[i3]) {
            Some(true) => {
                proof {
                    let i = i3 as int;
                    assert(seq_wf(rowv(*a, i))) by {
                        assert(forall|t: int|
                            0 <= t < a.cols ==> #[trigger] rowv(*a, i)[t] == a.at(i, t));
                    }
                    assert(seq_wf(rats(x@))) by {
                        assert(forall|t: int| 0 <= t < n ==> #[trigger] rats(x@)[t] == x@[t]@);
                    }
                    lemma_rdot_wf(rowv(*a, i), rats(x@));
                    lemma_rat_eq_sym(y@[i]@, rdot(rowv(*a, i), rats(x@)));
                    lemma_rat_eq_trans(rdot(rowv(*a, i), rats(x@)), y@[i]@, b@[i]@);
                }
            },
            _ => {
                return Err(GbpError::Overflow);
            },
        }
        i3 += 1;
    }
    Ok(x)
}

/// Invert `a` exactly.  `Ok(w)` provably satisfies `a * w == identity` and
/// `w * a == identity` (both checked at run time), so a successful inverse is
/// two-sided; failure is either a missing pivot (with a certified kernel
/// vector) or machine-word exhaustion.
pub fn inverse(a: &Mat) -> (r: Result<Mat, GbpError>)
    requires
        a.wf(),
        a.rows == a.cols,
    ensures
        r matches Ok(w) ==> {
            &&& w.wf()
            &&& w.rows == a.rows
            &&& w.cols == a.rows
            &&& forall|i: int, j: int|
                0 <= i < a.rows && 0 <= j < a.rows ==> rat_eq(
                    rdot(rowv(*a, i), colv(w, j)),
                    #[trigger] kron(i, j),
                )
            &&& forall|i: int, j: int|
                0 <= i < a.rows && 0 <= j < a.rows ==> rat_eq(
                    rdot(rowv(w, i), colv(*a, j)),
                    #[trigger] kron(j, i),
                )
        },
        r matches Err(e) ==> (e is Singular || e is Overflow),
        r matches Err(e) && e is Singular ==> is_singular(*a),
{
    let n: usize = a.rows;
    if n >= usize::MAX / 2 {
        return Err(GbpError::Overflow);
    }
    let ident: Mat = mat_identity(n);
    let mut aug: Vec<Vec<Rat>> = Vec::new();
    let mut i: usize = 0;
    while i < n
        invariant
            i <= n,
            n < usize::MAX / 2,
            n == a.rows == a.cols,
            a.wf(),
            ident.wf(),
            ident.rows == n,
            ident.cols == n,
            tableau_wf(aug@, i as int, n + n as int),
        decreases n - i,
    {
        let mut row: Vec<Rat> = vec_copy(&a.m[i]);
        proof {
            assert(vec_wf(a.m@[i as int]@));
            assert(vec_wf(ident.m@[i as int]@));
        }
        let mut extra: Vec<Rat> = vec_copy(&ident.m[i]);
        let mut j: usize = 0;
        let base: usize = row.len();
        while j < n
            invariant
                j <= n,
                base == a.cols,
                n == a.cols,
                extra@.len() == n,
                vec_wf(extra@),
                row@.len() == base + j,
                vec_wf(row@),
            decreases n - j,
        {
            row.push(extra[j]);
            j += 1;
        }
        aug.push(row);
        i += 1;
    }
    match eliminate(&mut aug, n, n + n) {
        Ok(()) => {},
        Err(Some(col)) => {
            return Err(certify_singular(a, &aug, col, n + n));
        },
        Err(None) => {
            return Err(GbpError::Overflow);
        },
    }
    // extract the right half
    let mut m: Vec<Vec<Rat>> = Vec::new();
    let mut i2: usize = 0;
    while i2 < n
        invariant
            i2 <= n,
            n < usize::MAX / 2,
            tableau_wf(aug@, n as int, n + n as int),
            m@.len() == i2,
            forall|p: int| 0 <= p < i2 ==> (#[trigger] m@[p])@.len() == n,
            forall|p: int, q: int| 0 <= p < i2 && 0 <= q < n ==> (#[trigger] m@[p]@[q]).wf(),
        decreases n - i2,
    {
        let mut row: Vec<Rat> = Vec::new();
        let mut j2: usize = 0;
        while j2 < n
            invariant
                j2 <= n,
                i2 < n,
                n < usize::MAX / 2,
                tableau_wf(aug@, n as int, n + n as int),
                row@.len() == j2,
                vec_wf(row@),
            decreases n - j2,
        {
            row.push(aug[i2][n + j2]);
            j2 += 1;
        }
        m.push(row);
        i2 += 1;
    }
    let w: Mat = Mat { rows: n, cols: n, m };
    // exact run-time verification: a * w must be the identity
    let prod: Mat = match matmul(a, &w) {
        Some(p) => p,
        None => {
            return Err(GbpError::Overflow);
        },
    };
    let mut i3: usize = 0;
    while i3 < n
        invariant
            i3 <= n,
            n == a.rows == a.cols,
            a.wf(),
            w.wf(),
            w.rows == n,
            w.cols == n,
            prod.wf(),
            prod.rows == n,
            prod.cols == n,
            forall|i: int, j: int|
                0 <= i < n && 0 <= j < n ==> rat_eq(
                    #[trigger] prod.at(i, j),
                    rdot(rowv(*a, i), colv(w, j)),
                ),
            forall|i: int, j: int|
                0 <= i < i3 && 0 <= j < n ==> rat_eq(
                    rdot(rowv(*a, i), colv(w, j)),
                    #[trigger] kron(i, j),
                ),
        decreases n - i3,
    {
        let mut j3: usize = 0;
        while j3 < n
            invariant
                j3 <= n,
                i3 < n,
                n == a.rows == a.cols,
                a.wf(),
                w.wf(),
                w.rows == n,
                w.cols == n,
                prod.wf(),
                prod.rows == n,
                prod.cols == n,
                forall|i: int, j: int|
                    0 <= i < n && 0 <= j < n ==> rat_eq(
                        #[trigger] prod.at(i, j),
                        rdot(rowv(*a, i), colv(w, j)),
                    ),
                forall|j: int|
                    0 <= j < j3 ==> rat_eq(
                        rdot(rowv(*a, i3 as int), colv(w, j)),
                        #[trigger] kron(i3 as int, j),
                    ),
            decreases n - j3,
        {
            let expect: Rat = if i3 == j3 {
                Rat::one()
            } else {
                Rat::zero()
            };
            match prod.get(i3, j3).eq_rat(&expect) {
                Some(true) => {
                    proof {
                        let i = i3 as int;
                        let j = j3 as int;
                        assert(seq_wf(rowv(*a, i))) by {
                            assert(forall|t: int|
                                0 <= t < a.cols ==> #[trigger] rowv(*a, i)[t] == a.at(i, t));
                        }
                        assert(seq_wf(colv(w, j))) by {
                            assert(forall|t: int|
                                0 <= t < n ==> #[trigger] colv(w, j)[t] == w.at(t, j));
                        }
                        lemma_rdot_wf(rowv(*a, i), colv(w, j));
                        lemma_rat_eq_sym(prod.at(i, j), rdot(rowv(*a, i), colv(w, j)));
                        lemma_rat_eq_trans(rdot(rowv(*a, i), colv(w, j)), prod.at(i, j), expect@);
                    }
                },
                _ => {
                    return Err(GbpError::Overflow);
                },
            }
            j3 += 1;
        }
        i3 += 1;
    }
    // exact run-time verification of the other side: w * a must be the
    // identity as well
    let prod2: Mat = match matmul(&w, a) {
        Some(p) => p,
        None => {
            return Err(GbpError::Overflow);
        },
    };
    let mut i4: usize = 0;
    while i4 < n
        invariant
            i4 <= n,
            n == a.rows == a.cols,
            a.wf(),
            w.wf(),
            w.rows == n,
            w.cols == n,
            prod2.wf(),
            prod2.rows == n,
            prod2.cols == n,
            forall|i: int, j: int|
                0 <= i < n && 0 <= j < n ==> rat_eq(
                    #[trigger] prod2.at(i, j),
                    rdot(rowv(w, i), colv(*a, j)),
                ),
            forall|i: int, j: int|
                0 <= i < i4 && 0 <= j < n ==> rat_eq(
                    rdot(rowv(w, i), colv(*a, j)),
                    #[trigger] kron(j, i),
                ),
        decreases n - i4,
    {
        let mut j4: usize = 0;
        while j4 < n
            invariant
                j4 <= n,
                i4 < n,
                n == a.rows == a.cols,
                a.wf(),
                w.wf(),
                w.rows == n,
                w.cols == n,
                prod2.wf(),
                prod2.rows == n,
                prod2.cols == n,
                forall|i: int, j: int|
                    0 <= i < n && 0 <= j < n ==> rat_eq(
                        #[trigger] prod2.at(i, j),
                        rdot(rowv(w, i), colv(*a, j)),
                    ),
                forall|j: int|
                    0 <= j < j4 ==> rat_eq(
                        rdot(rowv(w, i4 as int), colv(*a, j)),
                        #[trigger] kron(j, i4 as int),
                    ),
            decreases n - j4,
        {
            let expect: Rat = if i4 == j4 {
                Rat::one()
            } else {
                Rat::zero()
            };
            match prod2.get(i4, j4).eq_rat(&expect) {
                Some(true) => {
                    proof {
                        let i = i4 as int;
                        let j = j4 as int;
                        assert(seq_wf(rowv(w, i))) by {
                            assert(forall|t: int|
                                0 <= t < w.cols ==> #[trigger] rowv(w, i)[t] == w.at(i, t));
                        }
                        assert(seq_wf(colv(*a, j))) by {
                            assert(forall|t: int|
                                0 <= t < n ==> #[trigger] colv(*a, j)[t] == a.at(t, j));
                        }
                        lemma_rdot_wf(rowv(w, i), colv(*a, j));
                        lemma_rat_eq_sym(prod2.at(i, j), rdot(rowv(w, i), colv(*a, j)));
                        lemma_rat_eq_trans(rdot(rowv(w, i), colv(*a, j)), prod2.at(i, j), expect@);
                    }
                },
                _ => {
                    return Err(GbpError::Overflow);
                },
            }
            j4 += 1;
        }
        i4 += 1;
    }
    Ok(w)
}
} // verus!
