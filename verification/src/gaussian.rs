//! Multivariate Gaussians in information form.
//!
//! A Gaussian of dimension `d` is the pair of an information vector `eta` of
//! length `d` and a symmetric precision matrix `lam` of size `d` x `d`.
//! Addition of information forms is the Gaussian product, which is why zero
//! messages are the identity for belief aggregation.

use crate::linalg::{
    dot, inverse, kron, mat_add, mat_scale, mat_zeros, rats, rowv, matvec, solve_linear, sym,
    sym_check, vec_add, vec_copy, vec_scale, vec_wf, vec_zeros, Mat,
};
use crate::rat::{
    lemma_radd_congruence, lemma_radd_wf, lemma_rat_eq_sym, lemma_rat_eq_trans,
    lemma_rmul_congruence, radd, rat_eq, rat_wf, rmul, rone, rsub, rzero, Rat, Ratio,
};
use crate::GbpError;
use vstd::prelude::*;

verus! {

/// A multivariate normal in information form.
pub struct Gaussian {
    /// The information vector, eta = lam * mean.
    pub eta: Vec<Rat>,
    /// The precision matrix (inverse covariance).
    pub lam: Mat,
}

/// `x` satisfies the defining equations of the mean of `g`: `lam * x == eta`.
pub open spec fn solves(g: Gaussian, x: Seq<Ratio>) -> bool {
    &&& x.len() == g.dim()
    &&& forall|i: int| 0 <= i < g.dim() ==> rat_eq(rdot_row(g, i, x), #[trigger] g.eta@[i]@)
}

/// The inner product of row `i` of the precision of `g` with `x`.
pub open spec fn rdot_row(g: Gaussian, i: int, x: Seq<Ratio>) -> Ratio {
    crate::linalg::rdot(rowv(g.lam, i), x)
}

/// Two Gaussians hold exactly the same values: equal information vectors and
/// entrywise equal precision matrices (an exact copy, independent of the
/// containing struct).
pub open spec fn gaussian_value_eq(a: Gaussian, b: Gaussian) -> bool {
    &&& a.dim() == b.dim()
    &&& a.eta@ == b.eta@
    &&& a.lam.rows == b.lam.rows
    &&& a.lam.cols == b.lam.cols
    &&& forall|i: int, j: int|
        0 <= i < a.lam.rows && 0 <= j < a.lam.cols ==> #[trigger] a.lam.at(i, j) == b.lam.at(i, j)
}

/// Symmetry is preserved by entrywise addition.
proof fn lemma_sym_add(a: Mat, b: Mat, c: Mat)
    requires
        a.wf(),
        b.wf(),
        c.wf(),
        sym(a),
        sym(b),
        a.rows == b.rows == c.rows,
        a.cols == b.cols == c.cols,
        a.rows == a.cols,
        forall|i: int, j: int|
            0 <= i < a.rows && 0 <= j < a.cols ==> rat_eq(
                #[trigger] c.at(i, j),
                radd(a.at(i, j), b.at(i, j)),
            ),
    ensures
        sym(c),
{
    assert forall|i: int, j: int|
        0 <= i < c.rows && 0 <= j < c.rows implies rat_eq(#[trigger] c.at(i, j), c.at(j, i)) by {
        lemma_radd_congruence(a.at(i, j), a.at(j, i), b.at(i, j), b.at(j, i));
        lemma_radd_wf(a.at(i, j), b.at(i, j));
        lemma_radd_wf(a.at(j, i), b.at(j, i));
        lemma_rat_eq_trans(c.at(i, j), radd(a.at(i, j), b.at(i, j)), radd(a.at(j, i), b.at(j, i)));
        lemma_rat_eq_sym(c.at(j, i), radd(a.at(j, i), b.at(j, i)));
        lemma_rat_eq_trans(c.at(i, j), radd(a.at(j, i), b.at(j, i)), c.at(j, i));
    }
}

/// Symmetry is preserved by scaling.
proof fn lemma_sym_scale(k: Ratio, a: Mat, c: Mat)
    requires
        rat_wf(k),
        a.wf(),
        c.wf(),
        sym(a),
        a.rows == c.rows,
        a.cols == c.cols,
        a.rows == a.cols,
        forall|i: int, j: int|
            0 <= i < a.rows && 0 <= j < a.cols ==> rat_eq(
                #[trigger] c.at(i, j),
                rmul(k, a.at(i, j)),
            ),
    ensures
        sym(c),
{
    assert forall|i: int, j: int|
        0 <= i < c.rows && 0 <= j < c.rows implies rat_eq(#[trigger] c.at(i, j), c.at(j, i)) by {
        lemma_rmul_congruence(k, k, a.at(i, j), a.at(j, i));
        lemma_radd_wf(k, a.at(i, j));
        lemma_radd_wf(k, a.at(j, i));
        lemma_rat_eq_trans(c.at(i, j), rmul(k, a.at(i, j)), rmul(k, a.at(j, i)));
        lemma_rat_eq_sym(c.at(j, i), rmul(k, a.at(j, i)));
        lemma_rat_eq_trans(c.at(i, j), rmul(k, a.at(j, i)), c.at(j, i));
    }
}

impl Gaussian {
    /// The dimension of the Gaussian.
    pub open spec fn dim(self) -> int {
        self.eta@.len() as int
    }

    /// Well-formed: matching dimensions, well-formed scalars, and a symmetric
    /// precision matrix.
    pub open spec fn wf(self) -> bool {
        &&& vec_wf(self.eta@)
        &&& self.lam.wf()
        &&& self.lam.rows == self.eta@.len()
        &&& self.lam.cols == self.eta@.len()
        &&& sym(self.lam)
    }

    /// The zero Gaussian of dimension `d`: eta = 0, lam = 0.  It is the
    /// identity of information-form addition.
    pub fn new(d: usize) -> (g: Gaussian)
        ensures
            g.wf(),
            g.dim() == d,
            forall|k: int| 0 <= k < d ==> g.eta@[k]@ == rzero(),
            forall|i: int, j: int| 0 <= i < d && 0 <= j < d ==> g.lam.at(i, j) == rzero(),
    {
        Gaussian { eta: vec_zeros(d), lam: mat_zeros(d, d) }
    }

    /// Build a Gaussian from its information vector and precision matrix,
    /// checking the dimensions and the symmetry of the precision exactly.
    pub fn from(eta: Vec<Rat>, lam: Mat) -> (r: Result<Gaussian, GbpError>)
        requires
            vec_wf(eta@),
            lam.wf(),
        ensures
            r matches Ok(g) ==> g.wf() && g.eta@ == eta@ && g.lam == lam,
            r matches Err(e) ==> (e is DimensionMismatch || e is Overflow),
            (lam.rows != eta@.len() || lam.cols != eta@.len()) ==> (r matches Err(e) && e
                is DimensionMismatch),
    {
        if lam.rows != eta.len() || lam.cols != eta.len() {
            return Err(GbpError::DimensionMismatch);
        }
        match sym_check(&lam) {
            Some(true) => Ok(Gaussian { eta, lam }),
            Some(false) => Err(GbpError::DimensionMismatch),
            None => Err(GbpError::Overflow),
        }
    }

    /// Build a Gaussian from a mean and a precision matrix: the information
    /// vector is the exact product `lam * mean`.
    pub fn from_mean(mean: Vec<Rat>, lam: Mat) -> (r: Result<Gaussian, GbpError>)
        requires
            vec_wf(mean@),
            lam.wf(),
        ensures
            r matches Ok(g) ==> {
                &&& g.wf()
                &&& g.lam == lam
                &&& g.dim() == mean@.len()
                &&& forall|i: int|
                    0 <= i < mean@.len() ==> rat_eq(
                        #[trigger] g.eta@[i]@,
                        crate::linalg::rdot(rowv(lam, i), rats(mean@)),
                    )
            },
            r matches Err(e) ==> (e is DimensionMismatch || e is Overflow),
            (lam.rows != mean@.len() || lam.cols != mean@.len()) ==> (r matches Err(e) && e
                is DimensionMismatch),
    {
        if lam.rows != mean.len() || lam.cols != mean.len() {
            return Err(GbpError::DimensionMismatch);
        }
        let eta: Vec<Rat> = match matvec(&lam, &mean) {
            Some(v) => v,
            None => {
                return Err(GbpError::Overflow);
            },
        };
        Gaussian::from(eta, lam)
    }

    /// An exact copy.
    pub fn copy(&self) -> (g: Gaussian)
        requires
            self.wf(),
        ensures
            g.wf(),
            g.dim() == self.dim(),
            g.eta@ == self.eta@,
            g.lam.rows == self.lam.rows,
            g.lam.cols == self.lam.cols,
            forall|i: int, j: int|
                0 <= i < self.dim() && 0 <= j < self.dim() ==> #[trigger] g.lam.at(i, j)
                    == self.lam.at(i, j),
    {
        let lam = crate::linalg::mat_copy(&self.lam);
        proof {
            assert forall|i: int, j: int|
                0 <= i < lam.rows && 0 <= j < lam.rows implies rat_eq(
                #[trigger] lam.at(i, j),
                lam.at(j, i),
            ) by {
                assert(lam.at(i, j) == self.lam.at(i, j));
                assert(lam.at(j, i) == self.lam.at(j, i));
            }
        }
        Gaussian { eta: vec_copy(&self.eta), lam }
    }

    /// Gaussian product in information form: entrywise exact addition of the
    /// information vectors and of the precision matrices.
    pub fn add(&self, other: &Gaussian) -> (r: Option<Gaussian>)
        requires
            self.wf(),
            other.wf(),
            self.dim() == other.dim(),
        ensures
            r matches Some(g) ==> {
                &&& g.wf()
                &&& g.dim() == self.dim()
                &&& forall|k: int|
                    0 <= k < self.dim() ==> rat_eq(
                        #[trigger] g.eta@[k]@,
                        radd(self.eta@[k]@, other.eta@[k]@),
                    )
                &&& forall|i: int, j: int|
                    0 <= i < self.dim() && 0 <= j < self.dim() ==> rat_eq(
                        #[trigger] g.lam.at(i, j),
                        radd(self.lam.at(i, j), other.lam.at(i, j)),
                    )
            },
    {
        let eta: Vec<Rat> = match vec_add(&self.eta, &other.eta) {
            Some(v) => v,
            None => {
                return None;
            },
        };
        let lam: Mat = match mat_add(&self.lam, &other.lam) {
            Some(m) => m,
            None => {
                return None;
            },
        };
        proof {
            lemma_sym_add(self.lam, other.lam, lam);
        }
        Some(Gaussian { eta, lam })
    }

    /// Entrywise exact scaling of both components.
    pub fn scale(&self, k: &Rat) -> (r: Option<Gaussian>)
        requires
            self.wf(),
            k.wf(),
        ensures
            r matches Some(g) ==> {
                &&& g.wf()
                &&& g.dim() == self.dim()
                &&& forall|p: int|
                    0 <= p < self.dim() ==> rat_eq(#[trigger] g.eta@[p]@, rmul(k@, self.eta@[p]@))
                &&& forall|i: int, j: int|
                    0 <= i < self.dim() && 0 <= j < self.dim() ==> rat_eq(
                        #[trigger] g.lam.at(i, j),
                        rmul(k@, self.lam.at(i, j)),
                    )
            },
    {
        let eta: Vec<Rat> = match vec_scale(k, &self.eta) {
            Some(v) => v,
            None => {
                return None;
            },
        };
        let lam: Mat = match mat_scale(k, &self.lam) {
            Some(m) => m,
            None => {
                return None;
            },
        };
        proof {
            lemma_sym_scale(k@, self.lam, lam);
        }
        Some(Gaussian { eta, lam })
    }

    /// The mean: the exact solution of `lam * x == eta`.  Fails with
    /// `Singular` when the precision has no pivot, with `Overflow` when exact
    /// arithmetic exceeds the machine word.
    pub fn mean(&self) -> (r: Result<Vec<Rat>, GbpError>)
        requires
            self.wf(),
        ensures
            r matches Ok(x) ==> vec_wf(x@) && solves(*self, rats(x@)),
            r matches Err(e) ==> (e is Singular || e is Overflow),
            r matches Err(e) && e is Singular ==> crate::linalg::is_singular(self.lam),
    {
        solve_linear(&self.lam, &self.eta)
    }

    /// The covariance: the exact inverse of the precision matrix.
    pub fn covariance(&self) -> (r: Result<Mat, GbpError>)
        requires
            self.wf(),
        ensures
            r matches Ok(w) ==> {
                &&& w.wf()
                &&& w.rows == self.dim()
                &&& w.cols == self.dim()
                &&& forall|i: int, j: int|
                    0 <= i < self.dim() && 0 <= j < self.dim() ==> rat_eq(
                        crate::linalg::rdot(rowv(self.lam, i), crate::linalg::colv(w, j)),
                        #[trigger] kron(i, j),
                    )
                &&& forall|i: int, j: int|
                    0 <= i < self.dim() && 0 <= j < self.dim() ==> rat_eq(
                        crate::linalg::rdot(rowv(w, i), crate::linalg::colv(self.lam, j)),
                        #[trigger] kron(j, i),
                    )
            },
            r matches Err(e) ==> (e is Singular || e is Overflow),
            r matches Err(e) && e is Singular ==> crate::linalg::is_singular(self.lam),
    {
        inverse(&self.lam)
    }

    /// The squared Euclidean norm of the mean, the solver's convergence
    /// signal.
    pub fn norm_sq(&self) -> (r: Result<Rat, GbpError>)
        requires
            self.wf(),
        ensures
            r matches Ok(v) ==> v.wf() && exists|x: Vec<Rat>|
                {
                    &&& vec_wf(x@)
                    &&& #[trigger] solves(*self, rats(x@))
                    &&& rat_eq(v@, crate::linalg::rdot(rats(x@), rats(x@)))
                },
            r matches Err(e) ==> (e is Singular || e is Overflow),
            r matches Err(e) && e is Singular ==> crate::linalg::is_singular(self.lam),
    {
        let x: Vec<Rat> = match self.mean() {
            Ok(x) => x,
            Err(e) => {
                return Err(e);
            },
        };
        match dot(&x, &x) {
            Some(v) => {
                proof {
                    let xw = x;
                    assert(vec_wf(xw@) && solves(*self, rats(xw@)) && rat_eq(
                        v@,
                        crate::linalg::rdot(rats(xw@), rats(xw@)),
                    ));
                }
                Ok(v)
            },
            None => Err(GbpError::Overflow),
        }
    }
}

/// The damped blend of a freshly computed message with the previous one:
/// `(1 - d) * fresh + d * previous`, entrywise and exact.
pub fn blend(fresh: &Gaussian, previous: &Gaussian, d: &Rat) -> (r: Option<Gaussian>)
    requires
        fresh.wf(),
        previous.wf(),
        fresh.dim() == previous.dim(),
        d.wf(),
    ensures
        r matches Some(g) ==> {
            &&& g.wf()
            &&& g.dim() == fresh.dim()
            &&& forall|k: int|
                0 <= k < fresh.dim() ==> rat_eq(
                    #[trigger] g.eta@[k]@,
                    radd(rmul(rsub(rone(), d@), fresh.eta@[k]@), rmul(d@, previous.eta@[k]@)),
                )
            &&& forall|i: int, j: int|
                0 <= i < fresh.dim() && 0 <= j < fresh.dim() ==> rat_eq(
                    #[trigger] g.lam.at(i, j),
                    radd(
                        rmul(rsub(rone(), d@), fresh.lam.at(i, j)),
                        rmul(d@, previous.lam.at(i, j)),
                    ),
                )
        },
{
    let one: Rat = Rat::one();
    let om: Rat = match one.sub(d) {
        Some(v) => v,
        None => {
            return None;
        },
    };
    let fs: Gaussian = match fresh.scale(&om) {
        Some(g) => g,
        None => {
            return None;
        },
    };
    let ps: Gaussian = match previous.scale(d) {
        Some(g) => g,
        None => {
            return None;
        },
    };
    let g: Gaussian = match fs.add(&ps) {
        Some(g) => g,
        None => {
            return None;
        },
    };
    proof {
        assert forall|k: int| 0 <= k < fresh.dim() implies rat_eq(
            #[trigger] g.eta@[k]@,
            radd(rmul(rsub(rone(), d@), fresh.eta@[k]@), rmul(d@, previous.eta@[k]@)),
        ) by {
            lemma_blend_entry(
                om@,
                d@,
                fresh.eta@[k]@,
                previous.eta@[k]@,
                fs.eta@[k]@,
                ps.eta@[k]@,
                g.eta@[k]@,
            );
        }
        assert forall|i: int, j: int|
            0 <= i < fresh.dim() && 0 <= j < fresh.dim() implies rat_eq(
            #[trigger] g.lam.at(i, j),
            radd(rmul(rsub(rone(), d@), fresh.lam.at(i, j)), rmul(d@, previous.lam.at(i, j))),
        ) by {
            lemma_blend_entry(
                om@,
                d@,
                fresh.lam.at(i, j),
                previous.lam.at(i, j),
                fs.lam.at(i, j),
                ps.lam.at(i, j),
                g.lam.at(i, j),
            );
        }
    }
    Some(g)
}

/// One entry of a damped blend follows the blend formula.
proof fn lemma_blend_entry(
    omv: Ratio,
    dv: Ratio,
    av: Ratio,
    bv: Ratio,
    sav: Ratio,
    sbv: Ratio,
    gv: Ratio,
)
    requires
        rat_wf(omv),
        rat_wf(dv),
        rat_wf(av),
        rat_wf(bv),
        rat_wf(sav),
        rat_wf(sbv),
        rat_wf(gv),
        rat_eq(omv, rsub(rone(), dv)),
        rat_eq(sav, rmul(omv, av)),
        rat_eq(sbv, rmul(dv, bv)),
        rat_eq(gv, radd(sav, sbv)),
    ensures
        rat_eq(gv, radd(rmul(rsub(rone(), dv), av), rmul(dv, bv))),
{
    lemma_radd_wf(rone(), dv);
    lemma_rmul_congruence(omv, rsub(rone(), dv), av, av);
    lemma_radd_wf(omv, av);
    lemma_radd_wf(rsub(rone(), dv), av);
    lemma_rat_eq_trans(sav, rmul(omv, av), rmul(rsub(rone(), dv), av));
    lemma_radd_wf(dv, bv);
    lemma_radd_congruence(sav, rmul(rsub(rone(), dv), av), sbv, rmul(dv, bv));
    lemma_radd_wf(sav, sbv);
    lemma_radd_wf(rmul(rsub(rone(), dv), av), rmul(dv, bv));
    lemma_rat_eq_trans(
        gv,
        radd(sav, sbv),
        radd(rmul(rsub(rone(), dv), av), rmul(dv, bv)),
    );
}

} // verus!
