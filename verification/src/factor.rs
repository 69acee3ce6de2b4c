//! Factor nodes.
//!
//! A factor is a likelihood term over the concatenated state of its
//! neighbours.  It owns a measurement model (a tagged variant: linear, or a
//! closed set of non-linear models), a loss that yields the effective
//! precision, a cached linearisation point, and the Gaussian produced by the
//! last linearisation.

use crate::gaussian::Gaussian;
use crate::linalg::{
    colv, dot, lemma_rdot_congruence, lemma_rdot_wf, mat_copy, matmul, matvec, rats, rdot, rowv,
    seq_wf, transpose, vec_add, vec_copy, vec_sub, vec_wf, vec_zeros, Mat,
};
use crate::offsets::{off, total};
use crate::rat::{
    lemma_radd_wf, lemma_rat_eq_sym, lemma_rat_eq_trans, lemma_rmul_congruence,
    lemma_rneg_congruence, lemma_rsub_congruence, radd, rat_eq, rat_wf, rmul, rneg, rsub, rzero,
    Rat, Ratio,
};
use crate::GbpError;
use vstd::prelude::*;

verus! {

/// The constant two as a specification-level rational.
pub open spec fn rtwo() -> Ratio {
    Ratio { num: 2, den: 1 }
}

/// A measurement model: the prediction function h and the fixed measurement z
/// of a factor.  The set of models is closed; a new model is a new variant.
pub enum MeasurementModel {
    /// A linear model h(x) = J x with a fixed Jacobian.
    Linear { jacobian: Mat, measurement: Vec<Rat> },
    /// The non-linear squared-difference range model over two scalar
    /// neighbours: h(x) = (x0 - x1)^2.
    SquaredDifference { measurement: Rat },
}

impl MeasurementModel {
    /// The dimension of the concatenated neighbour state the model reads.
    pub open spec fn dim(self) -> int {
        match self {
            MeasurementModel::Linear { jacobian, .. } => jacobian.cols as int,
            MeasurementModel::SquaredDifference { .. } => 2,
        }
    }

    /// The dimension of the measurement.
    pub open spec fn zlen(self) -> int {
        match self {
            MeasurementModel::Linear { jacobian, .. } => jacobian.rows as int,
            MeasurementModel::SquaredDifference { .. } => 1,
        }
    }

    pub open spec fn wf(self) -> bool {
        match self {
            MeasurementModel::Linear { jacobian, measurement } => {
                &&& jacobian.wf()
                &&& vec_wf(measurement@)
                &&& measurement@.len() == jacobian.rows
                &&& jacobian.cols >= 1
            },
            MeasurementModel::SquaredDifference { measurement } => measurement.wf(),
        }
    }

    /// Whether the model is linear; linear factors are never relinearised.
    pub open spec fn spec_is_linear(self) -> bool {
        self is Linear
    }

    /// Whether the model is linear.
    pub fn is_linear(&self) -> (r: bool)
        ensures
            r == self.spec_is_linear(),
    {
        match self {
            MeasurementModel::Linear { .. } => true,
            MeasurementModel::SquaredDifference { .. } => false,
        }
    }

    /// Entry `i` of the measurement z.
    pub open spec fn z_at(self, i: int) -> Ratio {
        match self {
            MeasurementModel::Linear { measurement, .. } => measurement@[i]@,
            MeasurementModel::SquaredDifference { measurement } => measurement@,
        }
    }

    /// Entry `i` of the prediction h(x).
    pub open spec fn predict_at(self, x: Seq<Ratio>, i: int) -> Ratio {
        match self {
            MeasurementModel::Linear { jacobian, .. } => rdot(rowv(jacobian, i), x),
            MeasurementModel::SquaredDifference { .. } => rmul(
                rsub(x[0], x[1]),
                rsub(x[0], x[1]),
            ),
        }
    }

    /// Entry `(i, j)` of the Jacobian of h at x.
    pub open spec fn jac_at(self, x: Seq<Ratio>, i: int, j: int) -> Ratio {
        match self {
            MeasurementModel::Linear { jacobian, .. } => jacobian.at(i, j),
            MeasurementModel::SquaredDifference { .. } => {
                if j == 0 {
                    rmul(rtwo(), rsub(x[0], x[1]))
                } else {
                    rneg(rmul(rtwo(), rsub(x[0], x[1])))
                }
            },
        }
    }

    /// The measurement as a vector.
    pub fn measurement_vec(&self) -> (r: Vec<Rat>)
        requires
            self.wf(),
        ensures
            r@.len() == self.zlen(),
            vec_wf(r@),
            forall|i: int| 0 <= i < self.zlen() ==> r@[i]@ == self.z_at(i),
    {
        match self {
            MeasurementModel::Linear { measurement, .. } => vec_copy(measurement),
            MeasurementModel::SquaredDifference { measurement } => {
                let mut r: Vec<Rat> = Vec::new();
                r.push(*measurement);
                r
            },
        }
    }

    /// Evaluate the prediction h(x) exactly.
    pub fn predict(&self, x: &Vec<Rat>) -> (r: Option<Vec<Rat>>)
        requires
            self.wf(),
            vec_wf(x@),
            x@.len() == self.dim(),
        ensures
            r matches Some(p) ==> {
                &&& p@.len() == self.zlen()
                &&& vec_wf(p@)
                &&& forall|i: int|
                    0 <= i < self.zlen() ==> rat_eq(#[trigger] p@[i]@, self.predict_at(rats(x@), i))
            },
    {
        match self {
            MeasurementModel::Linear { jacobian, .. } => matvec(jacobian, x),
            MeasurementModel::SquaredDifference { .. } => {
                let d: Rat = match x[0].sub(&x[1]) {
                    Some(v) => v,
                    None => {
                        return None;
                    },
                };
                let p: Rat = match d.mul(&d) {
                    Some(v) => v,
                    None => {
                        return None;
                    },
                };
                proof {
                    let xs = rats(x@);
                    lemma_radd_wf(xs[0], xs[1]);
                    lemma_rmul_congruence(d@, rsub(xs[0], xs[1]), d@, rsub(xs[0], xs[1]));
                    lemma_radd_wf(d@, d@);
                    lemma_radd_wf(rsub(xs[0], xs[1]), rsub(xs[0], xs[1]));
                    lemma_rat_eq_trans(
                        p@,
                        rmul(d@, d@),
                        rmul(rsub(xs[0], xs[1]), rsub(xs[0], xs[1])),
                    );
                }
                let mut r: Vec<Rat> = Vec::new();
                r.push(p);
                Some(r)
            },
        }
    }

    /// Evaluate the Jacobian of h at x exactly.
    pub fn jacobian_mat(&self, x: &Vec<Rat>) -> (r: Option<Mat>)
        requires
            self.wf(),
            vec_wf(x@),
            x@.len() == self.dim(),
        ensures
            r matches Some(j) ==> {
                &&& j.wf()
                &&& j.rows == self.zlen()
                &&& j.cols == self.dim()
                &&& forall|p: int, q: int|
                    0 <= p < self.zlen() && 0 <= q < self.dim() ==> rat_eq(
                        #[trigger] j.at(p, q),
                        self.jac_at(rats(x@), p, q),
                    )
            },
    {
        match self {
            MeasurementModel::Linear { jacobian, .. } => Some(mat_copy(jacobian)),
            MeasurementModel::SquaredDifference { .. } => {
                let d: Rat = match x[0].sub(&x[1]) {
                    Some(v) => v,
                    None => {
                        return None;
                    },
                };
                let two: Rat = Rat { n: 2, d: 1 };
                let g: Rat = match two.mul(&d) {
                    Some(v) => v,
                    None => {
                        return None;
                    },
                };
                let ng: Rat = match g.neg() {
                    Some(v) => v,
                    None => {
                        return None;
                    },
                };
                proof {
                    let xs = rats(x@);
                    lemma_radd_wf(xs[0], xs[1]);
                    lemma_rmul_congruence(two@, rtwo(), d@, rsub(xs[0], xs[1]));
                    lemma_radd_wf(two@, d@);
                    lemma_radd_wf(rtwo(), rsub(xs[0], xs[1]));
                    lemma_rat_eq_trans(g@, rmul(two@, d@), rmul(rtwo(), rsub(xs[0], xs[1])));
                    lemma_rneg_congruence(g@, rmul(rtwo(), rsub(xs[0], xs[1])));
                    lemma_rat_eq_trans(
                        ng@,
                        rneg(g@),
                        rneg(rmul(rtwo(), rsub(xs[0], xs[1]))),
                    );
                }
                let mut row: Vec<Rat> = Vec::new();
                row.push(g);
                row.push(ng);
                let mut m: Vec<Vec<Rat>> = Vec::new();
                m.push(row);
                Some(Mat { rows: 1, cols: 2, m })
            },
        }
    }
}

/// `rv` is the exact residual `z - h(x)` of the model at `x`.
pub open spec fn residual_rel(model: MeasurementModel, x: Seq<Ratio>, rv: Seq<Rat>) -> bool {
    &&& rv.len() == model.zlen()
    &&& vec_wf(rv)
    &&& forall|i: int|
        0 <= i < model.zlen() ==> rat_eq(
            #[trigger] rv[i]@,
            rsub(model.z_at(i), model.predict_at(x, i)),
        )
}

/// The kind of loss attached to a factor.
pub enum LossKind {
    /// A plain Gaussian loss: the effective precision is constant.
    Gaussian,
    /// A robust loss that scales the precision down once the squared residual
    /// norm exceeds the squared threshold.
    Robust { threshold: Rat },
}

/// The loss scale of `l1` is the robust re-derivation of `l0`'s at the given
/// residual: one for a plain Gaussian loss; `threshold^2 / |r|^2` once the
/// squared residual norm exceeds the squared threshold, one otherwise.
pub open spec fn robustify_rel(l1: Loss, l0: Loss, residual: Seq<Rat>) -> bool {
    &&& l1.base_precision == l0.base_precision
    &&& l1.kind == l0.kind
    &&& match l0.kind {
        LossKind::Gaussian => l1.scale@ == crate::rat::rone(),
        LossKind::Robust { threshold } => exists|ns: Rat|
            {
                &&& ns.wf()
                &&& #[trigger] rat_eq(ns@, rdot(rats(residual), rats(residual)))
                &&& if crate::rat::rlt(rmul(threshold@, threshold@), ns@) {
                    rat_eq(rmul(l1.scale@, ns@), rmul(threshold@, threshold@))
                } else {
                    l1.scale@ == crate::rat::rone()
                }
            },
    }
}

/// A loss: the base measurement precision together with the current robust
/// scale.  The effective precision is `scale * base_precision`.
pub struct Loss {
    pub base_precision: Mat,
    pub kind: LossKind,
    pub scale: Rat,
}

impl Loss {
    pub open spec fn zlen(self) -> int {
        self.base_precision.rows as int
    }

    pub open spec fn wf(self) -> bool {
        &&& self.base_precision.wf()
        &&& self.base_precision.rows == self.base_precision.cols
        &&& crate::linalg::sym(self.base_precision)
        &&& self.scale.wf()
        &&& match self.kind {
            LossKind::Gaussian => true,
            LossKind::Robust { threshold } => threshold.wf(),
        }
    }

    /// A Gaussian loss with the given base precision and unit scale.
    pub fn gaussian(base_precision: Mat) -> (r: Result<Loss, GbpError>)
        requires
            base_precision.wf(),
        ensures
            r matches Ok(l) ==> l.wf() && l.base_precision == base_precision && l.kind is Gaussian
                && l.scale@ == crate::rat::rone(),
    {
        if base_precision.rows != base_precision.cols {
            return Err(GbpError::DimensionMismatch);
        }
        match crate::linalg::sym_check(&base_precision) {
            Some(true) => Ok(
                Loss { base_precision, kind: LossKind::Gaussian, scale: Rat::one() },
            ),
            Some(false) => Err(GbpError::DimensionMismatch),
            None => Err(GbpError::Overflow),
        }
    }

    /// A robust loss with the given base precision, threshold and unit scale.
    pub fn robust(base_precision: Mat, threshold: Rat) -> (r: Result<Loss, GbpError>)
        requires
            base_precision.wf(),
            threshold.wf(),
        ensures
            r matches Ok(l) ==> l.wf() && l.base_precision == base_precision && (l.kind matches
                LossKind::Robust { threshold: t } && t == threshold) && l.scale@
                == crate::rat::rone(),
    {
        if base_precision.rows != base_precision.cols {
            return Err(GbpError::DimensionMismatch);
        }
        match crate::linalg::sym_check(&base_precision) {
            Some(true) => Ok(
                Loss { base_precision, kind: LossKind::Robust { threshold }, scale: Rat::one() },
            ),
            Some(false) => Err(GbpError::DimensionMismatch),
            None => Err(GbpError::Overflow),
        }
    }

    /// The effective precision `scale * base_precision`.
    pub fn effective_precision(&self) -> (r: Option<Mat>)
        requires
            self.wf(),
        ensures
            r matches Some(w) ==> {
                &&& w.wf()
                &&& w.rows == self.zlen()
                &&& w.cols == self.zlen()
                &&& forall|i: int, j: int|
                    0 <= i < self.zlen() && 0 <= j < self.zlen() ==> rat_eq(
                        #[trigger] w.at(i, j),
                        rmul(self.scale@, self.base_precision.at(i, j)),
                    )
            },
    {
        crate::linalg::mat_scale(&self.scale, &self.base_precision)
    }

    /// Re-derive the robust scale from the current residual.  A Gaussian loss
    /// resets the scale to one; a robust loss scales the precision by
    /// `threshold^2 / |r|^2` once the squared residual norm exceeds the
    /// squared threshold.
    pub fn robustify(&mut self, residual: &Vec<Rat>) -> (r: Result<(), GbpError>)
        requires
            old(self).wf(),
            vec_wf(residual@),
            residual@.len() == old(self).zlen(),
        ensures
            final(self).wf(),
            final(self).base_precision == old(self).base_precision,
            final(self).kind == old(self).kind,
            r matches Err(e) ==> e is Overflow && final(self).scale == old(self).scale,
            r matches Ok(()) ==> robustify_rel(*final(self), *old(self), residual@),
    {
        match &self.kind {
            LossKind::Gaussian => {
                self.scale = Rat::one();
                Ok(())
            },
            LossKind::Robust { threshold } => {
                let t: Rat = *threshold;
                let ns: Rat = match dot(residual, residual) {
                    Some(v) => v,
                    None => {
                        return Err(GbpError::Overflow);
                    },
                };
                let t2: Rat = match t.mul(&t) {
                    Some(v) => v,
                    None => {
                        return Err(GbpError::Overflow);
                    },
                };
                let exceeded: bool = match t2.lt(&ns) {
                    Some(b) => b,
                    None => {
                        return Err(GbpError::Overflow);
                    },
                };
                if exceeded {
                    let s: Rat = match t2.div(&ns) {
                        Some(v) => v,
                        None => {
                            return Err(GbpError::Overflow);
                        },
                    };
                    proof {
                        lemma_radd_wf(t@, t@);
                        lemma_scale_div(t@, t2@, ns@, s@);
                        crate::rat::lemma_rle_congruence(t2@, rmul(t@, t@), ns@, ns@);
                    }
                    self.scale = s;
                    Ok(())
                } else {
                    proof {
                        lemma_radd_wf(t@, t@);
                        crate::rat::lemma_rle_congruence(t2@, rmul(t@, t@), ns@, ns@);
                    }
                    self.scale = Rat::one();
                    Ok(())
                }
            },
        }
    }
}

/// From the exact division `s = t2 / ns` and `t2 == t * t` it follows that
/// `s * ns == t * t` as rationals.
proof fn lemma_scale_div(tv: Ratio, t2v: Ratio, nsv: Ratio, sv: Ratio)
    requires
        rat_wf(tv),
        rat_wf(t2v),
        rat_wf(nsv),
        rat_wf(sv),
        rat_eq(t2v, rmul(tv, tv)),
        nsv.num != 0,
        sv.num * (t2v.den * nsv.num) == (t2v.num * nsv.den) * sv.den,
    ensures
        rat_eq(rmul(sv, nsv), rmul(tv, tv)),
{
    broadcast use vstd::arithmetic::mul::group_mul_properties;

    assert((sv.num * nsv.num) * (t2v.den * nsv.den) == (sv.num * (t2v.den * nsv.num)) * nsv.den);
    assert(((t2v.num * nsv.den) * sv.den) * nsv.den == (t2v.num * (sv.den * nsv.den)) * nsv.den);
    assert((sv.num * nsv.num) * (t2v.den * nsv.den) == (t2v.num * (sv.den * nsv.den)) * nsv.den);
    // t2v == tv * tv, cross-multiplied
    assert(t2v.num * (tv.den * tv.den) == (tv.num * tv.num) * t2v.den);
    assert(((sv.num * nsv.num) * (tv.den * tv.den)) * (t2v.den * nsv.den) == ((tv.num * tv.num)
        * (sv.den * nsv.den)) * (t2v.den * nsv.den)) by {
        assert(((sv.num * nsv.num) * (tv.den * tv.den)) * (t2v.den * nsv.den) == ((sv.num
            * nsv.num) * (t2v.den * nsv.den)) * (tv.den * tv.den));
        assert(((sv.num * nsv.num) * (t2v.den * nsv.den)) * (tv.den * tv.den) == ((t2v.num * (
        sv.den * nsv.den)) * nsv.den) * (tv.den * tv.den));
        assert(((t2v.num * (sv.den * nsv.den)) * nsv.den) * (tv.den * tv.den) == ((t2v.num * (
        tv.den * tv.den)) * (sv.den * nsv.den)) * nsv.den);
        assert(((t2v.num * (tv.den * tv.den)) * (sv.den * nsv.den)) * nsv.den == (((tv.num
            * tv.num) * t2v.den) * (sv.den * nsv.den)) * nsv.den);
        assert((((tv.num * tv.num) * t2v.den) * (sv.den * nsv.den)) * nsv.den == ((tv.num * tv.num)
            * (sv.den * nsv.den)) * (t2v.den * nsv.den));
    }
    let lhs = (sv.num * nsv.num) * (tv.den * tv.den);
    let rhs = (tv.num * tv.num) * (sv.den * nsv.den);
    let f = t2v.den * nsv.den;
    assert(lhs * f == rhs * f);
    assert(f > 0) by (nonlinear_arith)
        requires
            f == t2v.den * nsv.den,
            t2v.den > 0,
            nsv.den > 0,
    ;
    assert(lhs == rhs) by (nonlinear_arith)
        requires
            lhs * f == rhs * f,
            f > 0,
    ;
}


impl MeasurementModel {
    /// The dimension of the concatenated neighbour state, executable.
    pub fn dimension(&self) -> (r: usize)
        ensures
            r == self.dim(),
    {
        match self {
            MeasurementModel::Linear { jacobian, .. } => jacobian.cols,
            MeasurementModel::SquaredDifference { .. } => 2,
        }
    }

    /// The dimension of the measurement, executable.
    pub fn measurement_len(&self) -> (r: usize)
        ensures
            r == self.zlen(),
    {
        match self {
            MeasurementModel::Linear { jacobian, .. } => jacobian.rows,
            MeasurementModel::SquaredDifference { .. } => 1,
        }
    }
}

/// The measurement and the prediction entries of a well-formed model are
/// well-formed rationals.
pub proof fn lemma_model_specs_wf(model: MeasurementModel, x: Seq<Ratio>, i: int)
    requires
        model.wf(),
        seq_wf(x),
        x.len() == model.dim(),
        0 <= i < model.zlen(),
    ensures
        rat_wf(model.z_at(i)),
        rat_wf(model.predict_at(x, i)),
{
    match model {
        MeasurementModel::Linear { jacobian, measurement } => {
            assert(seq_wf(rowv(jacobian, i))) by {
                assert(forall|t: int|
                    0 <= t < jacobian.cols ==> #[trigger] rowv(jacobian, i)[t] == jacobian.at(i, t));
            }
            lemma_rdot_wf(rowv(jacobian, i), x);
        },
        MeasurementModel::SquaredDifference { .. } => {
            lemma_radd_wf(x[0], x[1]);
            lemma_radd_wf(rsub(x[0], x[1]), rsub(x[0], x[1]));
        },
    }
}

/// The full witness chain of a linearised factor Gaussian around `x`:
/// `lam = J' W J` and `eta = J' W (J x + r)` with `r = z - h(x)` and
/// `W = scale * base_precision`.
pub open spec fn factor_gaussian_witness(
    g: Gaussian,
    model: MeasurementModel,
    loss: Loss,
    x: Seq<Ratio>,
    jm: Mat,
    wm: Mat,
    wj: Mat,
    jx: Seq<Rat>,
    rv: Seq<Rat>,
    sv: Seq<Rat>,
    ws: Seq<Rat>,
) -> bool {
    &&& jm.wf() && jm.rows == model.zlen() && jm.cols == model.dim()
    &&& forall|p: int, q: int|
        0 <= p < model.zlen() && 0 <= q < model.dim() ==> rat_eq(
            #[trigger] jm.at(p, q),
            model.jac_at(x, p, q),
        )
    &&& wm.wf() && wm.rows == model.zlen() && wm.cols == model.zlen()
    &&& forall|p: int, q: int|
        0 <= p < model.zlen() && 0 <= q < model.zlen() ==> rat_eq(
            #[trigger] wm.at(p, q),
            rmul(loss.scale@, loss.base_precision.at(p, q)),
        )
    &&& wj.wf() && wj.rows == model.zlen() && wj.cols == model.dim()
    &&& forall|p: int, q: int|
        0 <= p < model.zlen() && 0 <= q < model.dim() ==> rat_eq(
            #[trigger] wj.at(p, q),
            rdot(rowv(wm, p), colv(jm, q)),
        )
    &&& g.lam.rows == model.dim() && g.lam.cols == model.dim()
    &&& forall|p: int, q: int|
        0 <= p < model.dim() && 0 <= q < model.dim() ==> rat_eq(
            #[trigger] g.lam.at(p, q),
            rdot(colv(jm, p), colv(wj, q)),
        )
    &&& jx.len() == model.zlen() && vec_wf(jx)
    &&& forall|i: int|
        0 <= i < model.zlen() ==> rat_eq(#[trigger] jx[i]@, rdot(rowv(jm, i), x))
    &&& rv.len() == model.zlen() && vec_wf(rv)
    &&& forall|i: int|
        0 <= i < model.zlen() ==> rat_eq(
            #[trigger] rv[i]@,
            rsub(model.z_at(i), model.predict_at(x, i)),
        )
    &&& sv.len() == model.zlen() && vec_wf(sv)
    &&& forall|i: int| 0 <= i < model.zlen() ==> rat_eq(#[trigger] sv[i]@, radd(jx[i]@, rv[i]@))
    &&& ws.len() == model.zlen() && vec_wf(ws)
    &&& forall|i: int|
        0 <= i < model.zlen() ==> rat_eq(#[trigger] ws[i]@, rdot(rowv(wm, i), rats(sv)))
    &&& g.eta@.len() == model.dim()
    &&& forall|i: int|
        0 <= i < model.dim() ==> rat_eq(#[trigger] g.eta@[i]@, rdot(colv(jm, i), rats(ws)))
}

/// `g` is the linearisation of the factor around `x`.
pub open spec fn factor_gaussian_rel(
    g: Gaussian,
    model: MeasurementModel,
    loss: Loss,
    x: Seq<Ratio>,
) -> bool {
    exists|jm: Mat, wm: Mat, wj: Mat, jx: Seq<Rat>, rv: Seq<Rat>, sv: Seq<Rat>, ws: Seq<Rat>|
        #[trigger] factor_gaussian_witness(g, model, loss, x, jm, wm, wj, jx, rv, sv, ws)
}

/// The witness chain of a factor's energy at adjacency mean `x`:
/// `e = r' W r` with `r = z - h(x)` and `W = scale * base_precision`.
pub open spec fn energy_witness(
    e: Ratio,
    model: MeasurementModel,
    loss: Loss,
    x: Seq<Ratio>,
    rv: Seq<Rat>,
    wm: Mat,
    wv: Seq<Rat>,
) -> bool {
    &&& rv.len() == model.zlen() && vec_wf(rv)
    &&& forall|i: int|
        0 <= i < model.zlen() ==> rat_eq(
            #[trigger] rv[i]@,
            rsub(model.z_at(i), model.predict_at(x, i)),
        )
    &&& wm.wf() && wm.rows == model.zlen() && wm.cols == model.zlen()
    &&& forall|p: int, q: int|
        0 <= p < model.zlen() && 0 <= q < model.zlen() ==> rat_eq(
            #[trigger] wm.at(p, q),
            rmul(loss.scale@, loss.base_precision.at(p, q)),
        )
    &&& wv.len() == model.zlen() && vec_wf(wv)
    &&& forall|i: int|
        0 <= i < model.zlen() ==> rat_eq(#[trigger] wv[i]@, rdot(rowv(wm, i), rats(rv)))
    &&& rat_eq(e, rdot(rats(rv), rats(wv)))
}

/// `e` is the factor's energy `r' W r` at adjacency mean `x`.
pub open spec fn factor_energy_rel(e: Ratio, model: MeasurementModel, loss: Loss, x: Seq<Ratio>) -> bool {
    exists|rv: Seq<Rat>, wm: Mat, wv: Seq<Rat>|
        #[trigger] energy_witness(e, model, loss, x, rv, wm, wv)
}

/// A factor node of the factor graph.
pub struct Factor {
    /// Dense index of this factor in the graph.
    pub id: usize,
    /// Neighbour variable ids, in adjacency order.
    pub adjacent: Vec<usize>,
    /// Degrees of freedom of each neighbour, in adjacency order.
    pub dims: Vec<usize>,
    /// The measurement model.
    pub model: MeasurementModel,
    /// The loss yielding the effective precision.
    pub loss: Loss,
    /// The cached linearisation point over the concatenated neighbour state.
    pub x0: Vec<Rat>,
    /// The factor's Gaussian over the concatenated neighbour state, produced
    /// by the last linearisation.
    pub gaussian: Gaussian,
    /// The last outgoing message to each neighbour, in adjacency order.
    pub outbox: Vec<Gaussian>,
    /// Iterations of message passing since the factor was last linearised;
    /// drives the damping schedule.
    pub iterations_since_relinearisation: usize,
}

impl Factor {
    /// The dimension of the concatenated neighbour state.
    pub open spec fn dim(self) -> int {
        total(self.dims@)
    }

    pub open spec fn wf(self) -> bool {
        &&& self.adjacent@.len() == self.dims@.len()
        &&& self.adjacent@.len() >= 1
        &&& forall|s: int, t: int|
            0 <= s < t < self.adjacent@.len() ==> self.adjacent@[s] != self.adjacent@[t]
        &&& forall|t: int| 0 <= t < self.dims@.len() ==> (#[trigger] self.dims@[t]) >= 1
        &&& self.model.wf()
        &&& self.model.dim() == self.dim()
        &&& self.loss.wf()
        &&& self.loss.zlen() == self.model.zlen()
        &&& vec_wf(self.x0@)
        &&& self.x0@.len() == self.dim()
        &&& self.gaussian.wf()
        &&& self.gaussian.dim() == self.dim()
        &&& self.outbox@.len() == self.adjacent@.len()
        &&& forall|t: int|
            0 <= t < self.outbox@.len() ==> (#[trigger] self.outbox@[t]).wf()
                && self.outbox@[t].dim() == self.dims@[t]
    }

    /// A fresh factor with a zero Gaussian, zero linearisation point and zero
    /// outgoing messages; the caller follows up with a first `compute`.
    pub fn new(
        id: usize,
        adjacent: Vec<usize>,
        dims: Vec<usize>,
        model: MeasurementModel,
        loss: Loss,
    ) -> (r: Result<Factor, GbpError>)
        requires
            model.wf(),
            loss.wf(),
        ensures
            r is Ok <==> {
                &&& adjacent@.len() >= 1
                &&& dims@.len() == adjacent@.len()
                &&& forall|t: int| 0 <= t < dims@.len() ==> (#[trigger] dims@[t]) >= 1
                &&& forall|s: int, t: int|
                    0 <= s < t < adjacent@.len() ==> adjacent@[s] != adjacent@[t]
                &&& total(dims@) == model.dim()
                &&& loss.base_precision.rows == model.zlen()
            },
            r matches Ok(f) ==> {
                &&& f.wf()
                &&& f.id == id
                &&& f.adjacent == adjacent
                &&& f.dims == dims
                &&& f.model == model
                &&& f.loss == loss
                &&& f.iterations_since_relinearisation == 0
                &&& forall|k: int| 0 <= k < f.dim() ==> f.x0@[k]@ == rzero()
                &&& forall|k: int| 0 <= k < f.dim() ==> f.gaussian.eta@[k]@ == rzero()
                &&& forall|p: int, q: int|
                    0 <= p < f.dim() && 0 <= q < f.dim() ==> f.gaussian.lam.at(p, q) == rzero()
                &&& forall|t: int, k: int|
                    0 <= t < f.outbox@.len() && 0 <= k < f.dims@[t] ==> (#[trigger] f.outbox@[t].eta@[k])@
                        == rzero()
                &&& forall|t: int, p: int, q: int|
                    0 <= t < f.outbox@.len() && 0 <= p < f.dims@[t] && 0 <= q < f.dims@[t]
                        ==> (#[trigger] f.outbox@[t].lam.at(p, q)) == rzero()
            },
    {
        let n: usize = adjacent.len();
        if n == 0 || dims.len() != n {
            return Err(GbpError::InvalidSettings);
        }
        // neighbour ids must be distinct and every block non-empty
        let mut i: usize = 0;
        while i < n
            invariant
                i <= n,
                n == adjacent@.len(),
                n == dims@.len(),
                forall|s: int, t: int| 0 <= s < t < i ==> adjacent@[s] != adjacent@[t],
                forall|t: int| 0 <= t < i ==> (#[trigger] dims@[t]) >= 1,
            decreases n - i,
        {
            if dims[i] == 0 {
                return Err(GbpError::InvalidSettings);
            }
            let mut j: usize = 0;
            while j < i
                invariant
                    j <= i,
                    i < n,
                    n == adjacent@.len(),
                    forall|s: int| 0 <= s < j ==> adjacent@[s] != adjacent@[i as int],
                decreases i - j,
            {
                if adjacent[j] == adjacent[i] {
                    return Err(GbpError::InvalidSettings);
                }
                j += 1;
            }
            proof {
                assert forall|s: int, t: int| 0 <= s < t < i + 1 implies adjacent@[s]
                    != adjacent@[t] by {
                    if t < i {
                    } else {
                        assert(adjacent@[s] != adjacent@[i as int]);
                    }
                }
            }
            i += 1;
        }
        // the blocks must concatenate to exactly the model's dimension
        let mut d: usize = 0;
        let mut t: usize = 0;
        while t < n
            invariant
                t <= n,
                n == dims@.len(),
                d == off(dims@, t as int),
            decreases n - t,
        {
            d = match d.checked_add(dims[t]) {
                Some(v) => v,
                None => {
                    proof {
                        crate::offsets::lemma_off_monotone(dims@, t + 1 as int, n as int);
                        assert(off(dims@, t + 1 as int) == off(dims@, t as int)
                            + dims@[t as int]);
                        assert(total(dims@) > usize::MAX);
                    }
                    return Err(GbpError::DimensionMismatch);
                },
            };
            t += 1;
        }
        if model.dimension() != d {
            return Err(GbpError::DimensionMismatch);
        }
        if loss.base_precision.rows != model.measurement_len() {
            return Err(GbpError::DimensionMismatch);
        }
        let mut outbox: Vec<Gaussian> = Vec::new();
        let mut u: usize = 0;
        while u < n
            invariant
                u <= n,
                n == dims@.len(),
                outbox@.len() == u,
                forall|t2: int|
                    0 <= t2 < u ==> (#[trigger] outbox@[t2]).wf() && outbox@[t2].dim()
                        == dims@[t2],
                forall|t2: int, k: int|
                    0 <= t2 < u && 0 <= k < dims@[t2] ==> (#[trigger] outbox@[t2].eta@[k])@
                        == rzero(),
                forall|t2: int, p: int, q: int|
                    0 <= t2 < u && 0 <= p < dims@[t2] && 0 <= q < dims@[t2]
                        ==> (#[trigger] outbox@[t2].lam.at(p, q)) == rzero(),
            decreases n - u,
        {
            outbox.push(Gaussian::new(dims[u]));
            u += 1;
        }
        Ok(
            Factor {
                id,
                adjacent,
                dims,
                model,
                loss,
                x0: vec_zeros(d),
                gaussian: Gaussian::new(d),
                outbox,
                iterations_since_relinearisation: 0,
            },
        )
    }

    /// Linearise the factor around the adjacency mean `x`: cache `x` as the
    /// new linearisation point, and rebuild the factor Gaussian as
    /// `lam = J' W J`, `eta = J' W (J x + r)`.  On failure the factor is left
    /// unchanged.
    pub fn compute(&mut self, x: &Vec<Rat>) -> (r: Result<(), GbpError>)
        requires
            old(self).wf(),
            vec_wf(x@),
            x@.len() == old(self).dim(),
        ensures
            final(self).wf(),
            final(self).id == old(self).id,
            final(self).adjacent == old(self).adjacent,
            final(self).dims == old(self).dims,
            final(self).model == old(self).model,
            final(self).loss == old(self).loss,
            final(self).outbox == old(self).outbox,
            r matches Ok(()) ==> {
                &&& final(self).x0@ == x@
                &&& final(self).iterations_since_relinearisation == 0
                &&& factor_gaussian_rel(
                    final(self).gaussian,
                    old(self).model,
                    old(self).loss,
                    rats(x@),
                )
            },
            r is Err ==> *final(self) == *old(self),
    {
        let jm: Mat = match self.model.jacobian_mat(x) {
            Some(m) => m,
            None => {
                return Err(GbpError::Overflow);
            },
        };
        let wm: Mat = match self.loss.effective_precision() {
            Some(m) => m,
            None => {
                return Err(GbpError::Overflow);
            },
        };
        let wj: Mat = match matmul(&wm, &jm) {
            Some(m) => m,
            None => {
                return Err(GbpError::Overflow);
            },
        };
        let jt: Mat = transpose(&jm);
        let lam: Mat = match matmul(&jt, &wj) {
            Some(m) => m,
            None => {
                return Err(GbpError::Overflow);
            },
        };
        let px: Vec<Rat> = match self.model.predict(x) {
            Some(v) => v,
            None => {
                return Err(GbpError::Overflow);
            },
        };
        let z: Vec<Rat> = self.model.measurement_vec();
        let rv: Vec<Rat> = match vec_sub(&z, &px) {
            Some(v) => v,
            None => {
                return Err(GbpError::Overflow);
            },
        };
        let jx: Vec<Rat> = match matvec(&jm, x) {
            Some(v) => v,
            None => {
                return Err(GbpError::Overflow);
            },
        };
        let sv: Vec<Rat> = match vec_add(&jx, &rv) {
            Some(v) => v,
            None => {
                return Err(GbpError::Overflow);
            },
        };
        let ws: Vec<Rat> = match matvec(&wm, &sv) {
            Some(v) => v,
            None => {
                return Err(GbpError::Overflow);
            },
        };
        let eta: Vec<Rat> = match matvec(&jt, &ws) {
            Some(v) => v,
            None => {
                return Err(GbpError::Overflow);
            },
        };
        let g: Gaussian = match Gaussian::from(eta, lam) {
            Ok(g) => g,
            Err(e) => {
                return Err(e);
            },
        };
        proof {
            let xs = rats(x@);
            let model = self.model;
            // rows of the transpose are columns of the Jacobian
            assert forall|p: int| 0 <= p < model.dim() implies rowv(jt, p) =~= colv(jm, p) by {
                assert(forall|k: int|
                    0 <= k < jt.cols ==> #[trigger] rowv(jt, p)[k] == jt.at(p, k));
                assert(forall|k: int|
                    0 <= k < jm.rows ==> #[trigger] colv(jm, p)[k] == jm.at(k, p));
            }
            // the residual relation composes subtraction with the prediction
            assert forall|i: int| 0 <= i < model.zlen() implies rat_eq(
                #[trigger] rv@[i]@,
                rsub(model.z_at(i), model.predict_at(xs, i)),
            ) by {
                lemma_model_specs_wf(model, xs, i);
                lemma_rsub_congruence(z@[i]@, model.z_at(i), px@[i]@, model.predict_at(xs, i));
                lemma_radd_wf(z@[i]@, px@[i]@);
                lemma_radd_wf(model.z_at(i), model.predict_at(xs, i));
                lemma_rat_eq_trans(
                    rv@[i]@,
                    rsub(z@[i]@, px@[i]@),
                    rsub(model.z_at(i), model.predict_at(xs, i)),
                );
            }
            assert(factor_gaussian_witness(
                g,
                self.model,
                self.loss,
                xs,
                jm,
                wm,
                wj,
                jx@,
                rv@,
                sv@,
                ws@,
            ));
        }
        self.gaussian = g;
        self.x0 = vec_copy(x);
        self.iterations_since_relinearisation = 0;
        Ok(())
    }

    /// The residual `z - h(x)` at the adjacency mean `x`.
    pub fn residual(&self, x: &Vec<Rat>) -> (r: Result<Vec<Rat>, GbpError>)
        requires
            self.wf(),
            vec_wf(x@),
            x@.len() == self.dim(),
        ensures
            r matches Ok(rv) ==> residual_rel(self.model, rats(x@), rv@),
            r matches Err(e) ==> e is Overflow,
    {
        let px: Vec<Rat> = match self.model.predict(x) {
            Some(v) => v,
            None => {
                return Err(GbpError::Overflow);
            },
        };
        let z: Vec<Rat> = self.model.measurement_vec();
        let rv: Vec<Rat> = match vec_sub(&z, &px) {
            Some(v) => v,
            None => {
                return Err(GbpError::Overflow);
            },
        };
        proof {
            let xs = rats(x@);
            let model = self.model;
            assert forall|i: int| 0 <= i < model.zlen() implies rat_eq(
                #[trigger] rv@[i]@,
                rsub(model.z_at(i), model.predict_at(xs, i)),
            ) by {
                lemma_model_specs_wf(model, xs, i);
                lemma_rsub_congruence(z@[i]@, model.z_at(i), px@[i]@, model.predict_at(xs, i));
                lemma_radd_wf(z@[i]@, px@[i]@);
                lemma_radd_wf(model.z_at(i), model.predict_at(xs, i));
                lemma_rat_eq_trans(
                    rv@[i]@,
                    rsub(z@[i]@, px@[i]@),
                    rsub(model.z_at(i), model.predict_at(xs, i)),
                );
            }
        }
        Ok(rv)
    }

    /// The factor's energy `r' W r` at the adjacency mean `x`, measured with
    /// the current loss scale.
    pub fn energy(&self, x: &Vec<Rat>) -> (r: Result<Rat, GbpError>)
        requires
            self.wf(),
            vec_wf(x@),
            x@.len() == self.dim(),
        ensures
            r matches Ok(e) ==> e.wf() && factor_energy_rel(e@, self.model, self.loss, rats(x@)),
            r matches Err(e) ==> e is Overflow,
    {
        let rv: Vec<Rat> = match self.residual(x) {
            Ok(v) => v,
            Err(e) => {
                return Err(e);
            },
        };
        let wm: Mat = match self.loss.effective_precision() {
            Some(m) => m,
            None => {
                return Err(GbpError::Overflow);
            },
        };
        let wv: Vec<Rat> = match matvec(&wm, &rv) {
            Some(v) => v,
            None => {
                return Err(GbpError::Overflow);
            },
        };
        let e: Rat = match dot(&rv, &wv) {
            Some(v) => v,
            None => {
                return Err(GbpError::Overflow);
            },
        };
        proof {
            assert(energy_witness(e@, self.model, self.loss, rats(x@), rv@, wm, wv@));
        }
        Ok(e)
    }
}

/// The augmented Gaussian of a factor for target neighbour `t`: the factor's
/// own Gaussian with every other neighbour's incoming message added into that
/// neighbour's diagonal block.  Positions are classified by `block_of`.
pub open spec fn aug_rel(
    aug: Gaussian,
    g: Gaussian,
    dims: Seq<usize>,
    incoming: Seq<Gaussian>,
    t: int,
) -> bool {
    &&& aug.dim() == g.dim()
    &&& forall|p: int|
        #![trigger crate::offsets::block_of(dims, p)]
        0 <= p < g.dim() ==> {
            let bp = crate::offsets::block_of(dims, p);
            if bp != t {
                rat_eq(
                    aug.eta@[p]@,
                    radd(g.eta@[p]@, incoming[bp].eta@[p - off(dims, bp)]@),
                )
            } else {
                aug.eta@[p] == g.eta@[p]
            }
        }
    &&& forall|p: int, q: int|
        #![trigger crate::offsets::block_of(dims, p), crate::offsets::block_of(dims, q)]
        0 <= p < g.dim() && 0 <= q < g.dim() ==> {
            let bp = crate::offsets::block_of(dims, p);
            let bq = crate::offsets::block_of(dims, q);
            if bp == bq && bp != t {
                rat_eq(
                    aug.lam.at(p, q),
                    radd(
                        g.lam.at(p, q),
                        incoming[bp].lam.at(p - off(dims, bp), q - off(dims, bq)),
                    ),
                )
            } else {
                aug.lam.at(p, q) == g.lam.at(p, q)
            }
        }
}

impl Factor {
    /// Build the augmented Gaussian for target neighbour `t`: every other
    /// neighbour's incoming message is added into its own diagonal block of
    /// the factor Gaussian.
    fn augmented(&self, incoming: &Vec<Gaussian>, t: usize) -> (r: Result<Gaussian, GbpError>)
        requires
            self.wf(),
            incoming@.len() == self.adjacent@.len(),
            forall|s: int|
                0 <= s < incoming@.len() ==> (#[trigger] incoming@[s]).wf() && incoming@[s].dim()
                    == self.dims@[s],
            t < self.adjacent@.len(),
        ensures
            r matches Ok(aug) ==> {
                &&& aug.wf()
                &&& aug.dim() == self.dim()
                &&& aug_rel(aug, self.gaussian, self.dims@, incoming@, t as int)
            },
            r matches Err(e) ==> e is Overflow,
            self.adjacent@.len() == 1 ==> r is Ok,
    {
        let d: usize = self.x0.len();
        let mut eta: Vec<Rat> = Vec::new();
        let mut p: usize = 0;
        while p < d
            invariant
                p <= d,
                d == self.dim(),
                self.wf(),
                t < self.adjacent@.len(),
                incoming@.len() == self.adjacent@.len(),
                forall|s2: int|
                    0 <= s2 < incoming@.len() ==> (#[trigger] incoming@[s2]).wf()
                        && incoming@[s2].dim() == self.dims@[s2],
                eta@.len() == p,
                vec_wf(eta@),
                forall|p2: int|
                    0 <= p2 < p ==> {
                        let bp = crate::offsets::block_of(self.dims@, p2);
                        if bp != t {
                            rat_eq(
                                (#[trigger] eta@[p2])@,
                                radd(
                                    self.gaussian.eta@[p2]@,
                                    incoming@[bp].eta@[p2 - off(self.dims@, bp)]@,
                                ),
                            )
                        } else {
                            eta@[p2] == self.gaussian.eta@[p2]
                        }
                    },
            decreases d - p,
        {
            let bo: (usize, usize) = crate::offsets::block_index(&self.dims, p);
            let b: usize = bo.0;
            let o: usize = bo.1;
            if b != t {
                let v: Rat = match self.gaussian.eta[p].add(&incoming[b].eta[p - o]) {
                    Some(v) => v,
                    None => {
                        return Err(GbpError::Overflow);
                    },
                };
                eta.push(v);
            } else {
                eta.push(self.gaussian.eta[p]);
            }
            p += 1;
        }
        let mut m: Vec<Vec<Rat>> = Vec::new();
        let mut i: usize = 0;
        while i < d
            invariant
                i <= d,
                d == self.dim(),
                self.wf(),
                t < self.adjacent@.len(),
                incoming@.len() == self.adjacent@.len(),
                forall|s2: int|
                    0 <= s2 < incoming@.len() ==> (#[trigger] incoming@[s2]).wf()
                        && incoming@[s2].dim() == self.dims@[s2],
                m@.len() == i,
                forall|p2: int| 0 <= p2 < i ==> (#[trigger] m@[p2])@.len() == d,
                forall|p2: int, q2: int|
                    0 <= p2 < i && 0 <= q2 < d ==> (#[trigger] m@[p2]@[q2]).wf(),
                forall|p2: int, q2: int|
                    0 <= p2 < i && 0 <= q2 < d ==> {
                        let bp = crate::offsets::block_of(self.dims@, p2);
                        let bq = crate::offsets::block_of(self.dims@, q2);
                        if bp == bq && bp != t {
                            rat_eq(
                                (#[trigger] m@[p2]@[q2])@,
                                radd(
                                    self.gaussian.lam.at(p2, q2),
                                    incoming@[bp].lam.at(
                                        p2 - off(self.dims@, bp),
                                        q2 - off(self.dims@, bq),
                                    ),
                                ),
                            )
                        } else {
                            m@[p2]@[q2]@ == self.gaussian.lam.at(p2, q2)
                        }
                    },
            decreases d - i,
        {
            let bi_oi: (usize, usize) = crate::offsets::block_index(&self.dims, i);
            let bi: usize = bi_oi.0;
            let oi: usize = bi_oi.1;
            let mut row: Vec<Rat> = Vec::new();
            let mut j: usize = 0;
            while j < d
                invariant
                    j <= d,
                    i < d,
                    d == self.dim(),
                    self.wf(),
                    t < self.adjacent@.len(),
                    incoming@.len() == self.adjacent@.len(),
                    forall|s2: int|
                        0 <= s2 < incoming@.len() ==> (#[trigger] incoming@[s2]).wf()
                            && incoming@[s2].dim() == self.dims@[s2],
                    bi == crate::offsets::block_of(self.dims@, i as int),
                    bi < self.dims@.len(),
                    oi == off(self.dims@, bi as int),
                    oi <= i < oi + self.dims@[bi as int],
                    row@.len() == j,
                    vec_wf(row@),
                    forall|q2: int|
                        0 <= q2 < j ==> {
                            let bq = crate::offsets::block_of(self.dims@, q2);
                            if bi == bq && bi != t {
                                rat_eq(
                                    (#[trigger] row@[q2])@,
                                    radd(
                                        self.gaussian.lam.at(i as int, q2),
                                        incoming@[bi as int].lam.at(
                                            i - off(self.dims@, bi as int),
                                            q2 - off(self.dims@, bq),
                                        ),
                                    ),
                                )
                            } else {
                                row@[q2]@ == self.gaussian.lam.at(i as int, q2)
                            }
                        },
                decreases d - j,
            {
                let bj_oj: (usize, usize) = crate::offsets::block_index(&self.dims, j);
                let bj: usize = bj_oj.0;
                let oj: usize = bj_oj.1;
                if bi == bj && bi != t {
                    let v: Rat = match self.gaussian.lam.get(i, j).add(
                        &incoming[bi].lam.get(i - oi, j - oj),
                    ) {
                        Some(v) => v,
                        None => {
                            return Err(GbpError::Overflow);
                        },
                    };
                    row.push(v);
                } else {
                    row.push(self.gaussian.lam.get(i, j));
                }
                j += 1;
            }
            m.push(row);
            i += 1;
        }
        let lam: Mat = Mat { rows: d, cols: d, m };
        proof {
            // the closed form is symmetric: block membership is symmetric in
            // the two positions and both summands are symmetric
            assert forall|i2: int, j2: int|
                0 <= i2 < d && 0 <= j2 < d implies rat_eq(
                #[trigger] lam.at(i2, j2),
                lam.at(j2, i2),
            ) by {
                let bp = crate::offsets::block_of(self.dims@, i2);
                let bq = crate::offsets::block_of(self.dims@, j2);
                crate::offsets::lemma_block_of_correct(self.dims@, i2);
                crate::offsets::lemma_block_of_correct(self.dims@, j2);
                if bp == bq && bp != t {
                    let op = off(self.dims@, bp);
                    let a1 = self.gaussian.lam.at(i2, j2);
                    let a2 = self.gaussian.lam.at(j2, i2);
                    let b1 = incoming@[bp].lam.at(i2 - op, j2 - op);
                    let b2 = incoming@[bp].lam.at(j2 - op, i2 - op);
                    crate::rat::lemma_radd_congruence(a1, a2, b1, b2);
                    lemma_radd_wf(a1, b1);
                    lemma_radd_wf(a2, b2);
                    lemma_rat_eq_trans(lam.at(i2, j2), radd(a1, b1), radd(a2, b2));
                    lemma_rat_eq_sym(lam.at(j2, i2), radd(a2, b2));
                    lemma_rat_eq_trans(lam.at(i2, j2), radd(a2, b2), lam.at(j2, i2));
                } else {
                    assert(lam.at(i2, j2) == self.gaussian.lam.at(i2, j2));
                    assert(lam.at(j2, i2) == self.gaussian.lam.at(j2, i2));
                }
            }
        }
        Ok(Gaussian { eta, lam })
    }
}


/// Index of the `k`-th position of the complement of the block `[a, a+d)`.
pub open spec fn cm(a: int, d: int, k: int) -> int {
    if k < a {
        k
    } else {
        k + d
    }
}

/// The witness chain of a Schur-complement marginalisation of `aug` onto the
/// block `[a, a+d)`:
/// `lam_out = lam_aa - lam_ab lam_bb^-1 lam_ba` and
/// `eta_out = eta_a - lam_ab lam_bb^-1 eta_b`.
pub open spec fn marg_witness(
    out: Gaussian,
    aug: Gaussian,
    a: int,
    d: int,
    lab: Mat,
    lbb: Mat,
    lba: Mat,
    w: Mat,
    p1: Mat,
    p2: Mat,
    eb: Seq<Rat>,
    y: Seq<Rat>,
) -> bool {
    let c = aug.dim() - d;
    &&& lab.wf() && lab.rows == d && lab.cols == c
    &&& forall|i: int, j: int|
        0 <= i < d && 0 <= j < c ==> #[trigger] lab.at(i, j) == aug.lam.at(a + i, cm(a, d, j))
    &&& lbb.wf() && lbb.rows == c && lbb.cols == c
    &&& forall|i: int, j: int|
        0 <= i < c && 0 <= j < c ==> #[trigger] lbb.at(i, j) == aug.lam.at(cm(a, d, i), cm(a, d, j))
    &&& lba.wf() && lba.rows == c && lba.cols == d
    &&& forall|i: int, j: int|
        0 <= i < c && 0 <= j < d ==> #[trigger] lba.at(i, j) == aug.lam.at(cm(a, d, i), a + j)
    &&& w.wf() && w.rows == c && w.cols == c
    &&& forall|i: int, j: int|
        0 <= i < c && 0 <= j < c ==> rat_eq(
            rdot(rowv(lbb, i), crate::linalg::colv(w, j)),
            #[trigger] crate::linalg::kron(i, j),
        )
    &&& p1.wf() && p1.rows == d && p1.cols == c
    &&& forall|i: int, j: int|
        0 <= i < d && 0 <= j < c ==> rat_eq(
            #[trigger] p1.at(i, j),
            rdot(rowv(lab, i), crate::linalg::colv(w, j)),
        )
    &&& p2.wf() && p2.rows == d && p2.cols == d
    &&& forall|i: int, j: int|
        0 <= i < d && 0 <= j < d ==> rat_eq(
            #[trigger] p2.at(i, j),
            rdot(rowv(p1, i), crate::linalg::colv(lba, j)),
        )
    &&& out.lam.rows == d && out.lam.cols == d
    &&& forall|i: int, j: int|
        0 <= i < d && 0 <= j < d ==> rat_eq(
            #[trigger] out.lam.at(i, j),
            rsub(aug.lam.at(a + i, a + j), p2.at(i, j)),
        )
    &&& eb.len() == c && vec_wf(eb)
    &&& forall|k: int| 0 <= k < c ==> #[trigger] eb[k] == aug.eta@[cm(a, d, k)]
    &&& y.len() == d && vec_wf(y)
    &&& forall|i: int| 0 <= i < d ==> rat_eq(#[trigger] y[i]@, rdot(rowv(p1, i), rats(eb)))
    &&& out.eta@.len() == d
    &&& forall|i: int|
        0 <= i < d ==> rat_eq(#[trigger] out.eta@[i]@, rsub(aug.eta@[a + i]@, y[i]@))
}

/// `out` equals `aug` exactly (the marginal onto the whole space).
pub open spec fn marg_exact(out: Gaussian, aug: Gaussian) -> bool {
    &&& out.dim() == aug.dim()
    &&& out.eta@ == aug.eta@
    &&& forall|i: int, j: int|
        0 <= i < aug.dim() && 0 <= j < aug.dim() ==> #[trigger] out.lam.at(i, j) == aug.lam.at(
            i,
            j,
        )
}

/// `out` is the marginal of `aug` onto the block `[a, a+d)`: either the
/// block is the whole space and the marginal is `aug` itself, or a Schur
/// complement witness chain exists.
pub open spec fn marg_rel(out: Gaussian, aug: Gaussian, a: int, d: int) -> bool {
    ||| (d == aug.dim() && marg_exact(out, aug))
    ||| exists|lab: Mat, lbb: Mat, lba: Mat, w: Mat, p1: Mat, p2: Mat, eb: Seq<Rat>, y: Seq<Rat>|
        #[trigger] marg_witness(out, aug, a, d, lab, lbb, lba, w, p1, p2, eb, y)
}

/// Marginalise `aug` onto the block `[a, a+d)` by Schur complement on the
/// complement block.  A singular complement is reported as `Singular`; the
/// caller treats that as recoverable.
fn marginalise(aug: &Gaussian, a: usize, d: usize) -> (r: Result<Gaussian, GbpError>)
    requires
        aug.wf(),
        a + d <= aug.dim(),
        d >= 1,
    ensures
        r matches Ok(out) ==> {
            &&& out.wf()
            &&& out.dim() == d
            &&& marg_rel(out, *aug, a as int, d as int)
            &&& d == aug.dim() ==> marg_exact(out, *aug)
        },
        r matches Err(e) ==> (e is Singular || e is Overflow || e is DimensionMismatch),
        d == aug.dim() ==> r is Ok,
{
    let n: usize = aug.eta.len();
    if d == n {
        let out: Gaussian = aug.copy();
        proof {
            assert(marg_exact(out, *aug));
        }
        return Ok(out);
    }
    let c: usize = n - d;
    // gather the four blocks under the permutation (target, complement)
    let mut lab_rows: Vec<Vec<Rat>> = Vec::new();
    let mut i: usize = 0;
    while i < d
        invariant
            i <= d,
            a + d <= n,
            n == aug.dim(),
            c == n - d,
            aug.wf(),
            lab_rows@.len() == i,
            forall|p: int| 0 <= p < i ==> (#[trigger] lab_rows@[p])@.len() == c,
            forall|p: int, q: int|
                0 <= p < i && 0 <= q < c ==> (#[trigger] lab_rows@[p]@[q]).wf(),
            forall|p: int, q: int|
                0 <= p < i && 0 <= q < c ==> (#[trigger] lab_rows@[p]@[q])@ == aug.lam.at(
                    a + p,
                    cm(a as int, d as int, q),
                ),
        decreases d - i,
    {
        let mut row: Vec<Rat> = Vec::new();
        let mut j: usize = 0;
        while j < c
            invariant
                j <= c,
                i < d,
                a + d <= n,
                n == aug.dim(),
                c == n - d,
                aug.wf(),
                row@.len() == j,
                vec_wf(row@),
                forall|q: int|
                    0 <= q < j ==> (#[trigger] row@[q])@ == aug.lam.at(
                        a + i,
                        cm(a as int, d as int, q),
                    ),
            decreases c - j,
        {
            let src: usize = if j < a {
                j
            } else {
                j + d
            };
            row.push(aug.lam.get(a + i, src));
            j += 1;
        }
        lab_rows.push(row);
        i += 1;
    }
    let lab: Mat = Mat { rows: d, cols: c, m: lab_rows };
    let mut lbb_rows: Vec<Vec<Rat>> = Vec::new();
    let mut i2: usize = 0;
    while i2 < c
        invariant
            i2 <= c,
            a + d <= n,
            n == aug.dim(),
            c == n - d,
            aug.wf(),
            lbb_rows@.len() == i2,
            forall|p: int| 0 <= p < i2 ==> (#[trigger] lbb_rows@[p])@.len() == c,
            forall|p: int, q: int|
                0 <= p < i2 && 0 <= q < c ==> (#[trigger] lbb_rows@[p]@[q]).wf(),
            forall|p: int, q: int|
                0 <= p < i2 && 0 <= q < c ==> (#[trigger] lbb_rows@[p]@[q])@ == aug.lam.at(
                    cm(a as int, d as int, p),
                    cm(a as int, d as int, q),
                ),
        decreases c - i2,
    {
        let srci: usize = if i2 < a {
            i2
        } else {
            i2 + d
        };
        let mut row: Vec<Rat> = Vec::new();
        let mut j: usize = 0;
        while j < c
            invariant
                j <= c,
                i2 < c,
                a + d <= n,
                n == aug.dim(),
                c == n - d,
                aug.wf(),
                srci == cm(a as int, d as int, i2 as int),
                srci < n,
                row@.len() == j,
                vec_wf(row@),
                forall|q: int|
                    0 <= q < j ==> (#[trigger] row@[q])@ == aug.lam.at(
                        cm(a as int, d as int, i2 as int),
                        cm(a as int, d as int, q),
                    ),
            decreases c - j,
        {
            let src: usize = if j < a {
                j
            } else {
                j + d
            };
            row.push(aug.lam.get(srci, src));
            j += 1;
        }
        lbb_rows.push(row);
        i2 += 1;
    }
    let lbb: Mat = Mat { rows: c, cols: c, m: lbb_rows };
    let mut lba_rows: Vec<Vec<Rat>> = Vec::new();
    let mut i3: usize = 0;
    while i3 < c
        invariant
            i3 <= c,
            a + d <= n,
            n == aug.dim(),
            c == n - d,
            aug.wf(),
            lba_rows@.len() == i3,
            forall|p: int| 0 <= p < i3 ==> (#[trigger] lba_rows@[p])@.len() == d,
            forall|p: int, q: int|
                0 <= p < i3 && 0 <= q < d ==> (#[trigger] lba_rows@[p]@[q]).wf(),
            forall|p: int, q: int|
                0 <= p < i3 && 0 <= q < d ==> (#[trigger] lba_rows@[p]@[q])@ == aug.lam.at(
                    cm(a as int, d as int, p),
                    a + q,
                ),
        decreases c - i3,
    {
        let srci: usize = if i3 < a {
            i3
        } else {
            i3 + d
        };
        let mut row: Vec<Rat> = Vec::new();
        let mut j: usize = 0;
        while j < d
            invariant
                j <= d,
                i3 < c,
                a + d <= n,
                n == aug.dim(),
                c == n - d,
                aug.wf(),
                srci == cm(a as int, d as int, i3 as int),
                srci < n,
                row@.len() == j,
                vec_wf(row@),
                forall|q: int|
                    0 <= q < j ==> (#[trigger] row@[q])@ == aug.lam.at(
                        cm(a as int, d as int, i3 as int),
                        a + q,
                    ),
            decreases d - j,
        {
            row.push(aug.lam.get(srci, a + j));
            j += 1;
        }
        lba_rows.push(row);
        i3 += 1;
    }
    let lba: Mat = Mat { rows: c, cols: d, m: lba_rows };
    let mut eb: Vec<Rat> = Vec::new();
    let mut k: usize = 0;
    while k < c
        invariant
            k <= c,
            a + d <= n,
            n == aug.dim(),
            c == n - d,
            aug.wf(),
            eb@.len() == k,
            vec_wf(eb@),
            forall|q: int| 0 <= q < k ==> #[trigger] eb@[q] == aug.eta@[cm(a as int, d as int, q)],
        decreases c - k,
    {
        let src: usize = if k < a {
            k
        } else {
            k + d
        };
        eb.push(aug.eta[src]);
        k += 1;
    }
    let w: Mat = match crate::linalg::inverse(&lbb) {
        Ok(m) => m,
        Err(e) => {
            return Err(e);
        },
    };
    let p1: Mat = match matmul(&lab, &w) {
        Some(m) => m,
        None => {
            return Err(GbpError::Overflow);
        },
    };
    let p2: Mat = match matmul(&p1, &lba) {
        Some(m) => m,
        None => {
            return Err(GbpError::Overflow);
        },
    };
    let laa: Mat = crate::linalg::submat(&aug.lam, a, a, d, d);
    let lam_out: Mat = match crate::linalg::mat_sub(&laa, &p2) {
        Some(m) => m,
        None => {
            return Err(GbpError::Overflow);
        },
    };
    let ea: Vec<Rat> = crate::linalg::subvec(&aug.eta, a, d);
    let y: Vec<Rat> = match matvec(&p1, &eb) {
        Some(v) => v,
        None => {
            return Err(GbpError::Overflow);
        },
    };
    let eta_out: Vec<Rat> = match vec_sub(&ea, &y) {
        Some(v) => v,
        None => {
            return Err(GbpError::Overflow);
        },
    };
    let out: Gaussian = match Gaussian::from(eta_out, lam_out) {
        Ok(g) => g,
        Err(e) => {
            return Err(e);
        },
    };
    proof {
        assert forall|i4: int, j4: int| 0 <= i4 < d && 0 <= j4 < d implies rat_eq(
            #[trigger] out.lam.at(i4, j4),
            rsub(aug.lam.at(a + i4, a + j4), p2.at(i4, j4)),
        ) by {
            assert(laa.at(i4, j4) == aug.lam.at(a + i4, a + j4));
        }
        assert forall|i4: int| 0 <= i4 < d implies rat_eq(
            #[trigger] out.eta@[i4]@,
            rsub(aug.eta@[a + i4]@, y@[i4]@),
        ) by {
            assert(ea@[i4] == aug.eta@[a + i4]);
        }
        assert(marg_witness(
            out,
            *aug,
            a as int,
            d as int,
            lab,
            lbb,
            lba,
            w,
            p1,
            p2,
            eb@,
            y@,
        ));
    }
    Ok(out)
}

/// What the message sweep did with one outgoing message.
#[derive(Clone, Copy, Debug, PartialEq, Eq, Structural)]
pub enum MessageOutcome {
    /// A fresh (damped) message was computed and stored.
    Stored,
    /// The previous message was kept: the named degeneracy (a singular
    /// Schur complement, machine-word exhaustion, or a failed symmetry
    /// check) stopped this neighbour's marginalisation.
    Kept(GbpError),
}

/// The witness pair behind one freshly stored outgoing message: an augmented
/// Gaussian, its marginal onto the target block, and (unless damping is
/// zero) the damped blend with the previous message.
pub open spec fn message_witness(
    msg: Gaussian,
    g: Gaussian,
    dims: Seq<usize>,
    incoming: Seq<Gaussian>,
    damping: Ratio,
    prev: Gaussian,
    t: int,
    aug: Gaussian,
    out: Gaussian,
) -> bool {
    &&& aug.wf()
    &&& aug.dim() == total(dims)
    &&& aug_rel(aug, g, dims, incoming, t)
    &&& out.wf()
    &&& out.dim() == dims[t]
    &&& marg_rel(out, aug, off(dims, t), dims[t] as int)
    &&& if rat_eq(damping, rzero()) {
        msg == out
    } else {
        &&& msg.dim() == out.dim()
        &&& forall|k: int|
            0 <= k < out.dim() ==> rat_eq(
                #[trigger] msg.eta@[k]@,
                radd(
                    rmul(rsub(crate::rat::rone(), damping), out.eta@[k]@),
                    rmul(damping, prev.eta@[k]@),
                ),
            )
        &&& forall|i: int, j: int|
            0 <= i < out.dim() && 0 <= j < out.dim() ==> rat_eq(
                #[trigger] msg.lam.at(i, j),
                radd(
                    rmul(rsub(crate::rat::rone(), damping), out.lam.at(i, j)),
                    rmul(damping, prev.lam.at(i, j)),
                ),
            )
    }
}

/// `msg` is a correctly computed outgoing message of the factor to neighbour
/// `t`, given the incoming variable-to-factor messages and the damping.
pub open spec fn message_rel(
    msg: Gaussian,
    g: Gaussian,
    dims: Seq<usize>,
    incoming: Seq<Gaussian>,
    damping: Ratio,
    prev: Gaussian,
    t: int,
) -> bool {
    exists|aug: Gaussian, out: Gaussian|
        #[trigger] message_witness(msg, g, dims, incoming, damping, prev, t, aug, out)
}

impl Factor {
    /// Compute the outgoing messages to all neighbours: aggregate the other
    /// neighbours' incoming messages, marginalise onto each target block by
    /// Schur complement, and blend with the previous message under the given
    /// damping.  A degenerate or overflowing marginalisation leaves that
    /// neighbour's message unchanged for this round; message passing is never
    /// aborted.  With a single neighbour and zero damping the outgoing
    /// message is exactly the factor's own Gaussian.
    pub fn compute_messages(&mut self, damping: &Rat, incoming: &Vec<Gaussian>) -> (outcomes: Vec<
        MessageOutcome,
    >)
        requires
            old(self).wf(),
            damping.wf(),
            incoming@.len() == old(self).adjacent@.len(),
            forall|s: int|
                0 <= s < incoming@.len() ==> (#[trigger] incoming@[s]).wf() && incoming@[s].dim()
                    == old(self).dims@[s],
        ensures
            final(self).wf(),
            final(self).id == old(self).id,
            final(self).adjacent == old(self).adjacent,
            final(self).dims == old(self).dims,
            final(self).model == old(self).model,
            final(self).loss == old(self).loss,
            final(self).x0 == old(self).x0,
            final(self).gaussian == old(self).gaussian,
            final(self).outbox@.len() == old(self).outbox@.len(),
            old(self).iterations_since_relinearisation < usize::MAX ==> final(self).iterations_since_relinearisation == old(self).iterations_since_relinearisation + 1,
            forall|t: int|
                0 <= t < old(self).outbox@.len() ==> (#[trigger] final(self).outbox@[t]) == old(self).outbox@[t] || message_rel(
                    final(self).outbox@[t],
                    old(self).gaussian,
                    old(self).dims@,
                    incoming@,
                    damping@,
                    old(self).outbox@[t],
                    t,
                ),
            outcomes@.len() == old(self).adjacent@.len(),
            forall|t: int|
                0 <= t < old(self).outbox@.len() ==> {
                    &&& ((#[trigger] outcomes@[t]) is Stored ==> message_rel(
                        final(self).outbox@[t],
                        old(self).gaussian,
                        old(self).dims@,
                        incoming@,
                        damping@,
                        old(self).outbox@[t],
                        t,
                    ))
                    &&& (outcomes@[t] matches MessageOutcome::Kept(e) ==> final(self).outbox@[t]
                        == old(self).outbox@[t] && (e is Singular || e is Overflow || e
                        is DimensionMismatch))
                },
            (old(self).adjacent@.len() == 1 && rat_eq(damping@, rzero())) ==> {
                &&& outcomes@[0] is Stored
                &&& final(self).outbox@[0].eta@ == old(self).gaussian.eta@
                &&& forall|p: int, q: int|
                    0 <= p < old(self).dim() && 0 <= q < old(self).dim() ==> #[trigger] final(self).outbox@[0].lam.at(p, q) == old(self).gaussian.lam.at(p, q)
            },
    {
        let n: usize = self.adjacent.len();
        let mut outcomes: Vec<MessageOutcome> = Vec::new();
        let mut t: usize = 0;
        while t < n
            invariant
                t <= n,
                n == old(self).adjacent@.len(),
                old(self).wf(),
                damping.wf(),
                incoming@.len() == n,
                forall|s: int|
                    0 <= s < n ==> (#[trigger] incoming@[s]).wf() && incoming@[s].dim() == old(self).dims@[s],
                self.id == old(self).id,
                self.adjacent == old(self).adjacent,
                self.dims == old(self).dims,
                self.model == old(self).model,
                self.loss == old(self).loss,
                self.x0 == old(self).x0,
                self.gaussian == old(self).gaussian,
                self.iterations_since_relinearisation == old(self).iterations_since_relinearisation,
                self.outbox@.len() == n,
                self.wf(),
                forall|u: int| t <= u < n ==> (#[trigger] self.outbox@[u]) == old(self).outbox@[u],
                forall|u: int|
                    0 <= u < t ==> (#[trigger] self.outbox@[u]) == old(self).outbox@[u]
                        || message_rel(
                        self.outbox@[u],
                        old(self).gaussian,
                        old(self).dims@,
                        incoming@,
                        damping@,
                        old(self).outbox@[u],
                        u,
                    ),
                (n == 1 && rat_eq(damping@, rzero()) && t == 1) ==> {
                    &&& outcomes@[0] is Stored
                    &&& self.outbox@[0].eta@ == old(self).gaussian.eta@
                    &&& forall|p: int, q: int|
                        0 <= p < old(self).dim() && 0 <= q < old(self).dim()
                            ==> #[trigger] self.outbox@[0].lam.at(p, q) == old(self).gaussian.lam.at(p, q)
                },
                outcomes@.len() == t,
                forall|u: int|
                    0 <= u < t ==> {
                        &&& ((#[trigger] outcomes@[u]) is Stored ==> message_rel(
                            self.outbox@[u],
                            old(self).gaussian,
                            old(self).dims@,
                            incoming@,
                            damping@,
                            old(self).outbox@[u],
                            u,
                        ))
                        &&& (outcomes@[u] matches MessageOutcome::Kept(e) ==> self.outbox@[u]
                            == old(self).outbox@[u] && (e is Singular || e is Overflow || e
                            is DimensionMismatch))
                    },
            decreases n - t,
        {
            let mut outcome: MessageOutcome = MessageOutcome::Kept(GbpError::Overflow);
            let aug_r: Result<Gaussian, GbpError> = self.augmented(incoming, t);
            match aug_r {
                Err(e) => {
                    proof {
                        if n == 1 {
                            assert(false);
                        }
                    }
                    outcome = MessageOutcome::Kept(e);
                },
                Ok(aug) => {
                    let o: usize = crate::offsets::offset_of(&self.dims, t);
                    proof {
                        crate::offsets::lemma_off_nonneg(self.dims@, t as int);
                        crate::offsets::lemma_off_monotone(self.dims@, t + 1 as int, n as int);
                        assert(off(self.dims@, t + 1 as int) == off(self.dims@, t as int)
                            + self.dims@[t as int]);
                    }
                    let bd: usize = self.dims[t];
                    let marg_r: Result<Gaussian, GbpError> = marginalise(&aug, o, bd);
                    match marg_r {
                        Err(e) => {
                            outcome = MessageOutcome::Kept(e);
                            proof {
                                if n == 1 {
                                    assert(bd == aug.dim());
                                    assert(false);
                                }
                            }
                        },
                        Ok(out) => {
                            if damping.is_zero() {
                                proof {
                                    assert(message_witness(
                                        out,
                                        old(self).gaussian,
                                        old(self).dims@,
                                        incoming@,
                                        damping@,
                                        old(self).outbox@[t as int],
                                        t as int,
                                        aug,
                                        out,
                                    ));
                                    if n == 1 {
                                        assert forall|p: int|
                                            0 <= p < aug.dim() implies aug.eta@[p] == old(self).gaussian.eta@[p] by {
                                            crate::offsets::lemma_block_of_correct(
                                                self.dims@,
                                                p,
                                            );
                                        }
                                        assert(aug.eta@ =~= old(self).gaussian.eta@);
                                        assert forall|p: int, q: int|
                                            0 <= p < aug.dim() && 0 <= q < aug.dim()
                                            implies #[trigger] aug.lam.at(p, q) == old(self).gaussian.lam.at(p, q) by {
                                            crate::offsets::lemma_block_of_correct(
                                                self.dims@,
                                                p,
                                            );
                                            crate::offsets::lemma_block_of_correct(
                                                self.dims@,
                                                q,
                                            );
                                        }
                                        assert(out.eta@ == old(self).gaussian.eta@);
                                    }
                                }
                                self.outbox[t] = out;
                                outcome = MessageOutcome::Stored;
                            } else {
                                let prev_blend: Option<Gaussian> = crate::gaussian::blend(
                                    &out,
                                    &self.outbox[t],
                                    damping,
                                );
                                match prev_blend {
                                    Some(msg) => {
                                        proof {
                                            assert(message_witness(
                                                msg,
                                                old(self).gaussian,
                                                old(self).dims@,
                                                incoming@,
                                                damping@,
                                                old(self).outbox@[t as int],
                                                t as int,
                                                aug,
                                                out,
                                            ));
                                        }
                                        self.outbox[t] = msg;
                                        outcome = MessageOutcome::Stored;
                                    },
                                    None => {},
                                }
                            }
                        },
                    }
                },
            }
            outcomes.push(outcome);
            t += 1;
        }
        if self.iterations_since_relinearisation < usize::MAX {
            self.iterations_since_relinearisation = self.iterations_since_relinearisation + 1;
        }
        outcomes
    }
}
} // verus!
