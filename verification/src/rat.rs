//! Exact rational scalars.
//!
//! The solver's numeric state is rational: every value is a pair of an `i128`
//! numerator and a positive `i128` denominator.  Specifications speak about
//! the mathematical pair [`Ratio`]; two pairs denote the same rational number
//! exactly when their cross products agree ([`rat_eq`]).  Executable
//! operations use checked arithmetic and return `None` when a result does not
//! fit the machine word, so no verified function here can overflow or panic.

use vstd::arithmetic::mul::lemma_mul_strictly_positive;
use vstd::prelude::*;

verus! {

/// A rational number at the specification level: an integer pair whose
/// denominator is positive when well formed.
pub struct Ratio {
    pub num: int,
    pub den: int,
}

/// A well-formed specification-level rational has a positive denominator.
pub open spec fn rat_wf(a: Ratio) -> bool {
    a.den > 0
}

/// Two pairs denote the same rational number: a/b == c/d iff a*d == c*b.
pub open spec fn rat_eq(a: Ratio, b: Ratio) -> bool {
    a.num * b.den == b.num * a.den
}

pub open spec fn rzero() -> Ratio {
    Ratio { num: 0, den: 1 }
}

pub open spec fn rone() -> Ratio {
    Ratio { num: 1, den: 1 }
}

pub open spec fn radd(a: Ratio, b: Ratio) -> Ratio {
    Ratio { num: a.num * b.den + b.num * a.den, den: a.den * b.den }
}

pub open spec fn rsub(a: Ratio, b: Ratio) -> Ratio {
    Ratio { num: a.num * b.den - b.num * a.den, den: a.den * b.den }
}

pub open spec fn rmul(a: Ratio, b: Ratio) -> Ratio {
    Ratio { num: a.num * b.num, den: a.den * b.den }
}

pub open spec fn rneg(a: Ratio) -> Ratio {
    Ratio { num: -a.num, den: a.den }
}

/// a <= b as rationals, assuming both are well formed.
pub open spec fn rle(a: Ratio, b: Ratio) -> bool {
    a.num * b.den <= b.num * a.den
}

/// a < b as rationals, assuming both are well formed.
pub open spec fn rlt(a: Ratio, b: Ratio) -> bool {
    a.num * b.den < b.num * a.den
}

pub open spec fn rabs(a: Ratio) -> Ratio {
    if a.num >= 0 {
        a
    } else {
        rneg(a)
    }
}

pub open spec fn in_i128(x: int) -> bool {
    i128::MIN <= x <= i128::MAX
}

pub proof fn lemma_rat_eq_sym(a: Ratio, b: Ratio)
    requires
        rat_eq(a, b),
    ensures
        rat_eq(b, a),
{
}

pub proof fn lemma_rat_eq_trans(a: Ratio, b: Ratio, c: Ratio) by (nonlinear_arith)
    requires
        rat_wf(a),
        rat_wf(b),
        rat_wf(c),
        rat_eq(a, b),
        rat_eq(b, c),
    ensures
        rat_eq(a, c),
{
}

pub proof fn lemma_radd_wf(a: Ratio, b: Ratio) by (nonlinear_arith)
    requires
        rat_wf(a),
        rat_wf(b),
    ensures
        rat_wf(radd(a, b)),
        rat_wf(rsub(a, b)),
        rat_wf(rmul(a, b)),
{
}

/// Addition respects rational equality.
pub proof fn lemma_radd_congruence(a: Ratio, a2: Ratio, b: Ratio, b2: Ratio)
    requires
        rat_wf(a),
        rat_wf(a2),
        rat_wf(b),
        rat_wf(b2),
        rat_eq(a, a2),
        rat_eq(b, b2),
    ensures
        rat_eq(radd(a, b), radd(a2, b2)),
{
    broadcast use vstd::arithmetic::mul::group_mul_properties;

    assert((a.num * b.den + b.num * a.den) * (a2.den * b2.den) == (a.num * a2.den) * (b.den
        * b2.den) + (b.num * b2.den) * (a.den * a2.den));
    assert((a2.num * b2.den + b2.num * a2.den) * (a.den * b.den) == (a2.num * a.den) * (b.den
        * b2.den) + (b2.num * b.den) * (a.den * a2.den));
}

/// Subtraction respects rational equality.
pub proof fn lemma_rsub_congruence(a: Ratio, a2: Ratio, b: Ratio, b2: Ratio) by (nonlinear_arith)
    requires
        rat_wf(a),
        rat_wf(a2),
        rat_wf(b),
        rat_wf(b2),
        rat_eq(a, a2),
        rat_eq(b, b2),
    ensures
        rat_eq(rsub(a, b), rsub(a2, b2)),
{
}

/// Multiplication respects rational equality.
pub proof fn lemma_rmul_congruence(a: Ratio, a2: Ratio, b: Ratio, b2: Ratio) by (nonlinear_arith)
    requires
        rat_wf(a),
        rat_wf(a2),
        rat_wf(b),
        rat_wf(b2),
        rat_eq(a, a2),
        rat_eq(b, b2),
    ensures
        rat_eq(rmul(a, b), rmul(a2, b2)),
{
}


/// Negation respects rational equality.
pub proof fn lemma_rneg_congruence(a: Ratio, b: Ratio) by (nonlinear_arith)
    requires
        rat_eq(a, b),
    ensures
        rat_eq(rneg(a), rneg(b)),
{
}

/// The absolute value respects rational equality (equal rationals have
/// equally signed numerators).
pub proof fn lemma_rabs_congruence(a: Ratio, b: Ratio) by (nonlinear_arith)
    requires
        rat_wf(a),
        rat_wf(b),
        rat_eq(a, b),
    ensures
        rat_eq(rabs(a), rabs(b)),
{
}

/// The order on rationals respects rational equality.
pub proof fn lemma_rle_congruence(a: Ratio, a2: Ratio, b: Ratio, b2: Ratio) by (nonlinear_arith)
    requires
        rat_wf(a),
        rat_wf(a2),
        rat_wf(b),
        rat_wf(b2),
        rat_eq(a, a2),
        rat_eq(b, b2),
    ensures
        rle(a, b) <==> rle(a2, b2),
        rlt(a, b) <==> rlt(a2, b2),
{
}

/// An exact rational scalar: numerator `n` over positive denominator `d`.
#[derive(Clone, Copy, Debug, PartialEq, Eq, Structural)]
pub struct Rat {
    pub n: i128,
    pub d: i128,
}

impl View for Rat {
    type V = Ratio;

    open spec fn view(&self) -> Ratio {
        Ratio { num: self.n as int, den: self.d as int }
    }
}

/// The raw intermediates of an addition fit the machine word.
pub open spec fn fits_radd(a: Ratio, b: Ratio) -> bool {
    &&& in_i128(a.num * b.den)
    &&& in_i128(b.num * a.den)
    &&& in_i128(a.num * b.den + b.num * a.den)
    &&& in_i128(a.den * b.den)
}

/// The raw intermediates of a multiplication fit the machine word.
pub open spec fn fits_rmul(a: Ratio, b: Ratio) -> bool {
    &&& in_i128(a.num * b.num)
    &&& in_i128(a.den * b.den)
}

/// The raw intermediates of a comparison fit the machine word.
pub open spec fn fits_rcmp(a: Ratio, b: Ratio) -> bool {
    &&& in_i128(a.num * b.den)
    &&& in_i128(b.num * a.den)
}

/// Greatest common divisor by Euclid's algorithm; only positivity is relied
/// on, exact divisibility is re-checked at run time by the caller.
fn gcd_u(a0: u128, b0: u128) -> (g: u128)
    requires
        a0 > 0 || b0 > 0,
    ensures
        g > 0,
{
    let mut a: u128 = a0;
    let mut b: u128 = b0;
    while b != 0
        invariant
            a > 0 || b > 0,
        decreases b,
    {
        let t: u128 = a % b;
        a = b;
        b = t;
    }
    a
}

/// Bring a raw pair to lower terms.  The quotients are checked at run time to
/// multiply back to the inputs, so the result provably denotes the same
/// rational whatever `gcd_u` returned.
fn reduce(n: i128, d: i128) -> (r: Rat)
    requires
        d > 0,
    ensures
        r.wf(),
        rat_eq(r@, Ratio { num: n as int, den: d as int }),
{
    if n == 0 {
        proof {
            assert(rat_eq(Ratio { num: 0, den: 1 }, Ratio { num: n as int, den: d as int }))
                by (nonlinear_arith)
                requires
                    n == 0,
            ;
        }
        return Rat { n: 0, d: 1 };
    }
    if n == i128::MIN {
        return Rat { n, d };
    }
    let neg: bool = n < 0;
    let an: i128 = if neg {
        -n
    } else {
        n
    };
    let g: u128 = gcd_u(an as u128, d as u128);
    let qa: u128 = (an as u128) / g;
    let qd: u128 = (d as u128) / g;
    if qa <= (i128::MAX as u128) && qd <= (i128::MAX as u128) && g <= (i128::MAX as u128) {
        let qa_i: i128 = qa as i128;
        let qd_i: i128 = qd as i128;
        let gi: i128 = g as i128;
        if let Some(pa) = qa_i.checked_mul(gi) {
            if let Some(pd) = qd_i.checked_mul(gi) {
                if pa == an && pd == d && qd_i > 0 {
                    let rn: i128 = if neg {
                        -qa_i
                    } else {
                        qa_i
                    };
                    proof {
                        assert(rn * d == n * qd_i) by (nonlinear_arith)
                            requires
                                an == qa_i * gi,
                                d == qd_i * gi,
                                an == if neg { -(n as int) } else { n as int },
                                rn == if neg { -(qa_i as int) } else { qa_i as int },
                        ;
                    }
                    return Rat { n: rn, d: qd_i };
                }
            }
        }
    }
    Rat { n, d }
}

impl Rat {
    /// Well-formed: the denominator is positive.
    pub open spec fn wf(self) -> bool {
        self.d > 0
    }

    /// The rational zero.
    pub fn zero() -> (r: Rat)
        ensures
            r.wf(),
            r@ == rzero(),
    {
        Rat { n: 0, d: 1 }
    }

    /// The rational one.
    pub fn one() -> (r: Rat)
        ensures
            r.wf(),
            r@ == rone(),
    {
        Rat { n: 1, d: 1 }
    }

    /// A rational from an integer.
    pub fn from_int(n: i64) -> (r: Rat)
        ensures
            r.wf(),
            r@ == (Ratio { num: n as int, den: 1 }),
    {
        Rat { n: n as i128, d: 1 }
    }

    /// A rational from a fraction; `None` exactly when the denominator is zero.
    pub fn new(num: i64, den: i64) -> (r: Option<Rat>)
        ensures
            r is Some <==> den != 0,
            r matches Some(v) ==> v.wf() && v@.num * (den as int) == (num as int) * v@.den,
    {
        if den == 0 {
            None
        } else if den < 0 {
            let r = reduce(-(num as i128), -(den as i128));
            proof {
                assert(r@.num * (den as int) == (num as int) * r@.den) by (nonlinear_arith)
                    requires
                        r@.num * ((-(den as int))) == ((-(num as int))) * r@.den,
                ;
            }
            Some(r)
        } else {
            Some(reduce(num as i128, den as i128))
        }
    }

    /// Whether the value is exactly zero.
    pub fn is_zero(&self) -> (r: bool)
        requires
            self.wf(),
        ensures
            r <==> rat_eq(self@, rzero()),
    {
        self.n == 0
    }

    /// Exact sum; `None` only when an intermediate overflows the machine word.
    pub fn add(&self, other: &Rat) -> (r: Option<Rat>)
        requires
            self.wf(),
            other.wf(),
        ensures
            r matches Some(v) ==> v.wf() && rat_eq(v@, radd(self@, other@)),
            fits_radd(self@, other@) ==> r is Some,
    {
        if let Some(x) = self.n.checked_mul(other.d) {
            if let Some(y) = other.n.checked_mul(self.d) {
                if let Some(num) = x.checked_add(y) {
                    if let Some(den) = self.d.checked_mul(other.d) {
                        proof {
                            lemma_mul_strictly_positive(self.d as int, other.d as int);
                        }
                        return Some(reduce(num, den));
                    }
                }
            }
        }
        None
    }

    /// Exact difference; `None` only when an intermediate overflows.
    pub fn sub(&self, other: &Rat) -> (r: Option<Rat>)
        requires
            self.wf(),
            other.wf(),
        ensures
            r matches Some(v) ==> v.wf() && rat_eq(v@, rsub(self@, other@)),
    {
        if let Some(x) = self.n.checked_mul(other.d) {
            if let Some(y) = other.n.checked_mul(self.d) {
                if let Some(num) = x.checked_sub(y) {
                    if let Some(den) = self.d.checked_mul(other.d) {
                        proof {
                            lemma_mul_strictly_positive(self.d as int, other.d as int);
                        }
                        return Some(reduce(num, den));
                    }
                }
            }
        }
        None
    }

    /// Exact product; `None` only when an intermediate overflows.
    pub fn mul(&self, other: &Rat) -> (r: Option<Rat>)
        requires
            self.wf(),
            other.wf(),
        ensures
            r matches Some(v) ==> v.wf() && rat_eq(v@, rmul(self@, other@)),
            fits_rmul(self@, other@) ==> r is Some,
    {
        if let Some(num) = self.n.checked_mul(other.n) {
            if let Some(den) = self.d.checked_mul(other.d) {
                proof {
                    lemma_mul_strictly_positive(self.d as int, other.d as int);
                }
                return Some(reduce(num, den));
            }
        }
        None
    }

    /// Exact quotient; `None` when the divisor is zero or an intermediate
    /// overflows.
    pub fn div(&self, other: &Rat) -> (r: Option<Rat>)
        requires
            self.wf(),
            other.wf(),
        ensures
            r matches Some(v) ==> v.wf() && other@.num != 0 && v@.num * (self@.den * other@.num)
                == (self@.num * other@.den) * v@.den,
    {
        if other.n == 0 {
            return None;
        }
        if let Some(num0) = self.n.checked_mul(other.d) {
            if let Some(den0) = self.d.checked_mul(other.n) {
                let (num, den): (i128, i128) = if den0 < 0 {
                    if num0 == i128::MIN || den0 == i128::MIN {
                        return None;
                    }
                    (-num0, -den0)
                } else {
                    (num0, den0)
                };
                proof {
                    if self.d as int * other.n as int > 0 {
                    } else {
                    }
                }
                if den > 0 {
                    let r = reduce(num, den);
                    proof {
                        assert(r@.num * ((self@.den * other@.num)) == ((self@.num * other@.den))
                            * r@.den) by (nonlinear_arith)
                            requires
                                r@.num * (den as int) == (num as int) * r@.den,
                                (den as int == self@.den * other@.num && num as int == self@.num
                                    * other@.den) || (den as int == -(self@.den * other@.num)
                                    && num as int == -(self@.num * other@.den)),
                        ;
                    }
                    return Some(r);
                }
                return None;
            }
        }
        None
    }

    /// Exact negation; `None` only at the extreme machine value.
    pub fn neg(&self) -> (r: Option<Rat>)
        requires
            self.wf(),
        ensures
            r matches Some(v) ==> v.wf() && rat_eq(v@, rneg(self@)),
            self@.num != i128::MIN ==> r is Some,
    {
        if self.n == i128::MIN {
            None
        } else {
            Some(Rat { n: -self.n, d: self.d })
        }
    }

    /// Absolute value; `None` only at the extreme machine value.
    pub fn abs(&self) -> (r: Option<Rat>)
        requires
            self.wf(),
        ensures
            r matches Some(v) ==> v.wf() && rat_eq(v@, rabs(self@)),
    {
        if self.n >= 0 {
            Some(*self)
        } else {
            self.neg()
        }
    }

    /// Exact comparison a <= b; `None` only when a cross product overflows.
    pub fn le(&self, other: &Rat) -> (r: Option<bool>)
        requires
            self.wf(),
            other.wf(),
        ensures
            r matches Some(v) ==> (v <==> rle(self@, other@)),
            fits_rcmp(self@, other@) ==> r is Some,
    {
        if let Some(x) = self.n.checked_mul(other.d) {
            if let Some(y) = other.n.checked_mul(self.d) {
                return Some(x <= y);
            }
        }
        None
    }

    /// Exact comparison a < b; `None` only when a cross product overflows.
    pub fn lt(&self, other: &Rat) -> (r: Option<bool>)
        requires
            self.wf(),
            other.wf(),
        ensures
            r matches Some(v) ==> (v <==> rlt(self@, other@)),
            fits_rcmp(self@, other@) ==> r is Some,
    {
        if let Some(x) = self.n.checked_mul(other.d) {
            if let Some(y) = other.n.checked_mul(self.d) {
                return Some(x < y);
            }
        }
        None
    }

    /// Exact equality of the denoted rationals; `None` only when a cross
    /// product overflows.
    pub fn eq_rat(&self, other: &Rat) -> (r: Option<bool>)
        requires
            self.wf(),
            other.wf(),
        ensures
            r matches Some(v) ==> (v <==> rat_eq(self@, other@)),
            fits_rcmp(self@, other@) ==> r is Some,
    {
        if let Some(x) = self.n.checked_mul(other.d) {
            if let Some(y) = other.n.checked_mul(self.d) {
                return Some(x == y);
            }
        }
        None
    }
}

} // verus!
