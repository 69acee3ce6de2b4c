//! The bipartite factor graph and the solver driver.
//!
//! Variables and factors live in dense indexed vectors; references between
//! them are small integer ids.  One synchronous iteration robustifies the
//! losses, relinearises drifted non-linear factors, computes damped messages
//! (possibly dropped at random), and finally updates every belief.  Message
//! writes of one phase become visible only in the next phase.

use crate::factor::{
    factor_energy_rel, factor_gaussian_rel, message_rel, Factor, LossKind, MeasurementModel,
};
use crate::gaussian::{solves, Gaussian};
use crate::linalg::{dot, rats, rdot, rowv, vec_copy, vec_sub, vec_wf, Mat};
use crate::offsets::{off, total};
use crate::rat::{
    radd, rat_eq, rat_wf, rle, rlt, rmul, rone, rzero, Rat, Ratio,
};
use crate::variable::{eta_sum_except, lam_sum_except, Variable};
use crate::GbpError;
use vstd::prelude::*;

verus! {

#[verifier::external_type_specification]
#[verifier::external_body]
pub struct ExStdRng(rand::rngs::StdRng);

/// The solver's dropout stream: a seeded pseudo-random generator.
pub struct DropoutStream {
    pub inner: rand::rngs::StdRng,
}

/// Relies on rand's `SeedableRng::seed_from_u64` for `StdRng`: builds the
/// solver's dropout stream from a seed.  Nothing is assumed of the state.
#[verifier::external_body]
fn seed_rng(seed: u64) -> rand::rngs::StdRng {
    <rand::rngs::StdRng as rand::SeedableRng>::seed_from_u64(seed)
}

/// Relies on rand's `RngCore::next_u64`: one draw from the dropout stream.
/// Nothing is assumed of the value; every caller handles every outcome.
#[verifier::external_body]
fn next_random(rng: &mut rand::rngs::StdRng) -> u64 {
    rand::RngCore::next_u64(rng)
}

/// Turn a raw draw into an exact rational in the half-open unit interval.
fn draw_rat(k: u64) -> (r: Rat)
    ensures
        r.wf(),
        rle(rzero(), r@),
        rlt(r@, rone()),
{
    let d: i128 = (u64::MAX as i128) + 1;
    Rat { n: k as i128, d }
}

/// Whether a dropout draw makes a factor skip this round: the draw is at most
/// the configured dropout probability.
pub open spec fn skip_by_dropout(draw: Ratio, dropout: Ratio) -> bool {
    rle(draw, dropout)
}

/// A probability: an exact rational confined to the closed unit interval.
pub struct UnitInterval {
    pub value: Rat,
}

impl UnitInterval {
    pub open spec fn wf(self) -> bool {
        &&& self.value.wf()
        &&& rle(rzero(), self.value@)
        &&& rle(self.value@, rone())
    }

    /// Admit a value exactly when it lies in the closed unit interval.
    pub fn new(value: Rat) -> (r: Result<UnitInterval, GbpError>)
        requires
            value.wf(),
        ensures
            r matches Ok(u) ==> u.wf() && u.value == value && rle(rzero(), value@) && rle(
                value@,
                rone(),
            ),
            r matches Err(e) ==> e is InvalidSettings && !(rle(rzero(), value@) && rle(
                value@,
                rone(),
            )),
    {
        let zero: Rat = Rat::zero();
        let one: Rat = Rat::one();
        let lo: bool = match zero.le(&value) {
            Some(b) => b,
            None => false,
        };
        let hi: bool = match value.le(&one) {
            Some(b) => b,
            None => false,
        };
        proof {
            assert(crate::rat::fits_rcmp(rzero(), value@)) by (nonlinear_arith)
                requires
                    value.wf(),
                    crate::rat::in_i128(value@.num) && crate::rat::in_i128(value@.den),
            ;
            assert(crate::rat::fits_rcmp(value@, rone())) by (nonlinear_arith)
                requires
                    value.wf(),
                    crate::rat::in_i128(value@.num) && crate::rat::in_i128(value@.den),
            ;
        }
        if lo && hi {
            Ok(UnitInterval { value })
        } else {
            Err(GbpError::InvalidSettings)
        }
    }

    /// The underlying rational.
    pub fn into_inner(&self) -> (r: Rat)
        ensures
            r == self.value,
    {
        self.value
    }
}

/// The solver's tuning knobs.
pub struct GbpSettings {
    /// Steady-state damping for messages, in [0, 1].
    pub damping: Rat,
    /// Relinearisation threshold: a non-linear factor relinearises once the
    /// adjacency mean drifts from the linearisation point by more than beta.
    pub beta: Rat,
    /// Number of undamped message rounds right after a relinearisation.
    pub number_of_undamped_iterations: usize,
    pub minimum_linear_iteration: usize,
    /// Probability for a factor to skip its message computation this round.
    pub dropout: UnitInterval,
    /// Iterations at which every factor's round counter is reset to one.
    pub reset_iterations_since_relinearisation: Vec<usize>,
}

impl GbpSettings {
    pub open spec fn wf(self) -> bool {
        &&& self.damping.wf()
        &&& rle(rzero(), self.damping@)
        &&& rle(self.damping@, rone())
        &&& self.beta.wf()
        &&& rle(rzero(), self.beta@)
        &&& self.dropout.wf()
    }

    /// Validate and build the settings; damping must lie in [0, 1] and beta
    /// must be non-negative.
    pub fn new(
        damping: Rat,
        beta: Rat,
        number_of_undamped_iterations: usize,
        minimum_linear_iteration: usize,
        dropout: UnitInterval,
        reset_iterations_since_relinearisation: Vec<usize>,
    ) -> (r: Result<GbpSettings, GbpError>)
        requires
            damping.wf(),
            beta.wf(),
            dropout.wf(),
        ensures
            r is Ok <==> (rle(rzero(), damping@) && rle(damping@, rone()) && rle(
                rzero(),
                beta@,
            )),
            r matches Ok(s) ==> s.wf() && s.damping == damping && s.beta == beta
                && s.number_of_undamped_iterations == number_of_undamped_iterations
                && s.minimum_linear_iteration == minimum_linear_iteration && s.dropout == dropout
                && s.reset_iterations_since_relinearisation
                == reset_iterations_since_relinearisation,
            r matches Err(e) ==> e is InvalidSettings,
    {
        let zero: Rat = Rat::zero();
        let one: Rat = Rat::one();
        let d_lo: bool = match zero.le(&damping) {
            Some(b) => b,
            None => false,
        };
        let d_hi: bool = match damping.le(&one) {
            Some(b) => b,
            None => false,
        };
        let b_lo: bool = match zero.le(&beta) {
            Some(b) => b,
            None => false,
        };
        proof {
            assert(crate::rat::fits_rcmp(rzero(), damping@) && crate::rat::fits_rcmp(
                damping@,
                rone(),
            ) && crate::rat::fits_rcmp(rzero(), beta@)) by (nonlinear_arith)
                requires
                    damping.wf(),
                    beta.wf(),
                    crate::rat::in_i128(damping@.num) && crate::rat::in_i128(damping@.den),
                    crate::rat::in_i128(beta@.num) && crate::rat::in_i128(beta@.den),
            ;
        }
        if d_lo && d_hi && b_lo {
            Ok(
                GbpSettings {
                    damping,
                    beta,
                    number_of_undamped_iterations,
                    minimum_linear_iteration,
                    dropout,
                    reset_iterations_since_relinearisation,
                },
            )
        } else {
            Err(GbpError::InvalidSettings)
        }
    }

    /// The defaults of the solver: no damping, beta 1/10, five undamped
    /// rounds, no dropout.
    pub fn default() -> (r: GbpSettings)
        ensures
            r.wf(),
            r.damping@ == rzero(),
            rat_eq(r.beta@, Ratio { num: 1, den: 10 }),
            r.number_of_undamped_iterations == 5,
            r.minimum_linear_iteration == 10,
            r.dropout.value@ == rzero(),
            r.reset_iterations_since_relinearisation@.len() == 0,
    {
        GbpSettings {
            damping: Rat::zero(),
            beta: Rat { n: 1, d: 10 },
            number_of_undamped_iterations: 5,
            minimum_linear_iteration: 10,
            dropout: UnitInterval { value: Rat::zero() },
            reset_iterations_since_relinearisation: Vec::new(),
        }
    }

    /// The damping schedule: zero while the factor is within its undamped
    /// window after a relinearisation, the configured damping afterwards.
    pub fn damping(&self, iterations_since_relinearisation: usize) -> (r: Rat)
        requires
            self.wf(),
        ensures
            r.wf(),
            rle(rzero(), r@),
            rle(r@, rone()),
            iterations_since_relinearisation > self.number_of_undamped_iterations ==> r
                == self.damping,
            iterations_since_relinearisation <= self.number_of_undamped_iterations ==> r@
                == rzero(),
    {
        if iterations_since_relinearisation > self.number_of_undamped_iterations {
            self.damping
        } else {
            Rat::zero()
        }
    }
}

/// The knobs of one `solve` call.
pub struct SolveSettings {
    /// Maximum number of synchronous iterations; must be positive.
    pub iterations: usize,
    /// Convergence threshold on the absolute energy difference between
    /// consecutive iterations.
    pub convergence_threshold: Rat,
    /// Whether the prior energies enter the total energy.
    pub include_priors: bool,
    /// Whether to collect the per-iteration energy trace.
    pub log: bool,
}

impl SolveSettings {
    pub open spec fn wf(self) -> bool {
        &&& self.iterations >= 1
        &&& self.convergence_threshold.wf()
        &&& rle(rzero(), self.convergence_threshold@)
    }

    /// Validate and build: the iteration count must be positive and the
    /// threshold non-negative.
    pub fn new(
        iterations: usize,
        convergence_threshold: Rat,
        include_priors: bool,
        log: bool,
    ) -> (r: Result<SolveSettings, GbpError>)
        requires
            convergence_threshold.wf(),
        ensures
            r is Ok <==> (iterations >= 1 && rle(rzero(), convergence_threshold@)),
            r matches Ok(s) ==> s.wf() && s.iterations == iterations && s.convergence_threshold
                == convergence_threshold && s.include_priors == include_priors && s.log == log,
            r matches Err(e) ==> e is InvalidSettings && (iterations == 0 || !rle(
                rzero(),
                convergence_threshold@,
            )),
    {
        if iterations == 0 {
            return Err(GbpError::InvalidSettings);
        }
        let zero: Rat = Rat::zero();
        let ok: bool = match zero.le(&convergence_threshold) {
            Some(b) => b,
            None => false,
        };
        proof {
            assert(crate::rat::fits_rcmp(rzero(), convergence_threshold@)) by (nonlinear_arith)
                requires
                    convergence_threshold.wf(),
                    crate::rat::in_i128(convergence_threshold@.num) && crate::rat::in_i128(
                        convergence_threshold@.den,
                    ),
            ;
        }
        if ok {
            Ok(SolveSettings { iterations, convergence_threshold, include_priors, log })
        } else {
            Err(GbpError::InvalidSettings)
        }
    }

    /// The defaults: 20 iterations, threshold 1/1000000, priors included,
    /// logging on.
    pub fn default() -> (r: SolveSettings)
        ensures
            r.wf(),
            r.iterations == 20,
            rat_eq(r.convergence_threshold@, Ratio { num: 1, den: 1000000 }),
            r.include_priors == true,
            r.log == true,
    {
        SolveSettings {
            iterations: 20,
            convergence_threshold: Rat { n: 1, d: 1000000 },
            include_priors: true,
            log: true,
        }
    }
}

/// The verdict of a `solve` call.
#[derive(Clone, Copy, Debug, PartialEq, Eq, Structural)]
pub enum SolveResult {
    /// The energy difference stayed below the threshold for three
    /// consecutive iterations.
    Converged,
    /// The configured iteration budget ran out first.
    MaxIterationsReached,
}

/// A bipartite factor graph: dense arenas of variables and factors, the
/// solver settings, and the dropout stream.
pub struct FactorGraph {
    pub variables: Vec<Variable>,
    pub factors: Vec<Factor>,
    pub gbp_settings: GbpSettings,
    pub rng: DropoutStream,
}

impl FactorGraph {
    /// Well-formed: ids are dense indices, every factor's adjacency refers to
    /// existing variables, and block sizes match the neighbours' degrees of
    /// freedom.
    pub open spec fn wf(self) -> bool {
        &&& self.gbp_settings.wf()
        &&& forall|i: int|
            0 <= i < self.variables@.len() ==> (#[trigger] self.variables@[i]).wf()
                && self.variables@[i].id == i
        &&& forall|j: int|
            0 <= j < self.factors@.len() ==> (#[trigger] self.factors@[j]).wf()
                && self.factors@[j].id == j
        &&& forall|j: int, t: int|
            0 <= j < self.factors@.len() && 0 <= t < (#[trigger] self.factors@[j]).adjacent@.len()
                ==> (#[trigger] self.factors@[j].adjacent@[t]) < self.variables@.len()
                && self.factors@[j].dims@[t] == self.variables@[self.factors@[j].adjacent@[t] as int].dofs
    }

    /// An empty graph with the given settings; the dropout stream is seeded
    /// so that runs are reproducible.
    pub fn new(gbp_settings: GbpSettings, seed: u64) -> (r: FactorGraph)
        requires
            gbp_settings.wf(),
        ensures
            r.wf(),
            r.variables@.len() == 0,
            r.factors@.len() == 0,
            r.gbp_settings == gbp_settings,
    {
        FactorGraph { variables: Vec::new(), factors: Vec::new(), gbp_settings, rng: DropoutStream { inner: seed_rng(seed) } }
    }

    /// Add a variable with the given prior; the belief starts equal to the
    /// prior and the message table empty.  The new id is the dense index.
    pub fn add_variable(&mut self, prior: Gaussian) -> (r: Result<usize, GbpError>)
        requires
            old(self).wf(),
            prior.wf(),
        ensures
            final(self).wf(),
            final(self).factors == old(self).factors,
            final(self).gbp_settings == old(self).gbp_settings,
            r matches Ok(id) ==> {
                &&& id == old(self).variables@.len()
                &&& final(self).variables@.len() == old(self).variables@.len() + 1
                &&& forall|i: int|
                    0 <= i < old(self).variables@.len() ==> final(self).variables@[i] == old(self).variables@[i]
                &&& final(self).variables@[id as int].prior == prior
                &&& final(self).variables@[id as int].belief.eta@ == prior.eta@
                &&& forall|i: int, j: int|
                    0 <= i < prior.dim() && 0 <= j < prior.dim() ==> #[trigger] final(self).variables@[id as int].belief.lam.at(i, j) == prior.lam.at(i, j)
                &&& final(self).variables@[id as int].inbox@.len() == 0
            },
            prior.dim() > 0 ==> r is Ok,
            r matches Err(e) ==> e is InvalidSettings && prior.dim() == 0 && final(self).variables
                == old(self).variables,
    {
        let id: usize = self.variables.len();
        match Variable::new(id, prior) {
            Ok(v) => {
                self.variables.push(v);
                Ok(id)
            },
            Err(e) => Err(GbpError::InvalidSettings),
        }
    }

    /// The concatenated belief means of a factor's neighbours, in adjacency
    /// order: the point around which the factor linearises.
    pub fn adjacency_means(&self, j: usize) -> (r: Result<Vec<Rat>, GbpError>)
        requires
            self.wf(),
            j < self.factors@.len(),
        ensures
            r matches Ok(x) ==> {
                &&& x@.len() == self.factors@[j as int].dim()
                &&& vec_wf(x@)
                &&& adj_solves(*self, j as int, rats(x@))
            },
            r matches Err(e) ==> (e is Singular || e is Overflow),
    {
        let nt: usize = self.factors[j].adjacent.len();
        let mut x: Vec<Rat> = Vec::new();
        let mut t: usize = 0;
        while t < nt
            invariant
                t <= nt,
                self.wf(),
                j < self.factors@.len(),
                nt == self.factors@[j as int].adjacent@.len(),
                x@.len() == off(self.factors@[j as int].dims@, t as int),
                vec_wf(x@),
                forall|t2: int|
                    0 <= t2 < t ==> #[trigger] solves(
                        self.variables@[self.factors@[j as int].adjacent@[t2] as int].belief,
                        rats(x@).subrange(
                            off(self.factors@[j as int].dims@, t2),
                            off(self.factors@[j as int].dims@, t2 + 1),
                        ),
                    ),
            decreases nt - t,
        {
            let vid: usize = self.factors[j].adjacent[t];
            let m: Vec<Rat> = match self.variables[vid].belief.mean() {
                Ok(m) => m,
                Err(e) => {
                    return Err(e);
                },
            };
            let ghost x_before = x@;
            let mut k: usize = 0;
            let md: usize = m.len();
            while k < md
                invariant
                    k <= md,
                    md == m@.len(),
                    vec_wf(m@),
                    x@.len() == x_before.len() + k,
                    vec_wf(x@),
                    x@ == x_before + m@.take(k as int),
                decreases md - k,
            {
                x.push(m[k]);
                proof {
                    assert(x@ =~= x_before + m@.take(k + 1 as int));
                }
                k += 1;
            }
            proof {
                let f = self.factors@[j as int];
                assert(m@.take(md as int) =~= m@);
                assert(off(f.dims@, t + 1 as int) == off(f.dims@, t as int) + f.dims@[t as int]);
                assert(rats(x@).subrange(off(f.dims@, t as int), off(f.dims@, t + 1 as int))
                    =~= rats(m@));
                assert forall|t2: int| 0 <= t2 < t implies #[trigger] solves(
                    self.variables@[self.factors@[j as int].adjacent@[t2] as int].belief,
                    rats(x@).subrange(
                        off(self.factors@[j as int].dims@, t2),
                        off(self.factors@[j as int].dims@, t2 + 1),
                    ),
                ) by {
                    let f2 = self.factors@[j as int];
                    crate::offsets::lemma_off_monotone(f2.dims@, t2 + 1, t as int);
                    crate::offsets::lemma_off_nonneg(f2.dims@, t2);
                    assert(rats(x@).subrange(off(f2.dims@, t2), off(f2.dims@, t2 + 1))
                        =~= rats(x_before).subrange(off(f2.dims@, t2), off(f2.dims@, t2 + 1)));
                }
            }
            t += 1;
        }
        proof {
            let f = self.factors@[j as int];
            assert(x@.len() == total(f.dims@));
        }
        Ok(x)
    }

    /// Phase four of an iteration: every variable recomputes its belief as
    /// the product of its prior and all incoming messages.  A variable whose
    /// update overflows keeps its previous belief; a variable with an empty
    /// inbox gets exactly its prior.
    pub fn update_beliefs(&mut self) -> (updated: Vec<bool>)
        requires
            old(self).wf(),
        ensures
            final(self).wf(),
            final(self).factors == old(self).factors,
            final(self).gbp_settings == old(self).gbp_settings,
            final(self).variables@.len() == old(self).variables@.len(),
            updated@.len() == old(self).variables@.len(),
            forall|i: int|
                #![trigger final(self).variables@[i]]
                0 <= i < old(self).variables@.len() ==> {
                    let v0 = old(self).variables@[i];
                    let v1 = final(self).variables@[i];
                    &&& v1.id == v0.id
                    &&& v1.dofs == v0.dofs
                    &&& v1.prior == v0.prior
                    &&& v1.inbox == v0.inbox
                    &&& (updated@[i] ==> updated_belief(v1, v0))
                    &&& (!updated@[i] ==> v1.belief == v0.belief)
                    &&& (v0.inbox@.len() == 0 ==> updated@[i] && v1.belief.eta@ == v0.prior.eta@
                        && forall|p: int, q: int|
                        0 <= p < v0.dofs && 0 <= q < v0.dofs ==> #[trigger] v1.belief.lam.at(p, q)
                            == v0.prior.lam.at(p, q))
                },
            beliefs_phase_rel(*final(self), *old(self)),
    {
        let n: usize = self.variables.len();
        let mut updated: Vec<bool> = Vec::new();
        let mut i: usize = 0;
        while i < n
            invariant
                i <= n,
                n == old(self).variables@.len(),
                old(self).wf(),
                self.factors == old(self).factors,
                self.gbp_settings == old(self).gbp_settings,
                self.variables@.len() == n,
                forall|i2: int|
                    0 <= i2 < n ==> (#[trigger] self.variables@[i2]).wf()
                        && self.variables@[i2].id == i2,
                forall|i2: int| i <= i2 < n ==> self.variables@[i2] == old(self).variables@[i2],
                updated@.len() == i,
                forall|i2: int|
                    #![trigger self.variables@[i2]]
                    0 <= i2 < i ==> {
                        let v0 = old(self).variables@[i2];
                        let v1 = self.variables@[i2];
                        &&& v1.id == v0.id
                        &&& v1.dofs == v0.dofs
                        &&& v1.prior == v0.prior
                        &&& v1.inbox == v0.inbox
                        &&& (updated@[i2] ==> updated_belief(v1, v0))
                        &&& (!updated@[i2] ==> v1.belief == v0.belief)
                        &&& (v0.inbox@.len() == 0 ==> updated@[i2] && v1.belief.eta@
                            == v0.prior.eta@ && forall|p: int, q: int|
                            0 <= p < v0.dofs && 0 <= q < v0.dofs ==> #[trigger] v1.belief.lam.at(
                                p,
                                q,
                            ) == v0.prior.lam.at(p, q))
                    },
            decreases n - i,
        {
            match self.variables[i].update_belief() {
                Ok(()) => {
                    updated.push(true);
                },
                Err(_) => {
                    updated.push(false);
                },
            }
            i += 1;
        }
        updated
    }
}

/// The belief of `v1` is the information-form sum of the prior and all
/// incoming messages of `v0` (which share everything but the belief).
pub open spec fn updated_belief(v1: Variable, v0: Variable) -> bool {
    &&& forall|k: int|
        0 <= k < v0.dofs ==> rat_eq(
            #[trigger] v1.belief.eta@[k]@,
            eta_sum_except(v0.prior.eta@[k]@, v0.inbox@, -1, k),
        )
    &&& forall|i: int, j: int|
        0 <= i < v0.dofs && 0 <= j < v0.dofs ==> rat_eq(
            #[trigger] v1.belief.lam.at(i, j),
            lam_sum_except(v0.prior.lam.at(i, j), v0.inbox@, -1, i, j),
        )
}

/// The concatenation `x` consists of exact belief means of the factor's
/// neighbours, blockwise in adjacency order.
pub open spec fn adj_solves(g: FactorGraph, j: int, x: Seq<Ratio>) -> bool {
    &&& x.len() == g.factors@[j].dim()
    &&& forall|t: int|
        0 <= t < g.factors@[j].adjacent@.len() ==> #[trigger] solves(
            g.variables@[g.factors@[j].adjacent@[t] as int].belief,
            x.subrange(off(g.factors@[j].dims@, t), off(g.factors@[j].dims@, t + 1)),
        )
}



/// The settings name this iteration index as a reset point.
pub open spec fn resets_at(s: GbpSettings, step: int) -> bool {
    exists|k: int|
        0 <= k < s.reset_iterations_since_relinearisation@.len()
            && s.reset_iterations_since_relinearisation@[k] == step
}

/// Every factor's relinearisation counter was reset to one; everything else
/// is untouched.
pub open spec fn counters_reset_rel(g1: FactorGraph, g0: FactorGraph) -> bool {
    &&& g1.wf()
    &&& g1.variables == g0.variables
    &&& g1.gbp_settings == g0.gbp_settings
    &&& g1.factors@.len() == g0.factors@.len()
    &&& forall|j: int|
        #![trigger g1.factors@[j]]
        0 <= j < g0.factors@.len() ==> {
            let f0 = g0.factors@[j];
            let f1 = g1.factors@[j];
            &&& f1.id == f0.id
            &&& f1.adjacent == f0.adjacent
            &&& f1.dims == f0.dims
            &&& f1.model == f0.model
            &&& f1.loss == f0.loss
            &&& f1.x0 == f0.x0
            &&& f1.gaussian == f0.gaussian
            &&& f1.outbox == f0.outbox
            &&& f1.iterations_since_relinearisation == 1
        }
}

/// One step of the solver: a synchronous iteration, followed at the named
/// reset points by resetting the relinearisation counters.
pub open spec fn solve_step_rel(g1: FactorGraph, g0: FactorGraph, step: int) -> bool {
    if resets_at(g0.gbp_settings, step) {
        exists|mid: FactorGraph| #[trigger] iteration_rel(mid, g0) && counters_reset_rel(g1, mid)
    } else {
        iteration_rel(g1, g0)
    }
}

/// The successful entries of a per-iteration energy record, in order.
pub open spec fn somes(es: Seq<Option<Rat>>) -> Seq<Rat>
    decreases es.len(),
{
    if es.len() == 0 {
        Seq::empty()
    } else {
        let rest = somes(es.drop_last());
        match es.last() {
            Option::Some(e) => rest.push(e),
            Option::None => rest,
        }
    }
}

/// The convergence test of one iteration: the absolute energy difference
/// lies strictly below the threshold.
pub open spec fn converged_step(p: Ratio, e: Ratio, thr: Ratio) -> bool {
    rlt(crate::rat::rabs(crate::rat::rsub(p, e)), thr)
}

/// Iteration `t` of the energy record passed the convergence test against
/// its predecessor (the first iteration compares against an initial zero).
pub open spec fn step_converged(es: Seq<Option<Rat>>, t: int, thr: Ratio) -> bool {
    match es[t] {
        Option::Some(e) => {
            if t == 0 {
                converged_step(rzero(), e@, thr)
            } else {
                match es[t - 1] {
                    Option::Some(p) => converged_step(p@, e@, thr),
                    Option::None => false,
                }
            }
        },
        Option::None => false,
    }
}

/// The full witness of a `solve` run: a chain of states related step by
/// step, per-iteration energies where they could be computed, the returned
/// trace (exactly the successful energies, when logging), and the verdict
/// rule: the iteration budget was exhausted, or the run closed with three
/// consecutive convergence tests passed.
pub open spec fn solve_trace_witness(
    g0: FactorGraph,
    g1: FactorGraph,
    settings: SolveSettings,
    states: Seq<FactorGraph>,
    es: Seq<Option<Rat>>,
    verdict: SolveResult,
    trace: Seq<Rat>,
) -> bool {
    &&& states.len() == es.len() + 1
    &&& 1 <= es.len() <= settings.iterations
    &&& states[0] == g0
    &&& states[es.len() as int] == g1
    &&& forall|t: int| 0 <= t < es.len() ==> #[trigger] solve_step_rel(states[t + 1], states[t], t)
    &&& forall|t: int|
        0 <= t < es.len() ==> (match #[trigger] es[t] {
            Option::Some(e) => e.wf() && graph_energy_rel(
                states[t + 1],
                settings.include_priors,
                e@,
            ),
            Option::None => states[t + 1].factors@.len() > 0 || settings.include_priors,
        })
    &&& (settings.log ==> trace == somes(es))
    &&& (!settings.log ==> trace.len() == 0)
    &&& (verdict is MaxIterationsReached ==> es.len() == settings.iterations)
    &&& (verdict is Converged ==> es.len() >= 3 && step_converged(
        es,
        es.len() - 1,
        settings.convergence_threshold@,
    ) && step_converged(es, es.len() - 2, settings.convergence_threshold@) && step_converged(
        es,
        es.len() - 3,
        settings.convergence_threshold@,
    ))
}

/// `solve` took the graph from `g0` to `g1` by a lawful chain of iterations.
pub open spec fn solve_rel(
    g0: FactorGraph,
    g1: FactorGraph,
    settings: SolveSettings,
    verdict: SolveResult,
    trace: Seq<Rat>,
) -> bool {
    exists|states: Seq<FactorGraph>, es: Seq<Option<Rat>>|
        #[trigger] solve_trace_witness(g0, g1, settings, states, es, verdict, trace)
}

/// From the exact division `nl = l / a` it follows that `nl * a == l` as
/// rationals.
proof fn lemma_div_law(lv: Ratio, av: Ratio, nlv: Ratio)
    requires
        rat_wf(lv),
        rat_wf(av),
        rat_wf(nlv),
        av.num != 0,
        nlv.num * (lv.den * av.num) == (lv.num * av.den) * nlv.den,
    ensures
        rat_eq(rmul(nlv, av), lv),
{
    broadcast use vstd::arithmetic::mul::group_mul_properties;

    assert((nlv.num * av.num) * lv.den == (nlv.num * (lv.den * av.num)));
    assert(lv.num * (nlv.den * av.den) == ((lv.num * av.den) * nlv.den));
}

/// The exact chain from the checked comparison back to the specification's
/// convergence test.
proof fn lemma_converged_chain(pv: Ratio, ev: Ratio, thr: Ratio, diffv: Ratio, adv: Ratio)
    requires
        rat_wf(pv),
        rat_wf(ev),
        rat_wf(thr),
        rat_wf(diffv),
        rat_wf(adv),
        rat_eq(diffv, crate::rat::rsub(pv, ev)),
        rat_eq(adv, crate::rat::rabs(diffv)),
        rlt(adv, thr),
    ensures
        converged_step(pv, ev, thr),
{
    crate::rat::lemma_radd_wf(pv, ev);
    crate::rat::lemma_rabs_congruence(diffv, crate::rat::rsub(pv, ev));
    crate::rat::lemma_rat_eq_trans(
        adv,
        crate::rat::rabs(diffv),
        crate::rat::rabs(crate::rat::rsub(pv, ev)),
    );
    crate::rat::lemma_rle_congruence(
        adv,
        crate::rat::rabs(crate::rat::rsub(pv, ev)),
        thr,
        thr,
    );
}


/// The degrees of freedom of the named neighbours, in adjacency order.
pub open spec fn neighbour_dims(g: FactorGraph, adjacent: Seq<usize>) -> Seq<usize> {
    Seq::new(adjacent.len(), |t: int| g.variables@[adjacent[t] as int].dofs)
}

impl FactorGraph {
    /// Add a factor over the given neighbour variables.  The block sizes are
    /// taken from the neighbours' degrees of freedom and must concatenate to
    /// the model's dimension.  Construction-time validation is strict: an
    /// empty adjacency list, an unknown or repeated neighbour id, or a
    /// mismatched dimension is refused and leaves the graph untouched.  The
    /// factor starts with a zero Gaussian; a first linearisation around the
    /// current beliefs is attempted, and a numerically degenerate first
    /// linearisation leaves the zero Gaussian in place (it is the identity of
    /// message aggregation).
    pub fn add_factor(
        &mut self,
        model: MeasurementModel,
        loss: crate::factor::Loss,
        adjacent: Vec<usize>,
    ) -> (r: Result<usize, GbpError>)
        requires
            old(self).wf(),
            model.wf(),
            loss.wf(),
        ensures
            final(self).wf(),
            final(self).variables == old(self).variables,
            final(self).gbp_settings == old(self).gbp_settings,
            r is Ok <==> {
                &&& adjacent@.len() >= 1
                &&& forall|t: int|
                    0 <= t < adjacent@.len() ==> (#[trigger] adjacent@[t]) < old(self).variables@.len()
                &&& forall|s: int, t: int|
                    0 <= s < t < adjacent@.len() ==> adjacent@[s] != adjacent@[t]
                &&& total(neighbour_dims(*old(self), adjacent@)) == model.dim()
                &&& loss.base_precision.rows == model.zlen()
            },
            r matches Ok(id) ==> {
                &&& id == old(self).factors@.len()
                &&& final(self).factors@.len() == old(self).factors@.len() + 1
                &&& forall|j: int|
                    0 <= j < old(self).factors@.len() ==> final(self).factors@[j] == old(self).factors@[j]
                &&& final(self).factors@[id as int].id == id
                &&& final(self).factors@[id as int].adjacent == adjacent
                &&& final(self).factors@[id as int].model == model
                &&& final(self).factors@[id as int].loss == loss
                &&& final(self).factors@[id as int].iterations_since_relinearisation == 0
            },
            r is Err ==> final(self).factors == old(self).factors,
    {
        let id: usize = self.factors.len();
        let n: usize = adjacent.len();
        // every neighbour must exist; its block size is its dofs
        let mut dims: Vec<usize> = Vec::new();
        let mut t: usize = 0;
        while t < n
            invariant
                t <= n,
                self.wf(),
                n == adjacent@.len(),
                dims@.len() == t,
                forall|t2: int|
                    0 <= t2 < t ==> (#[trigger] adjacent@[t2]) < self.variables@.len()
                        && dims@[t2] == self.variables@[adjacent@[t2] as int].dofs,
            decreases n - t,
        {
            let vid: usize = adjacent[t];
            if vid >= self.variables.len() {
                return Err(GbpError::InvalidSettings);
            }
            dims.push(self.variables[vid].dofs);
            t += 1;
        }
        proof {
            assert(dims@ =~= neighbour_dims(*old(self), adjacent@));
        }
        let f: Factor = match Factor::new(id, adjacent, dims, model, loss) {
            Ok(f) => f,
            Err(e) => {
                return Err(e);
            },
        };
        self.factors.push(f);
        // first linearisation around the current beliefs; a degenerate prior
        // leaves the zero Gaussian in place
        match self.adjacency_means(id) {
            Ok(x) => {
                let _ = self.factors[id].compute(&x);
            },
            Err(_) => {},
        }
        Ok(id)
    }

    /// Phase one of an iteration: every factor re-derives its robust loss
    /// scale from the residual at the current adjacency means.  Factors whose
    /// means or residuals are degenerate keep their current scale.
    pub fn robustify_factors(&mut self) -> (rescaled: Vec<bool>)
        requires
            old(self).wf(),
        ensures
            final(self).wf(),
            final(self).variables == old(self).variables,
            final(self).gbp_settings == old(self).gbp_settings,
            final(self).factors@.len() == old(self).factors@.len(),
            robustify_phase_rel(*final(self), *old(self)),
            rescaled@.len() == old(self).factors@.len(),
            forall|j: int|
                0 <= j < old(self).factors@.len() ==> {
                    &&& ((#[trigger] rescaled@[j]) ==> robustified(
                        *old(self),
                        j,
                        final(self).factors@[j],
                    ))
                    &&& (!rescaled@[j] ==> final(self).factors@[j].loss.scale == old(self).factors@[j].loss.scale)
                },
    {
        let n: usize = self.factors.len();
        let mut rescaled: Vec<bool> = Vec::new();
        let mut j: usize = 0;
        while j < n
            invariant
                j <= n,
                n == old(self).factors@.len(),
                old(self).wf(),
                self.variables == old(self).variables,
                self.gbp_settings == old(self).gbp_settings,
                self.factors@.len() == n,
                self.wf(),
                forall|j2: int| j <= j2 < n ==> self.factors@[j2] == old(self).factors@[j2],
                forall|j2: int|
                    #![trigger self.factors@[j2]]
                    0 <= j2 < j ==> {
                        let f0 = old(self).factors@[j2];
                        let f1 = self.factors@[j2];
                        &&& f1.id == f0.id
                        &&& f1.adjacent == f0.adjacent
                        &&& f1.dims == f0.dims
                        &&& f1.model == f0.model
                        &&& f1.loss.base_precision == f0.loss.base_precision
                        &&& f1.loss.kind == f0.loss.kind
                        &&& f1.x0 == f0.x0
                        &&& f1.gaussian == f0.gaussian
                        &&& f1.outbox == f0.outbox
                        &&& f1.iterations_since_relinearisation
                            == f0.iterations_since_relinearisation
                        &&& (f1.loss.scale == f0.loss.scale || robustified(*old(self), j2, f1))
                    },
                rescaled@.len() == j,
                forall|j2: int|
                    0 <= j2 < j ==> {
                        &&& ((#[trigger] rescaled@[j2]) ==> robustified(
                            *old(self),
                            j2,
                            self.factors@[j2],
                        ))
                        &&& (!rescaled@[j2] ==> self.factors@[j2].loss.scale == old(self).factors@[j2].loss.scale)
                    },
            decreases n - j,
        {
            let mut done: bool = false;
            match self.adjacency_means(j) {
                Ok(x) => {
                    match self.factors[j].residual(&x) {
                        Ok(rv) => {
                            let rr = self.factors[j].loss.robustify(&rv);
                            proof {
                                if rr is Ok {
                                    assert(adj_solves(*old(self), j as int, rats(x@)));
                                    assert(robustified(
                                        *old(self),
                                        j as int,
                                        self.factors@[j as int],
                                    ));
                                }
                            }
                            match rr {
                                Ok(()) => {
                                    done = true;
                                },
                                Err(_) => {},
                            }
                        },
                        Err(_) => {},
                    }
                },
                Err(_) => {},
            }
            rescaled.push(done);
            j += 1;
        }
        rescaled
    }

    /// Phase two of an iteration: every non-linear factor whose adjacency
    /// mean has drifted from its linearisation point by more than beta (in
    /// Euclidean norm) is relinearised.  Linear factors are never touched.
    pub fn jit_linearisation(&mut self) -> (outcomes: Vec<JitOutcome>)
        requires
            old(self).wf(),
        ensures
            final(self).wf(),
            final(self).variables == old(self).variables,
            final(self).gbp_settings == old(self).gbp_settings,
            final(self).factors@.len() == old(self).factors@.len(),
            jit_phase_rel(*final(self), *old(self)),
            outcomes@.len() == old(self).factors@.len(),
            forall|j: int|
                0 <= j < old(self).factors@.len() ==> {
                    &&& ((#[trigger] outcomes@[j]) is Linear ==> old(self).factors@[j].model.spec_is_linear() && final(self).factors@[j] == old(self).factors@[j])
                    &&& (outcomes@[j] is WithinThreshold ==> within_threshold(*old(self), j)
                        && final(self).factors@[j] == old(self).factors@[j])
                    &&& (outcomes@[j] is Relinearised ==> !old(self).factors@[j].model.spec_is_linear() && drift_witnessed(*old(self), j) && relinearised(
                        *old(self),
                        j,
                        final(self).factors@[j],
                    ))
                    &&& (outcomes@[j] is Degenerate ==> final(self).factors@[j] == old(self).factors@[j])
                },
    {
        let n: usize = self.factors.len();
        let mut outcomes: Vec<JitOutcome> = Vec::new();
        let mut j: usize = 0;
        while j < n
            invariant
                j <= n,
                n == old(self).factors@.len(),
                old(self).wf(),
                self.variables == old(self).variables,
                self.gbp_settings == old(self).gbp_settings,
                self.factors@.len() == n,
                self.wf(),
                forall|j2: int| j <= j2 < n ==> self.factors@[j2] == old(self).factors@[j2],
                forall|j2: int|
                    #![trigger self.factors@[j2]]
                    0 <= j2 < j ==> {
                        let f0 = old(self).factors@[j2];
                        let f1 = self.factors@[j2];
                        &&& f1.id == f0.id
                        &&& f1.adjacent == f0.adjacent
                        &&& f1.dims == f0.dims
                        &&& f1.model == f0.model
                        &&& f1.loss == f0.loss
                        &&& f1.outbox == f0.outbox
                        &&& (f0.model.spec_is_linear() ==> f1 == f0)
                        &&& (f1 == f0 || (!f0.model.spec_is_linear() && relinearised(
                            *old(self),
                            j2,
                            f1,
                        ) && drift_witnessed(*old(self), j2)))
                    },
                outcomes@.len() == j,
                forall|j2: int|
                    0 <= j2 < j ==> {
                        &&& ((#[trigger] outcomes@[j2]) is Linear ==> old(self).factors@[j2].model.spec_is_linear() && self.factors@[j2] == old(self).factors@[j2])
                        &&& (outcomes@[j2] is WithinThreshold ==> within_threshold(
                            *old(self),
                            j2,
                        ) && self.factors@[j2] == old(self).factors@[j2])
                        &&& (outcomes@[j2] is Relinearised ==> !old(self).factors@[j2].model.spec_is_linear() && drift_witnessed(*old(self), j2) && relinearised(
                            *old(self),
                            j2,
                            self.factors@[j2],
                        ))
                        &&& (outcomes@[j2] is Degenerate ==> self.factors@[j2] == old(self).factors@[j2])
                    },
            decreases n - j,
        {
            let mut outcome: JitOutcome = JitOutcome::Degenerate;
            if !self.factors[j].model.is_linear() {
                match self.adjacency_means(j) {
                    Ok(x) => {
                        match vec_sub(&x, &self.factors[j].x0) {
                            Some(diff) => {
                                match dot(&diff, &diff) {
                                    Some(ns) => {
                                        let beta: Rat = self.gbp_settings.beta;
                                        match beta.mul(&beta) {
                                            Some(b2) => {
                                                match b2.lt(&ns) {
                                                    Some(true) => {
                                                        proof {
                                                            crate::rat::lemma_radd_wf(
                                                                self.gbp_settings.beta@,
                                                                self.gbp_settings.beta@,
                                                            );
                                                            crate::rat::lemma_rle_congruence(
                                                                b2@,
                                                                rmul(
                                                                    self.gbp_settings.beta@,
                                                                    self.gbp_settings.beta@,
                                                                ),
                                                                ns@,
                                                                ns@,
                                                            );
                                                            assert(adj_solves(
                                                                *old(self),
                                                                j as int,
                                                                rats(x@),
                                                            ));
                                                            assert(drift_witnessed(
                                                                *old(self),
                                                                j as int,
                                                            ));
                                                        }
                                                        let cr = self.factors[j].compute(&x);
                                                        proof {
                                                            if cr is Ok {
                                                                assert(relinearised(
                                                                    *old(self),
                                                                    j as int,
                                                                    self.factors@[j as int],
                                                                ));
                                                            }
                                                        }
                                                        match cr {
                                                            Ok(()) => {
                                                                outcome =
                                                                    JitOutcome::Relinearised;
                                                            },
                                                            Err(_) => {},
                                                        }
                                                    },
                                                    Some(false) => {
                                                        proof {
                                                            crate::rat::lemma_radd_wf(
                                                                self.gbp_settings.beta@,
                                                                self.gbp_settings.beta@,
                                                            );
                                                            crate::rat::lemma_rle_congruence(
                                                                b2@,
                                                                rmul(
                                                                    self.gbp_settings.beta@,
                                                                    self.gbp_settings.beta@,
                                                                ),
                                                                ns@,
                                                                ns@,
                                                            );
                                                            assert(adj_solves(
                                                                *old(self),
                                                                j as int,
                                                                rats(x@),
                                                            ));
                                                            assert(within_threshold(
                                                                *old(self),
                                                                j as int,
                                                            ));
                                                        }
                                                        outcome = JitOutcome::WithinThreshold;
                                                    },
                                                    None => {},
                                                }
                                            },
                                            None => {},
                                        }
                                    },
                                    None => {},
                                }
                            },
                            None => {},
                        }
                    },
                    Err(_) => {},
                }
            } else {
                outcome = JitOutcome::Linear;
            }
            outcomes.push(outcome);
            j += 1;
        }
        outcomes
    }

    /// Phase three of an iteration: for every factor (unless dropped by the
    /// dropout draw), gather the leave-one-out messages of all neighbours,
    /// compute the damped outgoing messages, and deliver them into the
    /// neighbours' inboxes.  Factors are processed against the variable state
    /// from the previous phase: messages are delivered only after every
    /// factor has computed.  When the dropout probability is one, every
    /// factor is skipped and nothing changes.
    pub fn compute_messages(&mut self, apply_dropout: bool) -> (outcomes: Vec<SweepOutcome>)
        requires
            old(self).wf(),
        ensures
            outcomes@.len() == old(self).factors@.len(),
            forall|j: int|
                0 <= j < old(self).factors@.len() ==> {
                    let f0 = old(self).factors@[j];
                    let f1 = final(self).factors@[j];
                    &&& ((#[trigger] outcomes@[j]) is Computed ==> {
                        &&& f1.id == f0.id
                        &&& f1.adjacent == f0.adjacent
                        &&& f1.dims == f0.dims
                        &&& f1.model == f0.model
                        &&& f1.loss == f0.loss
                        &&& f1.x0 == f0.x0
                        &&& f1.gaussian == f0.gaussian
                        &&& (f0.iterations_since_relinearisation < usize::MAX
                            ==> f1.iterations_since_relinearisation
                            == f0.iterations_since_relinearisation + 1)
                        &&& factor_swept(*old(self), j, f1)
                    })
                    &&& (outcomes@[j] is Skipped ==> f1 == f0 && apply_dropout)
                    &&& (outcomes@[j] matches SweepOutcome::Failed(e) ==> f1 == f0 && (e
                        is Singular || e is Overflow))
                },
            final(self).wf(),
            final(self).gbp_settings == old(self).gbp_settings,
            final(self).variables@.len() == old(self).variables@.len(),
            final(self).factors@.len() == old(self).factors@.len(),
            forall|i: int|
                #![trigger final(self).variables@[i]]
                0 <= i < old(self).variables@.len() ==> {
                    let v0 = old(self).variables@[i];
                    let v1 = final(self).variables@[i];
                    &&& v1.id == v0.id
                    &&& v1.dofs == v0.dofs
                    &&& v1.prior == v0.prior
                    &&& v1.belief == v0.belief
                },
            messages_phase_rel(*final(self), *old(self), apply_dropout),
            (apply_dropout && rat_eq(old(self).gbp_settings.dropout.value@, rone())) ==> {
                &&& final(self).variables == old(self).variables
                &&& final(self).factors == old(self).factors
            },
            old(self).factors@.len() == 0 ==> final(self).variables == old(self).variables,
    {
        let nf: usize = self.factors.len();
        // phase A: compute, reading only previous-phase variable state
        let mut computed: Vec<bool> = Vec::new();
        let mut outcomes: Vec<SweepOutcome> = Vec::new();
        let ghost mut draws: Seq<Rat> = Seq::empty();
        let mut j: usize = 0;
        while j < nf
            invariant
                j <= nf,
                nf == old(self).factors@.len(),
                old(self).wf(),
                self.variables == old(self).variables,
                self.gbp_settings == old(self).gbp_settings,
                self.factors@.len() == nf,
                self.wf(),
                computed@.len() == j,
                draws.len() == j,
                forall|j2: int| 0 <= j2 < j ==> (#[trigger] draws[j2]).wf(),
                forall|j2: int| j <= j2 < nf ==> self.factors@[j2] == old(self).factors@[j2],
                forall|j2: int|
                    #![trigger self.factors@[j2]]
                    0 <= j2 < j ==> {
                        let f0 = old(self).factors@[j2];
                        let f1 = self.factors@[j2];
                        &&& (!computed@[j2] ==> f1 == f0)
                        &&& (apply_dropout && skip_by_dropout(
                            draws[j2]@,
                            old(self).gbp_settings.dropout.value@,
                        ) ==> !computed@[j2])
                        &&& (computed@[j2] ==> {
                            &&& f1.id == f0.id
                            &&& f1.adjacent == f0.adjacent
                            &&& f1.dims == f0.dims
                            &&& f1.model == f0.model
                            &&& f1.loss == f0.loss
                            &&& f1.x0 == f0.x0
                            &&& f1.gaussian == f0.gaussian
                            &&& (f0.iterations_since_relinearisation < usize::MAX
                                ==> f1.iterations_since_relinearisation
                                == f0.iterations_since_relinearisation + 1)
                            &&& factor_swept(*old(self), j2, f1)
                        })
                    },
                outcomes@.len() == j,
                forall|j2: int| 0 <= j2 < j ==> ((#[trigger] outcomes@[j2]) is Computed <==> computed@[j2]),
                forall|j2: int|
                    0 <= j2 < j ==> ((#[trigger] outcomes@[j2]) is Skipped ==> apply_dropout),
                forall|j2: int|
                    0 <= j2 < j ==> ((#[trigger] outcomes@[j2]) matches SweepOutcome::Failed(e)
                        ==> (e is Singular || e is Overflow)),
                (apply_dropout && rat_eq(old(self).gbp_settings.dropout.value@, rone())) ==> (
                self.factors == old(self).factors) && (forall|j2: int|
                    0 <= j2 < j ==> !(#[trigger] computed@[j2])),
            decreases nf - j,
        {
            let draw: u64 = next_random(&mut self.rng.inner);
            let draw_value: Rat = draw_rat(draw);
            let dropout: Rat = self.gbp_settings.dropout.value;
            let skip: bool = if apply_dropout {
                match draw_value.le(&dropout) {
                    Some(b) => b,
                    None => true,
                }
            } else {
                false
            };
            proof {
                draws = draws.push(draw_value);
                if apply_dropout && rat_eq(old(self).gbp_settings.dropout.value@, rone()) {
                    crate::rat::lemma_rle_congruence(
                        draw_value@,
                        draw_value@,
                        dropout@,
                        rone(),
                    );
                    assert(rle(draw_value@, dropout@));
                }
            }
            if skip {
                computed.push(false);
                outcomes.push(SweepOutcome::Skipped);
            } else {
                // gather the leave-one-out messages from every neighbour
                let na: usize = self.factors[j].adjacent.len();
                let mut incoming: Vec<Gaussian> = Vec::new();
                let mut t: usize = 0;
                let mut gathered: bool = true;
                let mut gather_error: GbpError = GbpError::Overflow;
                while t < na
                    invariant
                        t <= na,
                        j < nf,
                        nf == self.factors@.len(),
                        self.wf(),
                        self.variables == old(self).variables,
                        self.factors@[j as int] == old(self).factors@[j as int],
                        old(self).wf(),
                        na == self.factors@[j as int].adjacent@.len(),
                        gathered ==> incoming@.len() == t,
                        gathered ==> forall|s2: int|
                            #![trigger incoming@[s2]]
                            0 <= s2 < t ==> {
                                let v = old(self).variables@[old(self).factors@[j as int].adjacent@[s2] as int];
                                &&& incoming@[s2].wf()
                                &&& incoming@[s2].dim() == v.dofs
                                &&& forall|k: int|
                                    0 <= k < v.dofs ==> rat_eq(
                                        #[trigger] incoming@[s2].eta@[k]@,
                                        eta_sum_except(v.prior.eta@[k]@, v.inbox@, j as int, k),
                                    )
                                &&& forall|p: int, q: int|
                                    0 <= p < v.dofs && 0 <= q < v.dofs ==> rat_eq(
                                        #[trigger] incoming@[s2].lam.at(p, q),
                                        lam_sum_except(
                                            v.prior.lam.at(p, q),
                                            v.inbox@,
                                            j as int,
                                            p,
                                            q,
                                        ),
                                    )
                            },
                        gathered ==> forall|s2: int|
                            0 <= s2 < t ==> (#[trigger] incoming@[s2]).wf()
                                && incoming@[s2].dim() == self.factors@[j as int].dims@[s2],
                        !gathered ==> t == na,
                        gather_error is Singular || gather_error is Overflow,
                    decreases na - t,
                {
                    let vid: usize = self.factors[j].adjacent[t];
                    match self.variables[vid].send_message_to(j) {
                        Ok(m) => {
                            incoming.push(m);
                            t += 1;
                        },
                        Err(e) => {
                            gathered = false;
                            gather_error = e;
                            t = na;
                        },
                    }
                }
                if gathered {
                    let damping: Rat = self.gbp_settings.damping(
                        self.factors[j].iterations_since_relinearisation,
                    );
                    proof {
                        assert(gathered_rel(*old(self), j as int, incoming@));
                        assert(rat_eq(
                            damping@,
                            damping_of(
                                old(self).gbp_settings,
                                old(self).factors@[j as int].iterations_since_relinearisation as int,
                            ),
                        ));
                    }
                    let _message_outcomes = self.factors[j].compute_messages(
                        &damping,
                        &incoming,
                    );
                    proof {
                        assert(factor_swept(*old(self), j as int, self.factors@[j as int]));
                    }
                    computed.push(true);
                    outcomes.push(SweepOutcome::Computed);
                } else {
                    computed.push(false);
                    outcomes.push(SweepOutcome::Failed(gather_error));
                }
            }
            j += 1;
        }
        // phase B: deliver the freshly computed messages
        let ghost factors_after_compute = self.factors;
        let ghost fa = self.factors@;
        proof {
            assert(messages_computed_rel(fa, *old(self), computed@, draws, apply_dropout));
            assert forall|i: int|
                0 <= i < old(self).variables@.len() implies delivered_upto(
                #[trigger] self.variables@[i],
                old(self).variables@[i],
                fa,
                computed@,
                i,
                0,
                0,
            ) by {
                let v0 = old(self).variables@[i];
                let v1 = self.variables@[i];
                assert forall|k: int| 0 <= k implies #[trigger] delivered_slot_ok(
                    v1,
                    v0,
                    fa,
                    computed@,
                    i,
                    0,
                    0,
                    k,
                ) by {
                    if 0 <= k < fa.len() {
                        lemma_find_adj(fa[k].adjacent@, i, 0);
                    }
                }
            }
        }
        let mut j2: usize = 0;
        while j2 < nf
            invariant
                j2 <= nf,
                nf == old(self).factors@.len(),
                old(self).wf(),
                self.gbp_settings == old(self).gbp_settings,
                self.factors@.len() == nf,
                self.factors == factors_after_compute,
                fa == factors_after_compute@,
                messages_computed_rel(fa, *old(self), computed@, draws, apply_dropout),
                outcomes@.len() == nf,
                forall|j3: int| 0 <= j3 < nf ==> ((#[trigger] outcomes@[j3]) is Computed <==> computed@[j3]),
                forall|j3: int|
                    0 <= j3 < nf ==> ((#[trigger] outcomes@[j3]) is Skipped ==> apply_dropout),
                forall|j3: int|
                    0 <= j3 < nf ==> ((#[trigger] outcomes@[j3]) matches SweepOutcome::Failed(e)
                        ==> (e is Singular || e is Overflow)),
                (apply_dropout && rat_eq(old(self).gbp_settings.dropout.value@, rone()))
                    ==> factors_after_compute == old(self).factors && (forall|j3: int|
                    0 <= j3 < nf ==> !(#[trigger] computed@[j3])),
                self.variables@.len() == old(self).variables@.len(),
                self.wf(),
                computed@.len() == nf,
                forall|i: int|
                    #![trigger self.variables@[i]]
                    0 <= i < old(self).variables@.len() ==> {
                        let v0 = old(self).variables@[i];
                        let v1 = self.variables@[i];
                        &&& v1.id == v0.id
                        &&& v1.dofs == v0.dofs
                        &&& v1.prior == v0.prior
                        &&& v1.belief == v0.belief
                        &&& delivered_upto(v1, v0, fa, computed@, i, j2 as int, 0)
                    },
                (forall|j3: int| 0 <= j3 < nf ==> !(#[trigger] computed@[j3]))
                    ==> self.variables == old(self).variables,
            decreases nf - j2,
        {
            if computed[j2] {
                let na: usize = self.factors[j2].adjacent.len();
                let mut t: usize = 0;
                while t < na
                    invariant
                        t <= na,
                        j2 < nf,
                        nf == self.factors@.len(),
                        old(self).wf(),
                        self.wf(),
                        self.gbp_settings == old(self).gbp_settings,
                        self.factors@.len() == nf,
                        self.factors == factors_after_compute,
                        fa == factors_after_compute@,
                        computed@.len() == nf,
                        computed@[j2 as int],
                        self.variables@.len() == old(self).variables@.len(),
                        na == fa[j2 as int].adjacent@.len(),
                        forall|i: int|
                            #![trigger self.variables@[i]]
                            0 <= i < old(self).variables@.len() ==> {
                                let v0 = old(self).variables@[i];
                                let v1 = self.variables@[i];
                                &&& v1.id == v0.id
                                &&& v1.dofs == v0.dofs
                                &&& v1.prior == v0.prior
                                &&& v1.belief == v0.belief
                                &&& delivered_upto(v1, v0, fa, computed@, i, j2 as int, t as int)
                            },
                    decreases na - t,
                {
                    let vid: usize = self.factors[j2].adjacent[t];
                    let ghost pre_vars = self.variables@;
                    let msg: Gaussian = self.factors[j2].outbox[t].copy();
                    self.variables[vid].set_message(j2, msg);
                    proof {
                        let f = fa[j2 as int];
                        // the delivered position is exactly this neighbour's
                        lemma_find_adj(f.adjacent@, vid as int, 0);
                        assert(adj_pos(f, vid as int) == t as int);
                        assert(crate::gaussian::gaussian_value_eq(msg, f.outbox@[t as int]));
                        assert forall|i: int|
                            0 <= i < old(self).variables@.len() implies {
                            let v0 = old(self).variables@[i];
                            let v1 = #[trigger] self.variables@[i];
                            &&& v1.id == v0.id
                            &&& v1.dofs == v0.dofs
                            &&& v1.prior == v0.prior
                            &&& v1.belief == v0.belief
                            &&& delivered_upto(
                                v1,
                                v0,
                                fa,
                                computed@,
                                i,
                                j2 as int,
                                t + 1 as int,
                            )
                        } by {
                            let v0 = old(self).variables@[i];
                            let v1 = self.variables@[i];
                            let vpre = pre_vars[i];
                            if i == vid {
                                assert forall|k: int| 0 <= k implies #[trigger] delivered_slot_ok(
                                    v1,
                                    v0,
                                    fa,
                                    computed@,
                                    i,
                                    j2 as int,
                                    t + 1 as int,
                                    k,
                                ) by {
                                    crate::variable::lemma_slot_of_spec(v1.inbox@, k);
                                    crate::variable::lemma_slot_of_spec(vpre.inbox@, k);
                                    crate::variable::lemma_slot_of_spec(v0.inbox@, k);
                                    if k != j2 {
                                        assert(delivered_slot_ok(
                                            vpre,
                                            v0,
                                            fa,
                                            computed@,
                                            i,
                                            j2 as int,
                                            t as int,
                                            k,
                                        ));
                                        if 0 <= k < fa.len() && computed@[k] && adj_pos(fa[k], i)
                                            < fa[k].adjacent@.len() && (k < j2 as int || (k
                                            == j2 as int && adj_pos(fa[k], i) < t + 1)) {
                                        } else {
                                        }
                                    }
                                }
                            } else {
                                assert(v1 == vpre);
                                assert forall|k: int| 0 <= k implies #[trigger] delivered_slot_ok(
                                    v1,
                                    v0,
                                    fa,
                                    computed@,
                                    i,
                                    j2 as int,
                                    t + 1 as int,
                                    k,
                                ) by {
                                    assert(delivered_slot_ok(
                                        vpre,
                                        v0,
                                        fa,
                                        computed@,
                                        i,
                                        j2 as int,
                                        t as int,
                                        k,
                                    ));
                                    if k == j2 as int && adj_pos(fa[k], i) == t as int {
                                        lemma_find_adj(fa[k].adjacent@, i, 0);
                                        assert(false);
                                    }
                                }
                            }
                            assert(delivered_upto(
                                v1,
                                v0,
                                fa,
                                computed@,
                                i,
                                j2 as int,
                                t + 1 as int,
                            ));
                        }
                    }
                    t += 1;
                }
                proof {
                    assert forall|i: int|
                        0 <= i < old(self).variables@.len() implies delivered_upto(
                        #[trigger] self.variables@[i],
                        old(self).variables@[i],
                        fa,
                        computed@,
                        i,
                        j2 + 1 as int,
                        0,
                    ) by {
                        let v0 = old(self).variables@[i];
                        let v1 = self.variables@[i];
                        assert forall|k: int| 0 <= k implies #[trigger] delivered_slot_ok(
                            v1,
                            v0,
                            fa,
                            computed@,
                            i,
                            j2 + 1 as int,
                            0,
                            k,
                        ) by {
                            if 0 <= k < fa.len() {
                                lemma_find_adj(fa[k].adjacent@, i, 0);
                            }
                            assert(delivered_slot_ok(
                                v1,
                                v0,
                                fa,
                                computed@,
                                i,
                                j2 as int,
                                na as int,
                                k,
                            ));
                        }
                    }
                }
            } else {
                proof {
                    assert forall|i: int|
                        0 <= i < old(self).variables@.len() implies delivered_upto(
                        #[trigger] self.variables@[i],
                        old(self).variables@[i],
                        fa,
                        computed@,
                        i,
                        j2 + 1 as int,
                        0,
                    ) by {
                        let v0 = old(self).variables@[i];
                        let v1 = self.variables@[i];
                        assert forall|k: int| 0 <= k implies #[trigger] delivered_slot_ok(
                            v1,
                            v0,
                            fa,
                            computed@,
                            i,
                            j2 + 1 as int,
                            0,
                            k,
                        ) by {
                            if 0 <= k < fa.len() {
                                lemma_find_adj(fa[k].adjacent@, i, 0);
                            }
                            assert(delivered_slot_ok(
                                v1,
                                v0,
                                fa,
                                computed@,
                                i,
                                j2 as int,
                                0,
                                k,
                            ));
                        }
                    }
                }
            }
            j2 += 1;
        }
        proof {
            assert forall|i: int|
                0 <= i < old(self).variables@.len() implies delivered_rel(
                #[trigger] self.variables@[i],
                old(self).variables@[i],
                fa,
                computed@,
                i,
            ) by {
            }
            assert(messages_phase_rel(*self, *old(self), apply_dropout));
        }
        outcomes
    }

    /// One synchronous iteration: robustify all losses, relinearise drifted
    /// non-linear factors, compute and deliver damped messages under
    /// dropout, and finally update all beliefs.  Each phase reads only the
    /// previous phase's writes.
    pub fn synchronous_iteration(&mut self)
        requires
            old(self).wf(),
        ensures
            final(self).wf(),
            final(self).gbp_settings == old(self).gbp_settings,
            final(self).variables@.len() == old(self).variables@.len(),
            final(self).factors@.len() == old(self).factors@.len(),
            forall|i: int|
                #![trigger final(self).variables@[i]]
                0 <= i < old(self).variables@.len() ==> {
                    let v0 = old(self).variables@[i];
                    let v1 = final(self).variables@[i];
                    &&& v1.id == v0.id
                    &&& v1.dofs == v0.dofs
                    &&& v1.prior == v0.prior
                },
            iteration_rel(*final(self), *old(self)),
            (old(self).factors@.len() == 0 || rat_eq(old(self).gbp_settings.dropout.value@, rone()))
                ==> forall|i: int|
                #![trigger final(self).variables@[i]]
                0 <= i < old(self).variables@.len() ==> {
                    let v0 = old(self).variables@[i];
                    let v1 = final(self).variables@[i];
                    &&& v1.inbox == v0.inbox
                    &&& (v0.inbox@.len() == 0 ==> v1.belief.eta@ == v0.prior.eta@ && forall|
                        p: int,
                        q: int,
                    |
                        0 <= p < v0.dofs && 0 <= q < v0.dofs ==> #[trigger] v1.belief.lam.at(p, q)
                            == v0.prior.lam.at(p, q))
                },
    {
        let _losses_rescaled = self.robustify_factors();
        let ghost s1 = *self;
        let _jit_outcomes = self.jit_linearisation();
        let ghost s2 = *self;
        let _sweep_outcomes = self.compute_messages(true);
        let ghost s3 = *self;
        let _beliefs_updated = self.update_beliefs();
        proof {
            assert(robustify_phase_rel(s1, *old(self)));
            assert(jit_phase_rel(s2, s1));
            assert(messages_phase_rel(s3, s2, true));
            assert(beliefs_phase_rel(*self, s3));
            assert(iteration_rel(*self, *old(self)));
            if old(self).factors@.len() == 0 || rat_eq(
                old(self).gbp_settings.dropout.value@,
                rone(),
            ) {
                assert(s2.variables == old(self).variables);
                assert(s3.variables == old(self).variables);
            }
        }
    }

    /// Run up to `settings.iterations` synchronous iterations, stopping early
    /// once the absolute energy difference between consecutive iterations
    /// stays below the threshold three times in a row (the first iteration is
    /// compared against an initial zero).  Returns the verdict and, when
    /// logging is on, the energy trace.  The whole run is a lawful chain of
    /// iteration steps (`solve_rel`).  A graph with no factors and no pending
    /// messages is a fixed point: every belief stays exactly at its prior;
    /// the same holds when the dropout probability is one.
    pub fn solve(&mut self, settings: &SolveSettings) -> (r: (SolveResult, Vec<Rat>))
        requires
            old(self).wf(),
            settings.wf(),
        ensures
            final(self).wf(),
            final(self).gbp_settings == old(self).gbp_settings,
            final(self).variables@.len() == old(self).variables@.len(),
            final(self).factors@.len() == old(self).factors@.len(),
            solve_rel(*old(self), *final(self), *settings, r.0, r.1@),
            ((old(self).factors@.len() == 0 || rat_eq(
                old(self).gbp_settings.dropout.value@,
                rone(),
            )) && (forall|i: int|
                0 <= i < old(self).variables@.len() ==> (#[trigger] old(self).variables@[i]).inbox@.len() == 0)) ==> forall|i: int|
                #![trigger final(self).variables@[i]]
                0 <= i < old(self).variables@.len() ==> {
                    let v0 = old(self).variables@[i];
                    let v1 = final(self).variables@[i];
                    &&& v1.prior == v0.prior
                    &&& v1.inbox@.len() == 0
                    &&& v1.belief.eta@ == v0.prior.eta@
                    &&& forall|p: int, q: int|
                        0 <= p < v0.dofs && 0 <= q < v0.dofs ==> #[trigger] v1.belief.lam.at(p, q)
                            == v0.prior.lam.at(p, q)
                },
    {
        let mut energies: Vec<Rat> = Vec::new();
        let mut previous: Option<Rat> = Some(Rat::zero());
        let mut stable: usize = 0;
        let mut i: usize = 0;
        let ghost mut states: Seq<FactorGraph> = seq![*old(self)];
        let ghost mut es: Seq<Option<Rat>> = Seq::empty();
        while i < settings.iterations
            invariant
                old(self).wf(),
                settings.wf(),
                self.wf(),
                self.gbp_settings == old(self).gbp_settings,
                self.variables@.len() == old(self).variables@.len(),
                self.factors@.len() == old(self).factors@.len(),
                i <= settings.iterations,
                states.len() == i + 1,
                es.len() == i,
                states[0] == *old(self),
                states[i as int] == *self,
                forall|t: int|
                    0 <= t < i ==> #[trigger] solve_step_rel(states[t + 1], states[t], t),
                forall|t: int|
                    0 <= t < i ==> (match #[trigger] es[t] {
                        Option::Some(e) => e.wf() && graph_energy_rel(
                            states[t + 1],
                            settings.include_priors,
                            e@,
                        ),
                        Option::None => states[t + 1].factors@.len() > 0
                            || settings.include_priors,
                    }),
                settings.log ==> energies@ == somes(es),
                !settings.log ==> energies@.len() == 0,
                previous matches Some(p) ==> p.wf() && (i == 0 ==> p@ == rzero()) && (i > 0
                    ==> es[i - 1] == Option::Some(p)),
                previous is None ==> i > 0 && es[i - 1] is None,
                stable <= 2,
                stable <= i,
                forall|u: int|
                    i - stable <= u < i ==> #[trigger] step_converged(
                        es,
                        u,
                        settings.convergence_threshold@,
                    ),
                stable > 0 && i >= 1 ==> es[i - 1] is Some,
                forall|i2: int|
                    #![trigger self.variables@[i2]]
                    0 <= i2 < old(self).variables@.len() ==> {
                        let v0 = old(self).variables@[i2];
                        let v1 = self.variables@[i2];
                        &&& v1.id == v0.id
                        &&& v1.dofs == v0.dofs
                        &&& v1.prior == v0.prior
                    },
                ((old(self).factors@.len() == 0 || rat_eq(
                    old(self).gbp_settings.dropout.value@,
                    rone(),
                )) && (forall|i2: int|
                    0 <= i2 < old(self).variables@.len() ==> (#[trigger] old(self).variables@[i2]).inbox@.len() == 0)) ==> forall|i2: int|
                    #![trigger self.variables@[i2]]
                    0 <= i2 < old(self).variables@.len() ==> {
                        let v0 = old(self).variables@[i2];
                        let v1 = self.variables@[i2];
                        &&& v1.inbox@.len() == 0
                        &&& (i > 0 ==> v1.belief.eta@ == v0.prior.eta@ && forall|p: int, q: int|
                            0 <= p < v0.dofs && 0 <= q < v0.dofs ==> #[trigger] v1.belief.lam.at(
                                p,
                                q,
                            ) == v0.prior.lam.at(p, q))
                        &&& (i == 0 ==> v1 == v0)
                    },
            decreases settings.iterations - i,
        {
            let ghost pre_state = *self;
            self.synchronous_iteration();
            let ghost mid_state = *self;
            // optionally reset the relinearisation counters at this iteration
            let resets: bool = contains_index(
                &self.gbp_settings.reset_iterations_since_relinearisation,
                i,
            );
            if resets {
                self.reset_relinearisation_counters();
            }
            proof {
                assert(iteration_rel(mid_state, pre_state));
                if resets {
                    assert(resets_at(pre_state.gbp_settings, i as int));
                    assert(counters_reset_rel(*self, mid_state));
                } else {
                    assert(!resets_at(pre_state.gbp_settings, i as int));
                }
                assert(solve_step_rel(*self, pre_state, i as int));
                states = states.push(*self);
            }
            let ghost es0 = es;
            let now: Result<Rat, GbpError> = self.energy(settings.include_priors);
            match now {
                Ok(e) => {
                    proof {
                        es = es.push(Option::Some(e));
                        assert(es.drop_last() =~= es0);
                        assert(somes(es) == somes(es0).push(e));
                    }
                    if settings.log {
                        energies.push(e);
                    }
                    let step_ok: bool = match &previous {
                        Some(p) => {
                            match p.sub(&e) {
                                Some(diff) => {
                                    match diff.abs() {
                                        Some(ad) => {
                                            match ad.lt(&settings.convergence_threshold) {
                                                Some(b) => {
                                                    proof {
                                                        if b {
                                                            lemma_converged_chain(
                                                                p@,
                                                                e@,
                                                                settings.convergence_threshold@,
                                                                diff@,
                                                                ad@,
                                                            );
                                                        }
                                                    }
                                                    b
                                                },
                                                None => false,
                                            }
                                        },
                                        None => false,
                                    }
                                },
                                None => false,
                            }
                        },
                        None => false,
                    };
                    if step_ok {
                        proof {
                            if i > 0 {
                                assert(es[i - 1] == es0[i - 1]);
                            }
                            assert(step_converged(es, i as int, settings.convergence_threshold@));
                        }
                        if stable < usize::MAX {
                            stable = stable + 1;
                        }
                        if stable >= 3 {
                            proof {
                                assert forall|u: int|
                                    i - 2 <= u < i implies #[trigger] step_converged(
                                    es,
                                    u,
                                    settings.convergence_threshold@,
                                ) by {
                                    assert(es[u] == es0[u]);
                                    if u > 0 {
                                        assert(es[u - 1] == es0[u - 1]);
                                    }
                                    assert(step_converged(
                                        es0,
                                        u,
                                        settings.convergence_threshold@,
                                    ));
                                }
                                assert(solve_trace_witness(
                                    *old(self),
                                    *self,
                                    *settings,
                                    states,
                                    es,
                                    SolveResult::Converged,
                                    energies@,
                                ));
                            }
                            return (SolveResult::Converged, energies);
                        }
                    } else {
                        stable = 0;
                    }
                    previous = Some(e);
                },
                Err(_) => {
                    proof {
                        assert(self.factors@.len() > 0 || settings.include_priors);
                        es = es.push(Option::None);
                        assert(es.drop_last() =~= es0);
                        assert(somes(es) == somes(es0));
                    }
                    stable = 0;
                    previous = None;
                },
            }
            proof {
                assert forall|u: int|
                    i + 1 - stable <= u < i + 1 implies #[trigger] step_converged(
                    es,
                    u,
                    settings.convergence_threshold@,
                ) by {
                    if u < i {
                        assert(es[u] == es0[u]);
                        if u > 0 {
                            assert(es[u - 1] == es0[u - 1]);
                        }
                        assert(step_converged(es0, u, settings.convergence_threshold@));
                    }
                }
            }
            i += 1;
        }
        proof {
            assert(solve_trace_witness(
                *old(self),
                *self,
                *settings,
                states,
                es,
                SolveResult::MaxIterationsReached,
                energies@,
            ));
        }
        (SolveResult::MaxIterationsReached, energies)
    }

    /// Reset every factor's relinearisation counter to one, forcing the
    /// damping schedule back towards its undamped window.
    fn reset_relinearisation_counters(&mut self)
        requires
            old(self).wf(),
        ensures
            final(self).wf(),
            final(self).variables == old(self).variables,
            final(self).gbp_settings == old(self).gbp_settings,
            final(self).factors@.len() == old(self).factors@.len(),
            forall|j: int|
                #![trigger final(self).factors@[j]]
                0 <= j < old(self).factors@.len() ==> {
                    let f0 = old(self).factors@[j];
                    let f1 = final(self).factors@[j];
                    &&& f1.id == f0.id
                    &&& f1.adjacent == f0.adjacent
                    &&& f1.dims == f0.dims
                    &&& f1.model == f0.model
                    &&& f1.loss == f0.loss
                    &&& f1.x0 == f0.x0
                    &&& f1.gaussian == f0.gaussian
                    &&& f1.outbox == f0.outbox
                    &&& f1.iterations_since_relinearisation == 1
                },
            counters_reset_rel(*final(self), *old(self)),
    {
        let n: usize = self.factors.len();
        let mut j: usize = 0;
        while j < n
            invariant
                j <= n,
                n == old(self).factors@.len(),
                old(self).wf(),
                self.variables == old(self).variables,
                self.gbp_settings == old(self).gbp_settings,
                self.factors@.len() == n,
                self.wf(),
                forall|j2: int| j <= j2 < n ==> self.factors@[j2] == old(self).factors@[j2],
                forall|j2: int|
                    #![trigger self.factors@[j2]]
                    0 <= j2 < j ==> {
                        let f0 = old(self).factors@[j2];
                        let f1 = self.factors@[j2];
                        &&& f1.id == f0.id
                        &&& f1.adjacent == f0.adjacent
                        &&& f1.dims == f0.dims
                        &&& f1.model == f0.model
                        &&& f1.loss == f0.loss
                        &&& f1.x0 == f0.x0
                        &&& f1.gaussian == f0.gaussian
                        &&& f1.outbox == f0.outbox
                        &&& f1.iterations_since_relinearisation == 1
                    },
            decreases n - j,
        {
            self.factors[j].iterations_since_relinearisation = 1;
            j += 1;
        }
    }
}

/// The value of the damping schedule for a factor's round counter.
pub open spec fn damping_of(s: GbpSettings, iters: int) -> Ratio {
    if iters > s.number_of_undamped_iterations {
        s.damping@
    } else {
        rzero()
    }
}

/// `incoming[s]` is the exact leave-one-out message of factor `j`'s neighbour
/// `s` in `g0`: the product of that variable's prior and all its incoming
/// messages except the one from factor `j`.
pub open spec fn gathered_rel(g0: FactorGraph, j: int, incoming: Seq<Gaussian>) -> bool {
    &&& incoming.len() == g0.factors@[j].adjacent@.len()
    &&& forall|s: int|
        #![trigger incoming[s]]
        0 <= s < incoming.len() ==> {
            let v = g0.variables@[g0.factors@[j].adjacent@[s] as int];
            &&& incoming[s].wf()
            &&& incoming[s].dim() == v.dofs
            &&& forall|k: int|
                0 <= k < v.dofs ==> rat_eq(
                    #[trigger] incoming[s].eta@[k]@,
                    eta_sum_except(v.prior.eta@[k]@, v.inbox@, j, k),
                )
            &&& forall|p: int, q: int|
                0 <= p < v.dofs && 0 <= q < v.dofs ==> rat_eq(
                    #[trigger] incoming[s].lam.at(p, q),
                    lam_sum_except(v.prior.lam.at(p, q), v.inbox@, j, p, q),
                )
        }
}

/// Factor `j` computed its outgoing messages this round: each outbox entry is
/// either left (a degenerate marginalisation) or derived from the pre-state's
/// leave-one-out messages under the damping schedule.
pub open spec fn factor_swept(g0: FactorGraph, j: int, f1: Factor) -> bool {
    exists|incoming: Seq<Gaussian>, d: Rat|
        #![trigger gathered_rel(g0, j, incoming), d.wf()]
        {
            &&& gathered_rel(g0, j, incoming)
            &&& d.wf()
            &&& rat_eq(
                d@,
                damping_of(
                    g0.gbp_settings,
                    g0.factors@[j].iterations_since_relinearisation as int,
                ),
            )
            &&& f1.outbox@.len() == g0.factors@[j].outbox@.len()
            &&& forall|t: int|
                0 <= t < f1.outbox@.len() ==> (#[trigger] f1.outbox@[t])
                    == g0.factors@[j].outbox@[t] || message_rel(
                    f1.outbox@[t],
                    g0.factors@[j].gaussian,
                    g0.factors@[j].dims@,
                    incoming,
                    d@,
                    g0.factors@[j].outbox@[t],
                    t,
                )
        }
}

/// What the message sweep did with one factor.
#[derive(Clone, Copy, Debug, PartialEq, Eq, Structural)]
pub enum SweepOutcome {
    /// The factor gathered its neighbours' leave-one-out messages and swept
    /// its outbox.
    Computed,
    /// The dropout draw skipped the factor; it is untouched.  Skips happen
    /// only when dropout is applied.
    Skipped,
    /// Gathering a leave-one-out message hit the named numeric degeneracy;
    /// the factor is untouched.
    Failed(GbpError),
}

/// The compute half of the message sweep: under dropout a draw at most the
/// dropout probability skips the factor (state untouched); a computed factor
/// was swept against the pre-state and its round counter advanced.
pub open spec fn messages_computed_rel(
    fs1: Seq<Factor>,
    g0: FactorGraph,
    computed: Seq<bool>,
    draws: Seq<Rat>,
    apply_dropout: bool,
) -> bool {
    &&& fs1.len() == g0.factors@.len()
    &&& computed.len() == g0.factors@.len()
    &&& draws.len() == g0.factors@.len()
    &&& forall|j: int|
        #![trigger fs1[j]]
        0 <= j < g0.factors@.len() ==> {
            let f0 = g0.factors@[j];
            let f1 = fs1[j];
            &&& (!computed[j] ==> f1 == f0)
            &&& (apply_dropout && skip_by_dropout(draws[j]@, g0.gbp_settings.dropout.value@)
                ==> !computed[j])
            &&& (computed[j] ==> {
                &&& f1.id == f0.id
                &&& f1.adjacent == f0.adjacent
                &&& f1.dims == f0.dims
                &&& f1.model == f0.model
                &&& f1.loss == f0.loss
                &&& f1.x0 == f0.x0
                &&& f1.gaussian == f0.gaussian
                &&& (f0.iterations_since_relinearisation < usize::MAX
                    ==> f1.iterations_since_relinearisation
                    == f0.iterations_since_relinearisation + 1)
                &&& factor_swept(g0, j, f1)
            })
        }
}

/// Delivery of the computed messages into one variable's message table, keyed
/// slot by keyed slot: for every key of a computed neighbouring factor whose
/// sweep has reached this variable, the slot holds that factor's fresh
/// outgoing message by value; every other key is exactly as before (present
/// with the identical slot, or absent).  The cutoff pair `(j_done, t_done)`
/// describes how far the delivery sweep has progressed.
pub open spec fn delivered_slot_ok(
    v1: Variable,
    v0: Variable,
    fa: Seq<Factor>,
    computed: Seq<bool>,
    i: int,
    j_done: int,
    t_done: int,
    k: int,
) -> bool {
    let s1 = crate::variable::slot_of(v1.inbox@, k);
    let s0 = crate::variable::slot_of(v0.inbox@, k);
    if 0 <= k < fa.len() && computed.len() == fa.len() && computed[k] && adj_pos(fa[k], i)
        < fa[k].adjacent@.len() && (k < j_done || (k == j_done && adj_pos(fa[k], i) < t_done)) {
        &&& s1 < v1.inbox@.len()
        &&& v1.inbox@[s1].0 == k
        &&& crate::gaussian::gaussian_value_eq(
            v1.inbox@[s1].1,
            fa[k].outbox@[adj_pos(fa[k], i)],
        )
    } else {
        &&& (s1 < v1.inbox@.len() <==> s0 < v0.inbox@.len())
        &&& (s1 < v1.inbox@.len() ==> v1.inbox@[s1] == v0.inbox@[s0])
    }
}

pub open spec fn delivered_upto(
    v1: Variable,
    v0: Variable,
    fa: Seq<Factor>,
    computed: Seq<bool>,
    i: int,
    j_done: int,
    t_done: int,
) -> bool {
    forall|k: int|
        0 <= k ==> #[trigger] delivered_slot_ok(v1, v0, fa, computed, i, j_done, t_done, k)
}

/// Every computed message was delivered into the neighbour's inbox slot; all
/// other slots are untouched.
pub open spec fn delivered_rel(
    v1: Variable,
    v0: Variable,
    fa: Seq<Factor>,
    computed: Seq<bool>,
    i: int,
) -> bool {
    delivered_upto(v1, v0, fa, computed, i, fa.len() as int, 0)
}

/// The relation of the whole message sweep: some dropout draws decide which
/// factors compute; computed factors are swept against the pre-state; every
/// fresh message lands in its neighbour's slot and nothing else moves.
pub open spec fn messages_phase_rel(g1: FactorGraph, g0: FactorGraph, apply_dropout: bool) -> bool {
    exists|computed: Seq<bool>, draws: Seq<Rat>|
        #![trigger messages_computed_rel(g1.factors@, g0, computed, draws, apply_dropout)]
        {
            &&& messages_computed_rel(g1.factors@, g0, computed, draws, apply_dropout)
            &&& g1.wf()
            &&& g1.gbp_settings == g0.gbp_settings
            &&& g1.variables@.len() == g0.variables@.len()
            &&& forall|i: int|
                #![trigger g1.variables@[i]]
                0 <= i < g0.variables@.len() ==> {
                    let v0 = g0.variables@[i];
                    let v1 = g1.variables@[i];
                    &&& v1.id == v0.id
                    &&& v1.dofs == v0.dofs
                    &&& v1.prior == v0.prior
                    &&& v1.belief == v0.belief
                    &&& delivered_rel(v1, v0, g1.factors@, computed, i)
                }
        }
}

/// The relation of the belief-update sweep: every belief becomes the
/// information-form sum of its prior and its (unchanged) incoming messages,
/// or stays (only on machine-word exhaustion); an empty table gives exactly
/// the prior.
pub open spec fn beliefs_phase_rel(g1: FactorGraph, g0: FactorGraph) -> bool {
    &&& g1.wf()
    &&& g1.factors == g0.factors
    &&& g1.gbp_settings == g0.gbp_settings
    &&& g1.variables@.len() == g0.variables@.len()
    &&& forall|i: int|
        #![trigger g1.variables@[i]]
        0 <= i < g0.variables@.len() ==> {
            let v0 = g0.variables@[i];
            let v1 = g1.variables@[i];
            &&& v1.id == v0.id
            &&& v1.dofs == v0.dofs
            &&& v1.prior == v0.prior
            &&& v1.inbox == v0.inbox
            &&& (v1.belief == v0.belief || updated_belief(v1, v0))
            &&& (v0.inbox@.len() == 0 ==> v1.belief.eta@ == v0.prior.eta@ && forall|p: int, q: int|
                0 <= p < v0.dofs && 0 <= q < v0.dofs ==> #[trigger] v1.belief.lam.at(p, q)
                    == v0.prior.lam.at(p, q))
        }
}

/// One synchronous iteration: the four phase relations chained through
/// intermediate states, so reads of each phase see only writes of earlier
/// phases.
pub open spec fn iteration_rel(g1: FactorGraph, g0: FactorGraph) -> bool {
    exists|s1: FactorGraph, s2: FactorGraph, s3: FactorGraph|
        #![trigger robustify_phase_rel(s1, g0), jit_phase_rel(s2, s1), messages_phase_rel(s3, s2, true)]
        {
            &&& robustify_phase_rel(s1, g0)
            &&& jit_phase_rel(s2, s1)
            &&& messages_phase_rel(s3, s2, true)
            &&& beliefs_phase_rel(g1, s3)
        }
}

/// The loss scale of `f1` was re-derived, per the robust-loss rule, from an
/// exact residual of factor `j` of `g0` at exact belief means of its
/// neighbours.
pub open spec fn robustified(g0: FactorGraph, j: int, f1: Factor) -> bool {
    exists|x: Vec<Rat>, rv: Vec<Rat>|
        #![trigger adj_solves(g0, j, rats(x@)), crate::factor::robustify_rel(f1.loss, g0.factors@[j].loss, rv@)]
        {
            &&& vec_wf(x@)
            &&& adj_solves(g0, j, rats(x@))
            &&& crate::factor::residual_rel(g0.factors@[j].model, rats(x@), rv@)
            &&& crate::factor::robustify_rel(f1.loss, g0.factors@[j].loss, rv@)
        }
}

/// The relation of the robustify sweep: every factor keeps all its state but
/// the loss scale, and the scale is either re-derived from an exact residual
/// or (on a numeric degeneracy) left unchanged.
pub open spec fn robustify_phase_rel(g1: FactorGraph, g0: FactorGraph) -> bool {
    &&& g1.wf()
    &&& g1.variables == g0.variables
    &&& g1.gbp_settings == g0.gbp_settings
    &&& g1.factors@.len() == g0.factors@.len()
    &&& forall|j: int|
        #![trigger g1.factors@[j]]
        0 <= j < g0.factors@.len() ==> {
            let f0 = g0.factors@[j];
            let f1 = g1.factors@[j];
            &&& f1.id == f0.id
            &&& f1.adjacent == f0.adjacent
            &&& f1.dims == f0.dims
            &&& f1.model == f0.model
            &&& f1.loss.base_precision == f0.loss.base_precision
            &&& f1.loss.kind == f0.loss.kind
            &&& f1.x0 == f0.x0
            &&& f1.gaussian == f0.gaussian
            &&& f1.outbox == f0.outbox
            &&& f1.iterations_since_relinearisation == f0.iterations_since_relinearisation
            &&& (f1.loss.scale == f0.loss.scale || robustified(g0, j, f1))
        }
}

/// The relation of a full relinearisation sweep: every factor is either
/// untouched (a degenerate mean) or relinearised around exact belief means of
/// the given state.
pub open spec fn linearised_phase_rel(g1: FactorGraph, g0: FactorGraph) -> bool {
    &&& g1.wf()
    &&& g1.variables == g0.variables
    &&& g1.gbp_settings == g0.gbp_settings
    &&& g1.factors@.len() == g0.factors@.len()
    &&& forall|j: int|
        #![trigger g1.factors@[j]]
        0 <= j < g0.factors@.len() ==> {
            let f0 = g0.factors@[j];
            let f1 = g1.factors@[j];
            &&& f1.id == f0.id
            &&& f1.adjacent == f0.adjacent
            &&& f1.dims == f0.dims
            &&& f1.model == f0.model
            &&& f1.loss == f0.loss
            &&& f1.outbox == f0.outbox
            &&& (f1 == f0 || relinearised(g0, j, f1))
        }
}

/// Some exact adjacency-means vector of factor `j` drifts from the cached
/// linearisation point by more than beta in squared Euclidean norm.
pub open spec fn drift_witnessed(g0: FactorGraph, j: int) -> bool {
    exists|x: Vec<Rat>, diff: Vec<Rat>, ns: Rat|
        #![trigger adj_solves(g0, j, rats(x@)), rdot(rats(diff@), rats(diff@)), ns.wf()]
        {
            &&& vec_wf(x@)
            &&& adj_solves(g0, j, rats(x@))
            &&& diff@.len() == g0.factors@[j].dim()
            &&& vec_wf(diff@)
            &&& forall|k: int|
                0 <= k < diff@.len() ==> rat_eq(
                    #[trigger] diff@[k]@,
                    crate::rat::rsub(x@[k]@, g0.factors@[j].x0@[k]@),
                )
            &&& ns.wf()
            &&& rat_eq(ns@, rdot(rats(diff@), rats(diff@)))
            &&& rlt(rmul(g0.gbp_settings.beta@, g0.gbp_settings.beta@), ns@)
        }
}

/// Some exact adjacency-means vector of factor `j` stays within beta of the
/// cached linearisation point (squared Euclidean norm at most beta squared).
pub open spec fn within_threshold(g0: FactorGraph, j: int) -> bool {
    exists|x: Vec<Rat>, diff: Vec<Rat>, ns: Rat|
        #![trigger adj_solves(g0, j, rats(x@)), rdot(rats(diff@), rats(diff@)), ns.wf()]
        {
            &&& vec_wf(x@)
            &&& adj_solves(g0, j, rats(x@))
            &&& diff@.len() == g0.factors@[j].dim()
            &&& vec_wf(diff@)
            &&& forall|k: int|
                0 <= k < diff@.len() ==> rat_eq(
                    #[trigger] diff@[k]@,
                    crate::rat::rsub(x@[k]@, g0.factors@[j].x0@[k]@),
                )
            &&& ns.wf()
            &&& rat_eq(ns@, rdot(rats(diff@), rats(diff@)))
            &&& !rlt(rmul(g0.gbp_settings.beta@, g0.gbp_settings.beta@), ns@)
        }
}

/// What the just-in-time sweep did with one factor.
#[derive(Clone, Copy, Debug, PartialEq, Eq, Structural)]
pub enum JitOutcome {
    /// The factor is linear; linear factors are never relinearised.
    Linear,
    /// The exact adjacency means stayed within beta of the cached
    /// linearisation point; the factor is unchanged.
    WithinThreshold,
    /// The factor drifted past beta and was relinearised.
    Relinearised,
    /// The means, the drift test or the relinearisation hit a numeric
    /// degeneracy; the factor is unchanged this round.
    Degenerate,
}

/// The relation of the just-in-time linearisation sweep: linear factors are
/// untouched; a factor that changed is non-linear, drifted past beta, and was
/// relinearised around exact adjacency means.
pub open spec fn jit_phase_rel(g1: FactorGraph, g0: FactorGraph) -> bool {
    &&& g1.wf()
    &&& g1.variables == g0.variables
    &&& g1.gbp_settings == g0.gbp_settings
    &&& g1.factors@.len() == g0.factors@.len()
    &&& forall|j: int|
        #![trigger g1.factors@[j]]
        0 <= j < g0.factors@.len() ==> {
            let f0 = g0.factors@[j];
            let f1 = g1.factors@[j];
            &&& f1.id == f0.id
            &&& f1.adjacent == f0.adjacent
            &&& f1.dims == f0.dims
            &&& f1.model == f0.model
            &&& f1.loss == f0.loss
            &&& f1.outbox == f0.outbox
            &&& (f0.model.spec_is_linear() ==> f1 == f0)
            &&& (f1 == f0 || (!f0.model.spec_is_linear() && relinearised(g0, j, f1)
                && drift_witnessed(g0, j)))
        }
}

/// `f1` is `f0` of graph `g` relinearised around the current adjacency
/// means.
pub open spec fn relinearised(g: FactorGraph, j: int, f1: Factor) -> bool {
    exists|x: Vec<Rat>|
        {
            &&& vec_wf(x@)
            &&& #[trigger] adj_solves(g, j, rats(x@))
            &&& f1.x0@ == x@
            &&& f1.iterations_since_relinearisation == 0
            &&& factor_gaussian_rel(f1.gaussian, g.factors@[j].model, g.factors@[j].loss, rats(x@))
        }
}

/// Whether a vector of indices contains the given index.
fn contains_index(v: &Vec<usize>, x: usize) -> (r: bool)
    ensures
        r <==> exists|k: int| 0 <= k < v@.len() && v@[k] == x,
{
    let n: usize = v.len();
    let mut k: usize = 0;
    while k < n
        invariant
            k <= n,
            n == v@.len(),
            forall|k2: int| 0 <= k2 < k ==> v@[k2] != x,
        decreases n - k,
    {
        if v[k] == x {
            return true;
        }
        k += 1;
    }
    false
}

/// Left fold of a sequence of rationals by exact addition, from zero.
pub open spec fn rfold(s: Seq<Ratio>) -> Ratio
    decreases s.len(),
{
    if s.len() == 0 {
        rzero()
    } else {
        radd(rfold(s.drop_last()), s.last())
    }
}

pub proof fn lemma_rfold_wf(s: Seq<Ratio>)
    requires
        crate::linalg::seq_wf(s),
    ensures
        rat_wf(rfold(s)),
    decreases s.len(),
{
    if s.len() > 0 {
        assert(crate::linalg::seq_wf(s.drop_last()));
        lemma_rfold_wf(s.drop_last());
        crate::rat::lemma_radd_wf(rfold(s.drop_last()), s.last());
    }
}

/// `e` is the energy of factor `j` of the graph, measured at exact belief
/// means of its neighbours.
pub open spec fn graph_factor_energy(g: FactorGraph, j: int, e: Ratio) -> bool {
    exists|x: Vec<Rat>|
        {
            &&& vec_wf(x@)
            &&& #[trigger] adj_solves(g, j, rats(x@))
            &&& factor_energy_rel(e, g.factors@[j].model, g.factors@[j].loss, rats(x@))
        }
}

/// The witness of a graph's total energy: per-factor energies `es`, prior
/// energies `ps` (empty when priors are excluded), and their exact sum.
pub open spec fn energy_sum_witness(
    g: FactorGraph,
    include_priors: bool,
    e: Ratio,
    es: Seq<Ratio>,
    ps: Seq<Ratio>,
) -> bool {
    &&& es.len() == g.factors@.len()
    &&& crate::linalg::seq_wf(es)
    &&& forall|j: int| 0 <= j < es.len() ==> #[trigger] graph_factor_energy(g, j, es[j])
    &&& if include_priors {
        &&& ps.len() == g.variables@.len()
        &&& crate::linalg::seq_wf(ps)
        &&& forall|i: int|
            0 <= i < ps.len() ==> #[trigger] crate::variable::prior_energy_rel(
                g.variables@[i],
                ps[i],
            )
    } else {
        ps.len() == 0
    }
    &&& rat_eq(e, radd(rfold(es), rfold(ps)))
}

/// `e` is the total energy of the graph: the sum of all factor energies,
/// plus (when included) the sum of all prior energies.
pub open spec fn graph_energy_rel(g: FactorGraph, include_priors: bool, e: Ratio) -> bool {
    exists|es: Seq<Ratio>, ps: Seq<Ratio>|
        #[trigger] energy_sum_witness(g, include_priors, e, es, ps)
}

impl FactorGraph {
    /// The total energy: the sum of every factor's `r' W r` at the current
    /// adjacency means, plus (when `include_priors` is set) the sum of every
    /// variable's prior energy.
    pub fn energy(&self, include_priors: bool) -> (r: Result<Rat, GbpError>)
        requires
            self.wf(),
        ensures
            r matches Ok(e) ==> e.wf() && graph_energy_rel(*self, include_priors, e@),
            r matches Err(e) ==> (e is Singular || e is Overflow),
            (self.factors@.len() == 0 && !include_priors) ==> (r matches Ok(e) && rat_eq(
                e@,
                rzero(),
            )),
    {
        let nf: usize = self.factors.len();
        let mut facc: Rat = Rat::zero();
        let ghost mut es: Seq<Ratio> = Seq::empty();
        let mut j: usize = 0;
        while j < nf
            invariant
                j <= nf,
                nf == self.factors@.len(),
                self.wf(),
                facc.wf(),
                es.len() == j,
                crate::linalg::seq_wf(es),
                forall|j2: int| 0 <= j2 < j ==> #[trigger] graph_factor_energy(*self, j2, es[j2]),
                rat_eq(facc@, rfold(es)),
                j == 0 ==> facc@ == rzero(),
            decreases nf - j,
        {
            let x: Vec<Rat> = match self.adjacency_means(j) {
                Ok(x) => x,
                Err(e) => {
                    return Err(e);
                },
            };
            let ej: Rat = match self.factors[j].energy(&x) {
                Ok(e) => e,
                Err(_) => {
                    return Err(GbpError::Overflow);
                },
            };
            let next: Rat = match facc.add(&ej) {
                Some(v) => v,
                None => {
                    return Err(GbpError::Overflow);
                },
            };
            proof {
                assert(graph_factor_energy(*self, j as int, ej@));
                lemma_rfold_wf(es);
                crate::linalg::lemma_acc_step(facc@, rfold(es), ej@, ej@, next@);
                assert(es.push(ej@).drop_last() =~= es);
                es = es.push(ej@);
            }
            facc = next;
            j += 1;
        }
        let mut pacc: Rat = Rat::zero();
        let ghost mut ps: Seq<Ratio> = Seq::empty();
        if include_priors {
            let nv: usize = self.variables.len();
            let mut i: usize = 0;
            while i < nv
                invariant
                    include_priors,
                    i <= nv,
                    nv == self.variables@.len(),
                    self.wf(),
                    pacc.wf(),
                    ps.len() == i,
                    crate::linalg::seq_wf(ps),
                    forall|i2: int|
                        0 <= i2 < i ==> #[trigger] crate::variable::prior_energy_rel(
                            self.variables@[i2],
                            ps[i2],
                        ),
                    rat_eq(pacc@, rfold(ps)),
                decreases nv - i,
            {
                let ei: Rat = match self.variables[i].prior_energy() {
                    Ok(e) => e,
                    Err(e) => {
                        return Err(e);
                    },
                };
                let next: Rat = match pacc.add(&ei) {
                    Some(v) => v,
                    None => {
                        return Err(GbpError::Overflow);
                    },
                };
                proof {
                    lemma_rfold_wf(ps);
                    crate::linalg::lemma_acc_step(pacc@, rfold(ps), ei@, ei@, next@);
                    assert(ps.push(ei@).drop_last() =~= ps);
                    ps = ps.push(ei@);
                }
                pacc = next;
                i += 1;
            }
        }
        proof {
            if self.factors@.len() == 0 && !include_priors {
                assert(crate::rat::fits_radd(facc@, pacc@)) by (nonlinear_arith)
                    requires
                        facc@ == rzero(),
                        pacc@ == rzero(),
                ;
            }
        }
        let e: Rat = match facc.add(&pacc) {
            Some(v) => v,
            None => {
                return Err(GbpError::Overflow);
            },
        };
        proof {
            if self.factors@.len() == 0 && !include_priors {
                assert(rat_eq(e@, rzero())) by (nonlinear_arith)
                    requires
                        rat_eq(e@, radd(rzero(), rzero())),
                ;
            }
            lemma_rfold_wf(es);
            lemma_rfold_wf(ps);
            crate::rat::lemma_radd_congruence(facc@, rfold(es), pacc@, rfold(ps));
            crate::rat::lemma_radd_wf(facc@, pacc@);
            crate::rat::lemma_radd_wf(rfold(es), rfold(ps));
            crate::rat::lemma_rat_eq_trans(e@, radd(facc@, pacc@), radd(rfold(es), rfold(ps)));
            assert(energy_sum_witness(*self, include_priors, e@, es, ps));
        }
        Ok(e)
    }
}

/// Linear search for `vid` in an adjacency list, starting at `t`; the list
/// length means absence.
pub open spec fn find_adj(adj: Seq<usize>, vid: int, t: int) -> int
    decreases adj.len() - t,
{
    if t < 0 || t >= adj.len() {
        adj.len() as int
    } else if adj[t] == vid {
        t
    } else {
        find_adj(adj, vid, t + 1)
    }
}

/// The position of variable `vid` in a factor's adjacency list, or the list
/// length when the factor does not touch the variable.
pub open spec fn adj_pos(f: Factor, vid: int) -> int {
    find_adj(f.adjacent@, vid, 0)
}

proof fn lemma_find_adj(adj: Seq<usize>, vid: int, t: int)
    requires
        0 <= t <= adj.len(),
    ensures
        t <= find_adj(adj, vid, t) <= adj.len(),
        find_adj(adj, vid, t) < adj.len() ==> adj[find_adj(adj, vid, t)] == vid,
        find_adj(adj, vid, t) == adj.len() ==> forall|k: int| t <= k < adj.len() ==> adj[k] != vid,
    decreases adj.len() - t,
{
    if t < adj.len() {
        if adj[t] == vid {
        } else {
            lemma_find_adj(adj, vid, t + 1);
        }
    }
}

/// Scan an adjacency list for a variable id.
fn find_position(adj: &Vec<usize>, vid: usize) -> (r: Option<usize>)
    ensures
        r matches Some(t) ==> t < adj@.len() && adj@[t as int] == vid && t == find_adj(
            adj@,
            vid as int,
            0,
        ),
        r is None ==> find_adj(adj@, vid as int, 0) == adj@.len(),
{
    let n: usize = adj.len();
    let mut t: usize = 0;
    while t < n
        invariant
            t <= n,
            n == adj@.len(),
            find_adj(adj@, vid as int, 0) == find_adj(adj@, vid as int, t as int),
        decreases n - t,
    {
        if adj[t] == vid {
            return Some(t);
        }
        t += 1;
    }
    None
}

/// Fold of the factor contributions to the joint information vector at the
/// position of variable `vid`, local coordinate `local`, starting from the
/// prior's entry.
pub open spec fn joint_eta_acc(base: Ratio, factors: Seq<Factor>, vid: int, local: int) -> Ratio
    decreases factors.len(),
{
    if factors.len() == 0 {
        base
    } else {
        let rest = joint_eta_acc(base, factors.drop_last(), vid, local);
        let f = factors.last();
        let t = adj_pos(f, vid);
        if t < f.adjacent@.len() {
            radd(rest, f.gaussian.eta@[off(f.dims@, t) + local]@)
        } else {
            rest
        }
    }
}

/// Fold of the factor contributions to the joint precision at the block pair
/// of variables `vp`, `vq`, local coordinates `lp`, `lq`.
pub open spec fn joint_lam_acc(
    base: Ratio,
    factors: Seq<Factor>,
    vp: int,
    lp: int,
    vq: int,
    lq: int,
) -> Ratio
    decreases factors.len(),
{
    if factors.len() == 0 {
        base
    } else {
        let rest = joint_lam_acc(base, factors.drop_last(), vp, lp, vq, lq);
        let f = factors.last();
        let s = adj_pos(f, vp);
        let t = adj_pos(f, vq);
        if s < f.adjacent@.len() && t < f.adjacent@.len() {
            radd(rest, f.gaussian.lam.at(off(f.dims@, s) + lp, off(f.dims@, t) + lq))
        } else {
            rest
        }
    }
}

/// The degrees of freedom of all variables, in id order.
pub open spec fn vdims(g: FactorGraph) -> Seq<usize> {
    g.variables@.map_values(|v: Variable| v.dofs)
}

/// A factor's contributions carry well-formed, in-range entries when the
/// graph is well-formed.
proof fn lemma_contrib_index(g: FactorGraph, j: int, vid: int, local: int)
    requires
        g.wf(),
        0 <= j < g.factors@.len(),
        0 <= vid < g.variables@.len(),
        0 <= local < g.variables@[vid].dofs,
        adj_pos(g.factors@[j], vid) < g.factors@[j].adjacent@.len(),
    ensures
        0 <= adj_pos(g.factors@[j], vid),
        0 <= off(g.factors@[j].dims@, adj_pos(g.factors@[j], vid)) + local < g.factors@[j].dim(),
{
    let f = g.factors@[j];
    lemma_find_adj(f.adjacent@, vid, 0);
    let t = adj_pos(f, vid);
    crate::offsets::lemma_off_nonneg(f.dims@, t);
    crate::offsets::lemma_off_monotone(f.dims@, t + 1, f.dims@.len() as int);
    assert(off(f.dims@, t + 1) == off(f.dims@, t) + f.dims@[t]);
    assert(f.dims@[t] == g.variables@[vid].dofs);
}

proof fn lemma_joint_eta_acc_wf(g: FactorGraph, base: Ratio, k: int, vid: int, local: int)
    requires
        g.wf(),
        rat_wf(base),
        0 <= k <= g.factors@.len(),
        0 <= vid < g.variables@.len(),
        0 <= local < g.variables@[vid].dofs,
    ensures
        rat_wf(joint_eta_acc(base, g.factors@.take(k), vid, local)),
    decreases k,
{
    if k > 0 {
        assert(g.factors@.take(k).drop_last() =~= g.factors@.take(k - 1));
        assert(g.factors@.take(k).last() == g.factors@[k - 1]);
        lemma_joint_eta_acc_wf(g, base, k - 1, vid, local);
        let f = g.factors@[k - 1];
        if adj_pos(f, vid) < f.adjacent@.len() {
            lemma_contrib_index(g, k - 1, vid, local);
            crate::rat::lemma_radd_wf(
                joint_eta_acc(base, g.factors@.take(k - 1), vid, local),
                f.gaussian.eta@[off(f.dims@, adj_pos(f, vid)) + local]@,
            );
        }
    }
}

proof fn lemma_joint_lam_acc_wf(
    g: FactorGraph,
    base: Ratio,
    k: int,
    vp: int,
    lp: int,
    vq: int,
    lq: int,
)
    requires
        g.wf(),
        rat_wf(base),
        0 <= k <= g.factors@.len(),
        0 <= vp < g.variables@.len(),
        0 <= lp < g.variables@[vp].dofs,
        0 <= vq < g.variables@.len(),
        0 <= lq < g.variables@[vq].dofs,
    ensures
        rat_wf(joint_lam_acc(base, g.factors@.take(k), vp, lp, vq, lq)),
    decreases k,
{
    if k > 0 {
        assert(g.factors@.take(k).drop_last() =~= g.factors@.take(k - 1));
        assert(g.factors@.take(k).last() == g.factors@[k - 1]);
        lemma_joint_lam_acc_wf(g, base, k - 1, vp, lp, vq, lq);
        let f = g.factors@[k - 1];
        if adj_pos(f, vp) < f.adjacent@.len() && adj_pos(f, vq) < f.adjacent@.len() {
            lemma_contrib_index(g, k - 1, vp, lp);
            lemma_contrib_index(g, k - 1, vq, lq);
            crate::rat::lemma_radd_wf(
                joint_lam_acc(base, g.factors@.take(k - 1), vp, lp, vq, lq),
                f.gaussian.lam.at(
                    off(f.dims@, adj_pos(f, vp)) + lp,
                    off(f.dims@, adj_pos(f, vq)) + lq,
                ),
            );
        }
    }
}

/// Swapping the two positions mirrors the precision fold, because every
/// factor's Gaussian is symmetric.
proof fn lemma_joint_lam_acc_sym(
    g: FactorGraph,
    base1: Ratio,
    base2: Ratio,
    k: int,
    vp: int,
    lp: int,
    vq: int,
    lq: int,
)
    requires
        g.wf(),
        rat_wf(base1),
        rat_wf(base2),
        rat_eq(base1, base2),
        0 <= k <= g.factors@.len(),
        0 <= vp < g.variables@.len(),
        0 <= lp < g.variables@[vp].dofs,
        0 <= vq < g.variables@.len(),
        0 <= lq < g.variables@[vq].dofs,
    ensures
        rat_eq(
            joint_lam_acc(base1, g.factors@.take(k), vp, lp, vq, lq),
            joint_lam_acc(base2, g.factors@.take(k), vq, lq, vp, lp),
        ),
    decreases k,
{
    if k == 0 {
    } else {
        assert(g.factors@.take(k).drop_last() =~= g.factors@.take(k - 1));
        assert(g.factors@.take(k).last() == g.factors@[k - 1]);
        lemma_joint_lam_acc_sym(g, base1, base2, k - 1, vp, lp, vq, lq);
        lemma_joint_lam_acc_wf(g, base1, k - 1, vp, lp, vq, lq);
        lemma_joint_lam_acc_wf(g, base2, k - 1, vq, lq, vp, lp);
        let f = g.factors@[k - 1];
        if adj_pos(f, vp) < f.adjacent@.len() && adj_pos(f, vq) < f.adjacent@.len() {
            lemma_contrib_index(g, k - 1, vp, lp);
            lemma_contrib_index(g, k - 1, vq, lq);
            let ip = off(f.dims@, adj_pos(f, vp)) + lp;
            let iq = off(f.dims@, adj_pos(f, vq)) + lq;
            assert(rat_eq(f.gaussian.lam.at(ip, iq), f.gaussian.lam.at(iq, ip)));
            crate::rat::lemma_radd_congruence(
                joint_lam_acc(base1, g.factors@.take(k - 1), vp, lp, vq, lq),
                joint_lam_acc(base2, g.factors@.take(k - 1), vq, lq, vp, lp),
                f.gaussian.lam.at(ip, iq),
                f.gaussian.lam.at(iq, ip),
            );
        }
    }
}

/// `j` is the joint distribution of the graph: for every position, the
/// information vector entry is the prior entry plus all factor
/// contributions, and every precision entry is the prior block entry (zero
/// off the variable diagonal) plus all factor scatter contributions.
pub open spec fn joint_rel(g: FactorGraph, j: Gaussian) -> bool {
    &&& j.wf()
    &&& j.dim() == total(vdims(g))
    &&& forall|p: int|
        #![trigger j.eta@[p]]
        0 <= p < j.dim() ==> {
            let vp = crate::offsets::block_of(vdims(g), p);
            let lp = p - off(vdims(g), vp);
            rat_eq(
                j.eta@[p]@,
                joint_eta_acc(g.variables@[vp].prior.eta@[lp]@, g.factors@, vp, lp),
            )
        }
    &&& forall|p: int, q: int|
        #![trigger j.lam.at(p, q)]
        0 <= p < j.dim() && 0 <= q < j.dim() ==> {
            let vp = crate::offsets::block_of(vdims(g), p);
            let lp = p - off(vdims(g), vp);
            let vq = crate::offsets::block_of(vdims(g), q);
            let lq = q - off(vdims(g), vq);
            rat_eq(
                j.lam.at(p, q),
                joint_lam_acc(
                    if vp == vq {
                        g.variables@[vp].prior.lam.at(lp, lq)
                    } else {
                        rzero()
                    },
                    g.factors@,
                    vp,
                    lp,
                    vq,
                    lq,
                ),
            )
        }
}

impl FactorGraph {
    /// The joint distribution over all variables in information form: every
    /// prior lands on its variable's diagonal block, and every factor
    /// scatters its Gaussian over the blocks of its neighbours.  The
    /// resulting precision matrix is symmetric (part of well-formedness of
    /// the result).
    pub fn joint_distribution(&self) -> (r: Result<Gaussian, GbpError>)
        requires
            self.wf(),
        ensures
            r matches Ok(j) ==> joint_rel(*self, j),
            r matches Err(e) ==> e is Overflow,
            self.variables@.len() == 0 ==> r is Ok,
    {
        let nv: usize = self.variables.len();
        proof {
            if self.variables@.len() == 0 && self.factors@.len() > 0 {
                assert(self.factors@[0].wf());
                assert(self.factors@[0].adjacent@.len() >= 1);
                assert(self.factors@[0].adjacent@[0] < self.variables@.len());
                assert(false);
            }
        }
        let mut dofs: Vec<usize> = Vec::new();
        let mut i: usize = 0;
        while i < nv
            invariant
                i <= nv,
                nv == self.variables@.len(),
                self.wf(),
                dofs@.len() == i,
                forall|i2: int| 0 <= i2 < i ==> dofs@[i2] == (#[trigger] self.variables@[i2]).dofs,
            decreases nv - i,
        {
            dofs.push(self.variables[i].dofs);
            i += 1;
        }
        proof {
            assert(dofs@ =~= vdims(*self));
        }
        let mut dtotal: usize = 0;
        let mut t: usize = 0;
        while t < nv
            invariant
                t <= nv,
                nv == dofs@.len(),
                nv == self.variables@.len(),
                dtotal == off(dofs@, t as int),
            decreases nv - t,
        {
            dtotal = match dtotal.checked_add(dofs[t]) {
                Some(v) => v,
                None => {
                    return Err(GbpError::Overflow);
                },
            };
            t += 1;
        }
        let nf: usize = self.factors.len();
        // information vector
        let mut eta: Vec<Rat> = Vec::new();
        let mut p: usize = 0;
        while p < dtotal
            invariant
                nv == 0 ==> nf == 0,
                p <= dtotal,
                nv == self.variables@.len(),
                nf == self.factors@.len(),
                self.wf(),
                dofs@ == vdims(*self),
                dtotal == total(dofs@),
                eta@.len() == p,
                vec_wf(eta@),
                forall|p2: int|
                    #![trigger eta@[p2]]
                    0 <= p2 < p ==> rat_eq(
                        eta@[p2]@,
                        joint_eta_acc(
                            self.variables@[crate::offsets::block_of(dofs@, p2)].prior.eta@[p2
                                - off(dofs@, crate::offsets::block_of(dofs@, p2))]@,
                            self.factors@,
                            crate::offsets::block_of(dofs@, p2),
                            p2 - off(dofs@, crate::offsets::block_of(dofs@, p2)),
                        ),
                    ),
            decreases dtotal - p,
        {
            let vo: (usize, usize) = crate::offsets::block_index(&dofs, p);
            let vp: usize = vo.0;
            let lp: usize = p - vo.1;
            let mut acc: Rat = self.variables[vp].prior.eta[lp];
            let ghost base = acc@;
            let mut k: usize = 0;
            while k < nf
                invariant
                    k <= nf,
                    nf == self.factors@.len(),
                    self.wf(),
                    vp < self.variables@.len(),
                    lp < self.variables@[vp as int].dofs,
                    rat_wf(base),
                    acc.wf(),
                    rat_eq(
                        acc@,
                        joint_eta_acc(base, self.factors@.take(k as int), vp as int, lp as int),
                    ),
                decreases nf - k,
            {
                match find_position(&self.factors[k].adjacent, vp) {
                    Some(t2) => {
                        let fo: usize = crate::offsets::offset_of(&self.factors[k].dims, t2);
                        proof {
                            lemma_contrib_index(*self, k as int, vp as int, lp as int);
                        }
                        let next: Rat = match acc.add(&self.factors[k].gaussian.eta[fo + lp]) {
                            Some(v) => v,
                            None => {
                                return Err(GbpError::Overflow);
                            },
                        };
                        proof {
                            lemma_joint_eta_acc_wf(*self, base, k as int, vp as int, lp as int);
                            crate::linalg::lemma_acc_step(
                                acc@,
                                joint_eta_acc(
                                    base,
                                    self.factors@.take(k as int),
                                    vp as int,
                                    lp as int,
                                ),
                                self.factors@[k as int].gaussian.eta@[fo + lp]@,
                                self.factors@[k as int].gaussian.eta@[fo + lp]@,
                                next@,
                            );
                            assert(self.factors@.take(k + 1 as int).drop_last() =~= self.factors@.take(
                                k as int,
                            ));
                        }
                        acc = next;
                    },
                    None => {
                        proof {
                            assert(self.factors@.take(k + 1 as int).drop_last() =~= self.factors@.take(
                                k as int,
                            ));
                        }
                    },
                }
                k += 1;
            }
            proof {
                assert(self.factors@.take(nf as int) =~= self.factors@);
            }
            eta.push(acc);
            p += 1;
        }
        // precision matrix
        let mut m: Vec<Vec<Rat>> = Vec::new();
        let mut p2: usize = 0;
        while p2 < dtotal
            invariant
                nv == 0 ==> nf == 0,
                p2 <= dtotal,
                nv == self.variables@.len(),
                nf == self.factors@.len(),
                self.wf(),
                dofs@ == vdims(*self),
                dtotal == total(dofs@),
                m@.len() == p2,
                forall|a: int| 0 <= a < p2 ==> (#[trigger] m@[a])@.len() == dtotal,
                forall|a: int, b: int|
                    0 <= a < p2 && 0 <= b < dtotal ==> (#[trigger] m@[a]@[b]).wf(),
                forall|a: int, b: int|
                    0 <= a < p2 && 0 <= b < dtotal ==> rat_eq(
                        (#[trigger] m@[a]@[b])@,
                        joint_lam_acc(
                            if crate::offsets::block_of(dofs@, a) == crate::offsets::block_of(
                                dofs@,
                                b,
                            ) {
                                self.variables@[crate::offsets::block_of(dofs@, a)].prior.lam.at(
                                    a - off(dofs@, crate::offsets::block_of(dofs@, a)),
                                    b - off(dofs@, crate::offsets::block_of(dofs@, b)),
                                )
                            } else {
                                rzero()
                            },
                            self.factors@,
                            crate::offsets::block_of(dofs@, a),
                            a - off(dofs@, crate::offsets::block_of(dofs@, a)),
                            crate::offsets::block_of(dofs@, b),
                            b - off(dofs@, crate::offsets::block_of(dofs@, b)),
                        ),
                    ),
            decreases dtotal - p2,
        {
            let vo: (usize, usize) = crate::offsets::block_index(&dofs, p2);
            let vp: usize = vo.0;
            let lp: usize = p2 - vo.1;
            let mut row: Vec<Rat> = Vec::new();
            let mut q: usize = 0;
            while q < dtotal
                invariant
                    q <= dtotal,
                    p2 < dtotal,
                    nv == self.variables@.len(),
                    nf == self.factors@.len(),
                    self.wf(),
                    dofs@ == vdims(*self),
                    dtotal == total(dofs@),
                    vp == crate::offsets::block_of(dofs@, p2 as int),
                    vp < nv,
                    lp == p2 - off(dofs@, vp as int),
                    lp < self.variables@[vp as int].dofs,
                    row@.len() == q,
                    vec_wf(row@),
                    forall|b: int|
                        0 <= b < q ==> rat_eq(
                            (#[trigger] row@[b])@,
                            joint_lam_acc(
                                if vp as int == crate::offsets::block_of(dofs@, b) {
                                    self.variables@[vp as int].prior.lam.at(
                                        lp as int,
                                        b - off(dofs@, crate::offsets::block_of(dofs@, b)),
                                    )
                                } else {
                                    rzero()
                                },
                                self.factors@,
                                vp as int,
                                lp as int,
                                crate::offsets::block_of(dofs@, b),
                                b - off(dofs@, crate::offsets::block_of(dofs@, b)),
                            ),
                        ),
                decreases dtotal - q,
            {
                let wo: (usize, usize) = crate::offsets::block_index(&dofs, q);
                let vq: usize = wo.0;
                let lq: usize = q - wo.1;
                let mut acc: Rat = if vp == vq {
                    self.variables[vp].prior.lam.get(lp, lq)
                } else {
                    Rat::zero()
                };
                let ghost base = acc@;
                let mut k: usize = 0;
                while k < nf
                    invariant
                        k <= nf,
                        nf == self.factors@.len(),
                        self.wf(),
                        vp < self.variables@.len(),
                        lp < self.variables@[vp as int].dofs,
                        vq < self.variables@.len(),
                        lq < self.variables@[vq as int].dofs,
                        rat_wf(base),
                        acc.wf(),
                        rat_eq(
                            acc@,
                            joint_lam_acc(
                                base,
                                self.factors@.take(k as int),
                                vp as int,
                                lp as int,
                                vq as int,
                                lq as int,
                            ),
                        ),
                    decreases nf - k,
                {
                    let sp: Option<usize> = find_position(&self.factors[k].adjacent, vp);
                    let tq: Option<usize> = find_position(&self.factors[k].adjacent, vq);
                    match (sp, tq) {
                        (Some(s2), Some(t2)) => {
                            let fs: usize = crate::offsets::offset_of(&self.factors[k].dims, s2);
                            let ft: usize = crate::offsets::offset_of(&self.factors[k].dims, t2);
                            proof {
                                lemma_contrib_index(*self, k as int, vp as int, lp as int);
                                lemma_contrib_index(*self, k as int, vq as int, lq as int);
                            }
                            let entry: Rat = self.factors[k].gaussian.lam.get(fs + lp, ft + lq);
                            let next: Rat = match acc.add(&entry) {
                                Some(v) => v,
                                None => {
                                    return Err(GbpError::Overflow);
                                },
                            };
                            proof {
                                lemma_joint_lam_acc_wf(
                                    *self,
                                    base,
                                    k as int,
                                    vp as int,
                                    lp as int,
                                    vq as int,
                                    lq as int,
                                );
                                crate::linalg::lemma_acc_step(
                                    acc@,
                                    joint_lam_acc(
                                        base,
                                        self.factors@.take(k as int),
                                        vp as int,
                                        lp as int,
                                        vq as int,
                                        lq as int,
                                    ),
                                    entry@,
                                    entry@,
                                    next@,
                                );
                                assert(self.factors@.take(k + 1 as int).drop_last()
                                    =~= self.factors@.take(k as int));
                            }
                            acc = next;
                        },
                        _ => {
                            proof {
                                assert(self.factors@.take(k + 1 as int).drop_last()
                                    =~= self.factors@.take(k as int));
                            }
                        },
                    }
                    k += 1;
                }
                proof {
                    assert(self.factors@.take(nf as int) =~= self.factors@);
                }
                row.push(acc);
                q += 1;
            }
            m.push(row);
            p2 += 1;
        }
        let lam: Mat = Mat { rows: dtotal, cols: dtotal, m };
        proof {
            assert forall|a: int, b: int|
                0 <= a < dtotal && 0 <= b < dtotal implies rat_eq(
                #[trigger] lam.at(a, b),
                lam.at(b, a),
            ) by {
                let va = crate::offsets::block_of(dofs@, a);
                let vb = crate::offsets::block_of(dofs@, b);
                crate::offsets::lemma_block_of_correct(dofs@, a);
                crate::offsets::lemma_block_of_correct(dofs@, b);
                let la = a - off(dofs@, va);
                let lb = b - off(dofs@, vb);
                let base_ab = if va == vb {
                    self.variables@[va].prior.lam.at(la, lb)
                } else {
                    rzero()
                };
                let base_ba = if va == vb {
                    self.variables@[va].prior.lam.at(lb, la)
                } else {
                    rzero()
                };
                assert(rat_wf(base_ab) && rat_wf(base_ba) && rat_eq(base_ab, base_ba));
                lemma_joint_lam_acc_sym(*self, base_ab, base_ba, nf as int, va, la, vb, lb);
                assert(self.factors@.take(nf as int) =~= self.factors@);
                lemma_joint_lam_acc_wf(*self, base_ab, nf as int, va, la, vb, lb);
                lemma_joint_lam_acc_wf(*self, base_ba, nf as int, vb, lb, va, la);
                crate::rat::lemma_rat_eq_trans(
                    lam.at(a, b),
                    joint_lam_acc(base_ab, self.factors@, va, la, vb, lb),
                    joint_lam_acc(base_ba, self.factors@, vb, lb, va, la),
                );
                crate::rat::lemma_rat_eq_sym(
                    lam.at(b, a),
                    joint_lam_acc(base_ba, self.factors@, vb, lb, va, la),
                );
                crate::rat::lemma_rat_eq_trans(
                    lam.at(a, b),
                    joint_lam_acc(base_ba, self.factors@, vb, lb, va, la),
                    lam.at(b, a),
                );
            }
        }
        Ok(Gaussian { eta, lam })
    }

    /// The maximum-a-posteriori estimate: the exact mean of the joint
    /// distribution.
    #[allow(non_snake_case)]
    pub fn MAP(&self) -> (r: Result<Vec<Rat>, GbpError>)
        requires
            self.wf(),
        ensures
            r matches Ok(x) ==> vec_wf(x@) && exists|j: Gaussian|
                #[trigger] joint_rel(*self, j) && solves(j, rats(x@)),
            r matches Err(e) ==> (e is Singular || e is Overflow),
            r matches Err(e) && e is Singular ==> exists|j: Gaussian|
                #[trigger] joint_rel(*self, j) && crate::linalg::is_singular(j.lam),
    {
        let j: Gaussian = match self.joint_distribution() {
            Ok(j) => j,
            Err(e) => {
                return Err(e);
            },
        };
        j.mean()
    }

    /// The belief of one variable, by value.
    pub fn belief_of(&self, id: usize) -> (r: Result<Gaussian, GbpError>)
        requires
            self.wf(),
        ensures
            r matches Ok(g) ==> id < self.variables@.len() && g.wf() && g.eta@
                == self.variables@[id as int].belief.eta@ && g.dim()
                == self.variables@[id as int].belief.dim() && forall|p: int, q: int|
                0 <= p < g.dim() && 0 <= q < g.dim() ==> #[trigger] g.lam.at(p, q)
                    == self.variables@[id as int].belief.lam.at(p, q),
            r matches Err(e) ==> e is NoSuchConnection && id >= self.variables@.len(),
    {
        if id >= self.variables.len() {
            return Err(GbpError::NoSuchConnection);
        }
        Ok(self.variables[id].belief.copy())
    }
}

/// The witness chain of one factor's gradient contribution `J' W r` at exact
/// belief means `x` of its neighbours.
pub open spec fn factor_grad_witness(
    g: FactorGraph,
    j: int,
    w: Vec<Rat>,
    x: Vec<Rat>,
    jm: Mat,
    wm: Mat,
    rv: Vec<Rat>,
    wv: Vec<Rat>,
) -> bool {
    let f = g.factors@[j];
    &&& vec_wf(x@)
    &&& adj_solves(g, j, rats(x@))
    &&& jm.wf() && jm.rows == f.model.zlen() && jm.cols == f.model.dim()
    &&& forall|p: int, q: int|
        0 <= p < f.model.zlen() && 0 <= q < f.model.dim() ==> rat_eq(
            #[trigger] jm.at(p, q),
            f.model.jac_at(rats(x@), p, q),
        )
    &&& wm.wf() && wm.rows == f.model.zlen() && wm.cols == f.model.zlen()
    &&& forall|p: int, q: int|
        0 <= p < f.model.zlen() && 0 <= q < f.model.zlen() ==> rat_eq(
            #[trigger] wm.at(p, q),
            rmul(f.loss.scale@, f.loss.base_precision.at(p, q)),
        )
    &&& rv@.len() == f.model.zlen() && vec_wf(rv@)
    &&& forall|i: int|
        0 <= i < f.model.zlen() ==> rat_eq(
            #[trigger] rv@[i]@,
            crate::rat::rsub(f.model.z_at(i), f.model.predict_at(rats(x@), i)),
        )
    &&& wv@.len() == f.model.zlen() && vec_wf(wv@)
    &&& forall|i: int|
        0 <= i < f.model.zlen() ==> rat_eq(
            #[trigger] wv@[i]@,
            rdot(crate::linalg::rowv(wm, i), rats(rv@)),
        )
    &&& w@.len() == f.dim() && vec_wf(w@)
    &&& forall|i: int|
        0 <= i < f.dim() ==> rat_eq(
            #[trigger] w@[i]@,
            rdot(crate::linalg::colv(jm, i), rats(wv@)),
        )
}

/// `w` is factor `j`'s gradient contribution `J' W r`.
pub open spec fn factor_grad_rel(g: FactorGraph, j: int, w: Vec<Rat>) -> bool {
    exists|x: Vec<Rat>, jm: Mat, wm: Mat, rv: Vec<Rat>, wv: Vec<Rat>|
        #[trigger] factor_grad_witness(g, j, w, x, jm, wm, rv, wv)
}

/// The witness chain of one variable's prior gradient contribution
/// `(belief mean - prior mean) * prior covariance`.
pub open spec fn prior_grad_witness(
    v: Variable,
    w: Vec<Rat>,
    bm: Vec<Rat>,
    pm: Vec<Rat>,
    dv: Vec<Rat>,
    cov: Mat,
) -> bool {
    &&& vec_wf(bm@) && solves(v.belief, rats(bm@))
    &&& vec_wf(pm@) && solves(v.prior, rats(pm@))
    &&& dv@.len() == v.dofs && vec_wf(dv@)
    &&& forall|k: int|
        0 <= k < v.dofs ==> rat_eq(#[trigger] dv@[k]@, crate::rat::rsub(bm@[k]@, pm@[k]@))
    &&& cov.wf() && cov.rows == v.dofs && cov.cols == v.dofs
    &&& forall|i: int, j: int|
        0 <= i < v.dofs && 0 <= j < v.dofs ==> rat_eq(
            rdot(crate::linalg::rowv(v.prior.lam, i), crate::linalg::colv(cov, j)),
            #[trigger] crate::linalg::kron(i, j),
        )
    &&& w@.len() == v.dofs && vec_wf(w@)
    &&& forall|k: int|
        0 <= k < v.dofs ==> rat_eq(
            #[trigger] w@[k]@,
            rdot(crate::linalg::colv(cov, k), rats(dv@)),
        )
}

/// `w` is the prior gradient contribution of variable `v`.
pub open spec fn prior_grad_rel(v: Variable, w: Vec<Rat>) -> bool {
    exists|bm: Vec<Rat>, pm: Vec<Rat>, dv: Vec<Rat>, cov: Mat|
        #[trigger] prior_grad_witness(v, w, bm, pm, dv, cov)
}

/// Fold of factor gradient contributions scattered onto the slice of
/// variable `vid`, local coordinate `local`, starting from the prior term.
pub open spec fn grad_scatter_acc(
    base: Ratio,
    factors: Seq<Factor>,
    jwrs: Seq<Vec<Rat>>,
    vid: int,
    local: int,
) -> Ratio
    decreases factors.len(),
{
    if factors.len() == 0 || factors.len() != jwrs.len() {
        base
    } else {
        let rest = grad_scatter_acc(base, factors.drop_last(), jwrs.drop_last(), vid, local);
        let f = factors.last();
        let t = adj_pos(f, vid);
        if t < f.adjacent@.len() {
            radd(rest, jwrs.last()@[off(f.dims@, t) + local]@)
        } else {
            rest
        }
    }
}

proof fn lemma_grad_scatter_acc_wf(
    g: FactorGraph,
    base: Ratio,
    jwrs: Seq<Vec<Rat>>,
    k: int,
    vid: int,
    local: int,
)
    requires
        g.wf(),
        rat_wf(base),
        0 <= k <= g.factors@.len(),
        jwrs.len() == k,
        forall|j: int|
            0 <= j < k ==> (#[trigger] jwrs[j])@.len() == g.factors@[j].dim() && vec_wf(jwrs[j]@),
        0 <= vid < g.variables@.len(),
        0 <= local < g.variables@[vid].dofs,
    ensures
        rat_wf(grad_scatter_acc(base, g.factors@.take(k), jwrs, vid, local)),
    decreases k,
{
    if k > 0 {
        assert(g.factors@.take(k).drop_last() =~= g.factors@.take(k - 1));
        assert(g.factors@.take(k).last() == g.factors@[k - 1]);
        lemma_grad_scatter_acc_wf(g, base, jwrs.drop_last(), k - 1, vid, local);
        let f = g.factors@[k - 1];
        if adj_pos(f, vid) < f.adjacent@.len() {
            lemma_contrib_index(g, k - 1, vid, local);
            crate::rat::lemma_radd_wf(
                grad_scatter_acc(base, g.factors@.take(k - 1), jwrs.drop_last(), vid, local),
                jwrs[k - 1]@[off(f.dims@, adj_pos(f, vid)) + local]@,
            );
        }
    }
}

/// The witness of a graph gradient: per-factor contributions and, when
/// priors are included, per-variable prior terms.
pub open spec fn gradient_witness(
    g: FactorGraph,
    include_priors: bool,
    out: Seq<Rat>,
    pvs: Seq<Vec<Rat>>,
    jwrs: Seq<Vec<Rat>>,
) -> bool {
    &&& jwrs.len() == g.factors@.len()
    &&& forall|j: int| 0 <= j < jwrs.len() ==> #[trigger] factor_grad_rel(g, j, jwrs[j])
    &&& if include_priors {
        &&& pvs.len() == g.variables@.len()
        &&& forall|i: int| 0 <= i < pvs.len() ==> #[trigger] prior_grad_rel(g.variables@[i], pvs[i])
    } else {
        pvs.len() == 0
    }
    &&& out.len() == total(vdims(g))
    &&& forall|p: int|
        #![trigger out[p]]
        0 <= p < out.len() ==> {
            let vp = crate::offsets::block_of(vdims(g), p);
            let lp = p - off(vdims(g), vp);
            rat_eq(
                out[p]@,
                grad_scatter_acc(
                    if include_priors {
                        pvs[vp]@[lp]@
                    } else {
                        rzero()
                    },
                    g.factors@,
                    jwrs,
                    vp,
                    lp,
                ),
            )
        }
}

/// `out` is the gradient of the total energy with respect to the full
/// variable vector.
pub open spec fn gradient_rel(g: FactorGraph, include_priors: bool, out: Seq<Rat>) -> bool {
    exists|pvs: Seq<Vec<Rat>>, jwrs: Seq<Vec<Rat>>|
        #[trigger] gradient_witness(g, include_priors, out, pvs, jwrs)
}

impl FactorGraph {
    /// The gradient of the total energy with respect to the full variable
    /// vector: per variable (when priors are included) the prior term
    /// `(belief mean - prior mean) * prior covariance`, plus every factor's
    /// `J' W r` scattered over its neighbours' slices.
    pub fn gradient(&self, include_priors: bool) -> (r: Result<Vec<Rat>, GbpError>)
        requires
            self.wf(),
        ensures
            r matches Ok(out) ==> vec_wf(out@) && gradient_rel(*self, include_priors, out@),
            r matches Err(e) ==> (e is Singular || e is Overflow),
    {
        let nf: usize = self.factors.len();
        let nv: usize = self.variables.len();
        // per-factor contributions
        let mut jwrs: Vec<Vec<Rat>> = Vec::new();
        let mut j: usize = 0;
        while j < nf
            invariant
                j <= nf,
                nf == self.factors@.len(),
                self.wf(),
                jwrs@.len() == j,
                forall|j2: int|
                    0 <= j2 < j ==> (#[trigger] jwrs@[j2])@.len() == self.factors@[j2].dim()
                        && vec_wf(jwrs@[j2]@),
                forall|j2: int| 0 <= j2 < j ==> #[trigger] factor_grad_rel(*self, j2, jwrs@[j2]),
            decreases nf - j,
        {
            let x: Vec<Rat> = match self.adjacency_means(j) {
                Ok(x) => x,
                Err(e) => {
                    return Err(e);
                },
            };
            let jm: Mat = match self.factors[j].model.jacobian_mat(&x) {
                Some(m) => m,
                None => {
                    return Err(GbpError::Overflow);
                },
            };
            let wm: Mat = match self.factors[j].loss.effective_precision() {
                Some(m) => m,
                None => {
                    return Err(GbpError::Overflow);
                },
            };
            let rv: Vec<Rat> = match self.factors[j].residual(&x) {
                Ok(v) => v,
                Err(_) => {
                    return Err(GbpError::Overflow);
                },
            };
            let wv: Vec<Rat> = match crate::linalg::matvec(&wm, &rv) {
                Some(v) => v,
                None => {
                    return Err(GbpError::Overflow);
                },
            };
            let jt: Mat = crate::linalg::transpose(&jm);
            let w: Vec<Rat> = match crate::linalg::matvec(&jt, &wv) {
                Some(v) => v,
                None => {
                    return Err(GbpError::Overflow);
                },
            };
            proof {
                assert forall|i2: int|
                    0 <= i2 < self.factors@[j as int].model.dim() implies rowv(jt, i2)
                    =~= crate::linalg::colv(jm, i2) by {
                    assert(forall|k2: int|
                        0 <= k2 < jt.cols ==> #[trigger] rowv(jt, i2)[k2] == jt.at(i2, k2));
                    assert(forall|k2: int|
                        0 <= k2 < jm.rows ==> #[trigger] crate::linalg::colv(jm, i2)[k2]
                            == jm.at(k2, i2));
                }
                assert(factor_grad_witness(*self, j as int, w, x, jm, wm, rv, wv));
            }
            jwrs.push(w);
            j += 1;
        }
        // per-variable prior terms
        let mut pvs: Vec<Vec<Rat>> = Vec::new();
        if include_priors {
            let mut i: usize = 0;
            while i < nv
                invariant
                    i <= nv,
                    nv == self.variables@.len(),
                    self.wf(),
                    pvs@.len() == i,
                    forall|i2: int|
                        0 <= i2 < i ==> (#[trigger] pvs@[i2])@.len() == self.variables@[i2].dofs
                            && vec_wf(pvs@[i2]@),
                    forall|i2: int|
                        0 <= i2 < i ==> #[trigger] prior_grad_rel(self.variables@[i2], pvs@[i2]),
                decreases nv - i,
            {
                let bm: Vec<Rat> = match self.variables[i].belief.mean() {
                    Ok(v) => v,
                    Err(e) => {
                        return Err(e);
                    },
                };
                let pm: Vec<Rat> = match self.variables[i].prior.mean() {
                    Ok(v) => v,
                    Err(e) => {
                        return Err(e);
                    },
                };
                let dv: Vec<Rat> = match vec_sub(&bm, &pm) {
                    Some(v) => v,
                    None => {
                        return Err(GbpError::Overflow);
                    },
                };
                let cov: Mat = match self.variables[i].prior.covariance() {
                    Ok(m) => m,
                    Err(e) => {
                        return Err(e);
                    },
                };
                let ct: Mat = crate::linalg::transpose(&cov);
                let w: Vec<Rat> = match crate::linalg::matvec(&ct, &dv) {
                    Some(v) => v,
                    None => {
                        return Err(GbpError::Overflow);
                    },
                };
                proof {
                    assert forall|k2: int|
                        0 <= k2 < self.variables@[i as int].dofs implies rowv(ct, k2)
                        =~= crate::linalg::colv(cov, k2) by {
                        assert(forall|k3: int|
                            0 <= k3 < ct.cols ==> #[trigger] rowv(ct, k2)[k3] == ct.at(k2, k3));
                        assert(forall|k3: int|
                            0 <= k3 < cov.rows ==> #[trigger] crate::linalg::colv(cov, k2)[k3]
                                == cov.at(k3, k2));
                    }
                    assert forall|k2: int|
                        0 <= k2 < self.variables@[i as int].dofs implies rat_eq(
                        #[trigger] w@[k2]@,
                        rdot(crate::linalg::colv(cov, k2), rats(dv@)),
                    ) by {
                        assert(rowv(ct, k2) =~= crate::linalg::colv(cov, k2));
                    }
                    assert(prior_grad_witness(self.variables@[i as int], w, bm, pm, dv, cov));
                }
                pvs.push(w);
                i += 1;
            }
        }
        // scatter into the full variable vector
        let mut dofs: Vec<usize> = Vec::new();
        let mut i3: usize = 0;
        while i3 < nv
            invariant
                i3 <= nv,
                nv == self.variables@.len(),
                self.wf(),
                dofs@.len() == i3,
                forall|i2: int| 0 <= i2 < i3 ==> dofs@[i2] == (#[trigger] self.variables@[i2]).dofs,
            decreases nv - i3,
        {
            dofs.push(self.variables[i3].dofs);
            i3 += 1;
        }
        proof {
            assert(dofs@ =~= vdims(*self));
        }
        let mut dtotal: usize = 0;
        let mut t: usize = 0;
        while t < nv
            invariant
                t <= nv,
                nv == dofs@.len(),
                nv == self.variables@.len(),
                dtotal == off(dofs@, t as int),
            decreases nv - t,
        {
            dtotal = match dtotal.checked_add(dofs[t]) {
                Some(v) => v,
                None => {
                    return Err(GbpError::Overflow);
                },
            };
            t += 1;
        }
        let mut out: Vec<Rat> = Vec::new();
        let mut p: usize = 0;
        while p < dtotal
            invariant
                p <= dtotal,
                nv == self.variables@.len(),
                nf == self.factors@.len(),
                self.wf(),
                dofs@ == vdims(*self),
                dtotal == total(dofs@),
                jwrs@.len() == nf,
                forall|j2: int|
                    0 <= j2 < nf ==> (#[trigger] jwrs@[j2])@.len() == self.factors@[j2].dim()
                        && vec_wf(jwrs@[j2]@),
                include_priors ==> pvs@.len() == nv && forall|i2: int|
                    0 <= i2 < nv ==> (#[trigger] pvs@[i2])@.len() == self.variables@[i2].dofs
                        && vec_wf(pvs@[i2]@),
                !include_priors ==> pvs@.len() == 0,
                out@.len() == p,
                vec_wf(out@),
                forall|p2: int|
                    #![trigger out@[p2]]
                    0 <= p2 < p ==> rat_eq(
                        out@[p2]@,
                        grad_scatter_acc(
                            if include_priors {
                                pvs@[crate::offsets::block_of(dofs@, p2)]@[p2 - off(
                                    dofs@,
                                    crate::offsets::block_of(dofs@, p2),
                                )]@
                            } else {
                                rzero()
                            },
                            self.factors@,
                            jwrs@,
                            crate::offsets::block_of(dofs@, p2),
                            p2 - off(dofs@, crate::offsets::block_of(dofs@, p2)),
                        ),
                    ),
            decreases dtotal - p,
        {
            let vo: (usize, usize) = crate::offsets::block_index(&dofs, p);
            let vp: usize = vo.0;
            let lp: usize = p - vo.1;
            let mut acc: Rat = if include_priors {
                pvs[vp][lp]
            } else {
                Rat::zero()
            };
            let ghost base = acc@;
            let mut k: usize = 0;
            while k < nf
                invariant
                    k <= nf,
                    nf == self.factors@.len(),
                    self.wf(),
                    vp < self.variables@.len(),
                    lp < self.variables@[vp as int].dofs,
                    jwrs@.len() == nf,
                    forall|j2: int|
                        0 <= j2 < nf ==> (#[trigger] jwrs@[j2])@.len() == self.factors@[j2].dim()
                            && vec_wf(jwrs@[j2]@),
                    rat_wf(base),
                    acc.wf(),
                    rat_eq(
                        acc@,
                        grad_scatter_acc(
                            base,
                            self.factors@.take(k as int),
                            jwrs@.take(k as int),
                            vp as int,
                            lp as int,
                        ),
                    ),
                decreases nf - k,
            {
                match find_position(&self.factors[k].adjacent, vp) {
                    Some(t2) => {
                        let fo: usize = crate::offsets::offset_of(&self.factors[k].dims, t2);
                        proof {
                            lemma_contrib_index(*self, k as int, vp as int, lp as int);
                        }
                        let next: Rat = match acc.add(&jwrs[k][fo + lp]) {
                            Some(v) => v,
                            None => {
                                return Err(GbpError::Overflow);
                            },
                        };
                        proof {
                            lemma_grad_scatter_acc_wf(
                                *self,
                                base,
                                jwrs@.take(k as int),
                                k as int,
                                vp as int,
                                lp as int,
                            );
                            crate::linalg::lemma_acc_step(
                                acc@,
                                grad_scatter_acc(
                                    base,
                                    self.factors@.take(k as int),
                                    jwrs@.take(k as int),
                                    vp as int,
                                    lp as int,
                                ),
                                jwrs@[k as int]@[fo + lp]@,
                                jwrs@[k as int]@[fo + lp]@,
                                next@,
                            );
                            assert(self.factors@.take(k + 1 as int).drop_last() =~= self.factors@.take(
                                k as int,
                            ));
                            assert(jwrs@.take(k + 1 as int).drop_last() =~= jwrs@.take(k as int));
                            assert(jwrs@.take(k + 1 as int).last() == jwrs@[k as int]);
                        }
                        acc = next;
                    },
                    None => {
                        proof {
                            assert(self.factors@.take(k + 1 as int).drop_last() =~= self.factors@.take(
                                k as int,
                            ));
                            assert(jwrs@.take(k + 1 as int).drop_last() =~= jwrs@.take(k as int));
                        }
                    },
                }
                k += 1;
            }
            proof {
                assert(self.factors@.take(nf as int) =~= self.factors@);
                assert(jwrs@.take(nf as int) =~= jwrs@);
            }
            out.push(acc);
            p += 1;
        }
        proof {
            assert(gradient_witness(*self, include_priors, out@, pvs@, jwrs@));
        }
        Ok(out)
    }
}

/// The belief of `v1` arises from `v0` by moving the mean by `shift` (an
/// exact witness chain: `eta' = lam * (mean + shift)`, precision unchanged).
pub open spec fn belief_shift_witness(
    v1: Variable,
    v0: Variable,
    shift: Seq<Rat>,
    bm: Vec<Rat>,
    nm: Vec<Rat>,
) -> bool {
    &&& vec_wf(bm@) && solves(v0.belief, rats(bm@))
    &&& shift.len() == v0.dofs
    &&& nm@.len() == v0.dofs && vec_wf(nm@)
    &&& forall|k: int| 0 <= k < v0.dofs ==> rat_eq(#[trigger] nm@[k]@, radd(bm@[k]@, shift[k]@))
    &&& v1.belief.eta@.len() == v0.dofs
    &&& forall|k: int|
        0 <= k < v0.dofs ==> rat_eq(
            #[trigger] v1.belief.eta@[k]@,
            rdot(rowv(v0.belief.lam, k), rats(nm@)),
        )
}

/// `v1`'s belief mean moved by `shift` relative to `v0`.
pub open spec fn belief_shifted(v1: Variable, v0: Variable, shift: Seq<Rat>) -> bool {
    exists|bm: Vec<Rat>, nm: Vec<Rat>| #[trigger] belief_shift_witness(v1, v0, shift, bm, nm)
}

impl FactorGraph {
    /// Shift every belief mean by the given slice of `delta` (`eta' = lam *
    /// (mean + delta_slice)`); precision matrices stay.  On failure the graph
    /// is left as it was at the failing variable (earlier shifts stand).
    fn apply_mean_shift(&mut self, delta: &Vec<Rat>) -> (r: Result<(), GbpError>)
        requires
            old(self).wf(),
            vec_wf(delta@),
            delta@.len() == total(vdims(*old(self))),
        ensures
            final(self).wf(),
            final(self).factors == old(self).factors,
            final(self).gbp_settings == old(self).gbp_settings,
            final(self).variables@.len() == old(self).variables@.len(),
            forall|i: int|
                #![trigger final(self).variables@[i]]
                0 <= i < old(self).variables@.len() ==> {
                    let v0 = old(self).variables@[i];
                    let v1 = final(self).variables@[i];
                    &&& v1.id == v0.id
                    &&& v1.dofs == v0.dofs
                    &&& v1.prior == v0.prior
                    &&& v1.inbox == v0.inbox
                    &&& v1.belief.lam == v0.belief.lam
                },
            r matches Ok(()) ==> forall|i: int|
                #![trigger final(self).variables@[i]]
                0 <= i < old(self).variables@.len() ==> belief_shifted(
                    final(self).variables@[i],
                    old(self).variables@[i],
                    delta@.subrange(
                        off(vdims(*old(self)), i),
                        off(vdims(*old(self)), i + 1),
                    ),
                ),
            r matches Err(e) ==> (e is Singular || e is Overflow),
    {
        let nv: usize = self.variables.len();
        let dl: usize = delta.len();
        let mut offset: usize = 0;
        let mut i: usize = 0;
        while i < nv
            invariant
                i <= nv,
                nv == old(self).variables@.len(),
                old(self).wf(),
                vec_wf(delta@),
                delta@.len() == total(vdims(*old(self))),
                self.factors == old(self).factors,
                self.gbp_settings == old(self).gbp_settings,
                self.variables@.len() == nv,
                self.wf(),
                dl == delta@.len(),
                offset == off(vdims(*old(self)), i as int),
                forall|i2: int| i <= i2 < nv ==> self.variables@[i2] == old(self).variables@[i2],
                forall|i2: int|
                    #![trigger self.variables@[i2]]
                    0 <= i2 < nv ==> {
                        let v0 = old(self).variables@[i2];
                        let v1 = self.variables@[i2];
                        &&& v1.id == v0.id
                        &&& v1.dofs == v0.dofs
                        &&& v1.prior == v0.prior
                        &&& v1.inbox == v0.inbox
                        &&& v1.belief.lam == v0.belief.lam
                    },
                forall|i2: int|
                    #![trigger self.variables@[i2]]
                    0 <= i2 < i ==> belief_shifted(
                        self.variables@[i2],
                        old(self).variables@[i2],
                        delta@.subrange(
                            off(vdims(*old(self)), i2),
                            off(vdims(*old(self)), i2 + 1),
                        ),
                    ),
            decreases nv - i,
        {
            let d: usize = self.variables[i].dofs;
            proof {
                assert(vdims(*old(self))[i as int] == d);
                assert(off(vdims(*old(self)), i + 1 as int) == off(vdims(*old(self)), i as int)
                    + d);
                crate::offsets::lemma_off_monotone(
                    vdims(*old(self)),
                    i + 1 as int,
                    nv as int,
                );
                crate::offsets::lemma_off_nonneg(vdims(*old(self)), i as int);
            }
            let slice: Vec<Rat> = crate::linalg::subvec(delta, offset, d);
            let bm: Vec<Rat> = match self.variables[i].belief.mean() {
                Ok(v) => v,
                Err(e) => {
                    return Err(e);
                },
            };
            let nm: Vec<Rat> = match crate::linalg::vec_add(&bm, &slice) {
                Some(v) => v,
                None => {
                    return Err(GbpError::Overflow);
                },
            };
            let neta: Vec<Rat> = match crate::linalg::matvec(&self.variables[i].belief.lam, &nm) {
                Some(v) => v,
                None => {
                    return Err(GbpError::Overflow);
                },
            };
            proof {
                assert(slice@ =~= delta@.subrange(
                    off(vdims(*old(self)), i as int),
                    off(vdims(*old(self)), i + 1 as int),
                ));
                assert forall|k: int|
                    0 <= k < self.variables@[i as int].dofs implies rat_eq(
                    #[trigger] nm@[k]@,
                    radd(bm@[k]@, slice@[k]@),
                ) by {
                }
            }
            self.variables[i].belief.eta = neta;
            proof {
                assert(belief_shift_witness(
                    self.variables@[i as int],
                    old(self).variables@[i as int],
                    delta@.subrange(
                        off(vdims(*old(self)), i as int),
                        off(vdims(*old(self)), i + 1 as int),
                    ),
                    bm,
                    nm,
                ));
            }
            offset = offset + d;
            i += 1;
        }
        Ok(())
    }

    /// Relinearise every factor around the current beliefs.  A factor whose
    /// adjacency means are degenerate keeps its previous linearisation.
    pub fn linearise_factors(&mut self) -> (relin: Vec<bool>)
        requires
            old(self).wf(),
        ensures
            final(self).wf(),
            final(self).variables == old(self).variables,
            final(self).gbp_settings == old(self).gbp_settings,
            final(self).factors@.len() == old(self).factors@.len(),
            forall|j: int|
                #![trigger final(self).factors@[j]]
                0 <= j < old(self).factors@.len() ==> {
                    let f0 = old(self).factors@[j];
                    let f1 = final(self).factors@[j];
                    &&& f1.id == f0.id
                    &&& f1.adjacent == f0.adjacent
                    &&& f1.dims == f0.dims
                    &&& f1.model == f0.model
                    &&& f1.loss == f0.loss
                    &&& f1.outbox == f0.outbox
                    &&& (f1 == f0 || relinearised(*old(self), j, f1))
                },
            linearised_phase_rel(*final(self), *old(self)),
            relin@.len() == old(self).factors@.len(),
            forall|j: int|
                0 <= j < old(self).factors@.len() ==> {
                    &&& ((#[trigger] relin@[j]) ==> relinearised(
                        *old(self),
                        j,
                        final(self).factors@[j],
                    ))
                    &&& (!relin@[j] ==> final(self).factors@[j] == old(self).factors@[j])
                },
    {
        let n: usize = self.factors.len();
        let mut relin: Vec<bool> = Vec::new();
        let mut j: usize = 0;
        while j < n
            invariant
                j <= n,
                n == old(self).factors@.len(),
                old(self).wf(),
                self.variables == old(self).variables,
                self.gbp_settings == old(self).gbp_settings,
                self.factors@.len() == n,
                self.wf(),
                forall|j2: int| j <= j2 < n ==> self.factors@[j2] == old(self).factors@[j2],
                forall|j2: int|
                    #![trigger self.factors@[j2]]
                    0 <= j2 < j ==> {
                        let f0 = old(self).factors@[j2];
                        let f1 = self.factors@[j2];
                        &&& f1.id == f0.id
                        &&& f1.adjacent == f0.adjacent
                        &&& f1.dims == f0.dims
                        &&& f1.model == f0.model
                        &&& f1.loss == f0.loss
                        &&& f1.outbox == f0.outbox
                        &&& (f1 == f0 || relinearised(*old(self), j2, f1))
                    },
                relin@.len() == j,
                forall|j2: int|
                    0 <= j2 < j ==> {
                        &&& ((#[trigger] relin@[j2]) ==> relinearised(
                            *old(self),
                            j2,
                            self.factors@[j2],
                        ))
                        &&& (!relin@[j2] ==> self.factors@[j2] == old(self).factors@[j2])
                    },
            decreases n - j,
        {
            let mut done: bool = false;
            match self.adjacency_means(j) {
                Ok(x) => {
                    let cr = self.factors[j].compute(&x);
                    proof {
                        if cr is Ok {
                            assert(adj_solves(*old(self), j as int, rats(x@)));
                            assert(relinearised(*old(self), j as int, self.factors@[j as int]));
                        }
                    }
                    match cr {
                        Ok(()) => {
                            done = true;
                        },
                        Err(_) => {},
                    }
                },
                Err(_) => {},
            }
            relin.push(done);
            j += 1;
        }
        relin
    }

    /// One gradient descent step with learning rate `lr` in (0, 1]: every
    /// belief mean moves against the gradient, then all factors are
    /// relinearised.
    pub fn gradient_descent_step(&mut self, lr: &Rat) -> (r: Result<(), GbpError>)
        requires
            old(self).wf(),
            lr.wf(),
        ensures
            final(self).wf(),
            final(self).gbp_settings == old(self).gbp_settings,
            final(self).variables@.len() == old(self).variables@.len(),
            final(self).factors@.len() == old(self).factors@.len(),
            forall|i: int|
                #![trigger final(self).variables@[i]]
                0 <= i < old(self).variables@.len() ==> {
                    let v0 = old(self).variables@[i];
                    let v1 = final(self).variables@[i];
                    &&& v1.id == v0.id
                    &&& v1.dofs == v0.dofs
                    &&& v1.prior == v0.prior
                    &&& v1.inbox == v0.inbox
                    &&& v1.belief.lam == v0.belief.lam
                },
            r matches Ok(()) ==> exists|gv: Vec<Rat>, shift: Vec<Rat>|
                #![trigger gradient_rel(*old(self), true, gv@), vec_wf(shift@)]
                {
                    &&& vec_wf(gv@)
                    &&& gradient_rel(*old(self), true, gv@)
                    &&& shift@.len() == gv@.len()
                    &&& vec_wf(shift@)
                    &&& forall|k: int|
                        0 <= k < gv@.len() ==> rat_eq(
                            #[trigger] shift@[k]@,
                            crate::rat::rneg(rmul(lr@, gv@[k]@)),
                        )
                    &&& forall|i: int|
                        0 <= i < old(self).variables@.len() ==> #[trigger] belief_shifted(
                            final(self).variables@[i],
                            old(self).variables@[i],
                            shift@.subrange(
                                off(vdims(*old(self)), i),
                                off(vdims(*old(self)), i + 1),
                            ),
                        )
                },
            r matches Ok(()) ==> exists|mid: FactorGraph|
                #[trigger] linearised_phase_rel(*final(self), mid) && mid.variables == final(self).variables && mid.gbp_settings == old(self).gbp_settings && mid.factors
                == old(self).factors,
            r matches Err(e) ==> (e is Singular || e is Overflow || e is InvalidSettings),
            r matches Err(e) && e is InvalidSettings ==> !(rlt(rzero(), lr@) && rle(lr@, rone()))
                && *final(self) == *old(self),
            !(rlt(rzero(), lr@) && rle(lr@, rone())) ==> (r matches Err(e) && e
                is InvalidSettings),
    {
        let zero: Rat = Rat::zero();
        let one: Rat = Rat::one();
        let lo: bool = match zero.lt(lr) {
            Some(b) => b,
            None => false,
        };
        let hi: bool = match lr.le(&one) {
            Some(b) => b,
            None => false,
        };
        proof {
            assert(crate::rat::fits_rcmp(rzero(), lr@) && crate::rat::fits_rcmp(lr@, rone()))
                by (nonlinear_arith)
                requires
                    lr.wf(),
                    crate::rat::in_i128(lr@.num) && crate::rat::in_i128(lr@.den),
            ;
        }
        if !(lo && hi) {
            return Err(GbpError::InvalidSettings);
        }
        let gv: Vec<Rat> = match self.gradient(true) {
            Ok(v) => v,
            Err(e) => {
                return Err(e);
            },
        };
        let scaled: Vec<Rat> = match crate::linalg::vec_scale(lr, &gv) {
            Some(v) => v,
            None => {
                return Err(GbpError::Overflow);
            },
        };
        let shift: Vec<Rat> = match crate::linalg::vec_neg(&scaled) {
            Some(v) => v,
            None => {
                return Err(GbpError::Overflow);
            },
        };
        proof {
            assert(gradient_rel(*old(self), true, gv@));
            assert(gv@.len() == total(vdims(*old(self)))) by {
                assert(exists|pvs: Seq<Vec<Rat>>, jwrs: Seq<Vec<Rat>>|
                    #[trigger] gradient_witness(*old(self), true, gv@, pvs, jwrs));
            }
            assert forall|k: int| 0 <= k < gv@.len() implies rat_eq(
                #[trigger] shift@[k]@,
                crate::rat::rneg(rmul(lr@, gv@[k]@)),
            ) by {
                crate::rat::lemma_rneg_congruence(scaled@[k]@, rmul(lr@, gv@[k]@));
                crate::rat::lemma_radd_wf(lr@, gv@[k]@);
                crate::rat::lemma_rat_eq_trans(
                    shift@[k]@,
                    crate::rat::rneg(scaled@[k]@),
                    crate::rat::rneg(rmul(lr@, gv@[k]@)),
                );
            }
        }
        match self.apply_mean_shift(&shift) {
            Ok(()) => {},
            Err(e) => {
                return Err(e);
            },
        }
        let ghost mid = *self;
        let _relinearised = self.linearise_factors();
        proof {
            assert(linearised_phase_rel(*self, mid));
        }
        Ok(())
    }

    /// One Levenberg-Marquardt step with damping `lambda` and scalings `a`,
    /// `b` (both meant to exceed one).  The assembled gradient points along
    /// the residual pull `J' W r`, opposite the slope of the energy, so the
    /// correction solves `(joint precision + lambda I) dx = gradient`; the
    /// shift is applied, the factors relinearise, and the step is accepted
    /// when the energy decreased (always, for `lambda` zero).  A rejected
    /// step restores every belief to its exact previous value and returns an
    /// increased damping, capped at 100000.
    pub fn lm_step(&mut self, lambda: &Rat, a: &Rat, b: &Rat) -> (r: Result<Rat, GbpError>)
        requires
            old(self).wf(),
            lambda.wf(),
            a.wf(),
            b.wf(),
        ensures
            final(self).wf(),
            final(self).gbp_settings == old(self).gbp_settings,
            final(self).variables@.len() == old(self).variables@.len(),
            final(self).factors@.len() == old(self).factors@.len(),
            forall|i: int|
                #![trigger final(self).variables@[i]]
                0 <= i < old(self).variables@.len() ==> {
                    let v0 = old(self).variables@[i];
                    let v1 = final(self).variables@[i];
                    &&& v1.id == v0.id
                    &&& v1.dofs == v0.dofs
                    &&& v1.prior == v0.prior
                    &&& v1.inbox == v0.inbox
                    &&& v1.belief.lam == v0.belief.lam
                },
            r matches Ok(nl) ==> nl.wf() && exists|jg: Gaussian, gv: Vec<Rat>, am: Mat, dx: Vec<Rat>|
                #![trigger joint_rel(*old(self), jg), gradient_rel(*old(self), true, gv@), am.wf(), vec_wf(dx@)]
                {
                    &&& joint_rel(*old(self), jg)
                    &&& vec_wf(gv@)
                    &&& gradient_rel(*old(self), true, gv@)
                    &&& gv@.len() == jg.dim()
                    &&& am.wf() && am.rows == jg.dim() && am.cols == jg.dim()
                    &&& forall|p: int, q: int|
                        0 <= p < jg.dim() && 0 <= q < jg.dim() ==> rat_eq(
                            #[trigger] am.at(p, q),
                            radd(jg.lam.at(p, q), rmul(lambda@, crate::linalg::kron(p, q))),
                        )
                    &&& vec_wf(dx@) && dx@.len() == jg.dim()
                    &&& forall|p: int|
                        0 <= p < jg.dim() ==> rat_eq(
                            rdot(rowv(am, p), rats(dx@)),
                            (#[trigger] gv@[p])@,
                        )
                    &&& ({
                        &&& forall|i: int|
                            0 <= i < old(self).variables@.len() ==> (#[trigger] final(self).variables@[i]).belief.eta@ == old(self).variables@[i].belief.eta@
                        &&& (rat_eq(nl@, rmul(lambda@, b@)) || nl@ == (Ratio {
                            num: 100000,
                            den: 1,
                        }))
                    } || {
                        &&& dx@.len() == total(vdims(*old(self)))
                        &&& forall|i: int|
                            0 <= i < old(self).variables@.len() ==> #[trigger] belief_shifted(
                                final(self).variables@[i],
                                old(self).variables@[i],
                                dx@.subrange(
                                    off(vdims(*old(self)), i),
                                    off(vdims(*old(self)), i + 1),
                                ),
                            )
                        &&& (rat_eq(lambda@, rzero()) ==> nl == *lambda)
                        &&& (!rat_eq(lambda@, rzero()) ==> exists|e0: Rat, e1: Rat|
                            #![trigger e0.wf(), e1.wf()]
                            {
                                &&& e0.wf() && e1.wf()
                                &&& graph_energy_rel(*old(self), true, e0@)
                                &&& graph_energy_rel(*final(self), true, e1@)
                                &&& rlt(e1@, e0@)
                                &&& rat_eq(rmul(nl@, a@), lambda@)
                            })
                    })
                },
    {
        let e0: Rat = match self.energy(true) {
            Ok(e) => e,
            Err(e) => {
                return Err(e);
            },
        };
        let joint: Gaussian = match self.joint_distribution() {
            Ok(j) => j,
            Err(e) => {
                return Err(e);
            },
        };
        let gv: Vec<Rat> = match self.gradient(true) {
            Ok(v) => v,
            Err(e) => {
                return Err(e);
            },
        };
        let dtotal: usize = joint.eta.len();
        if gv.len() != dtotal {
            return Err(GbpError::DimensionMismatch);
        }
        let ident: Mat = crate::linalg::mat_identity(dtotal);
        let scaled_i: Mat = match crate::linalg::mat_scale(lambda, &ident) {
            Some(m) => m,
            None => {
                return Err(GbpError::Overflow);
            },
        };
        let amat: Mat = match crate::linalg::mat_add(&joint.lam, &scaled_i) {
            Some(m) => m,
            None => {
                return Err(GbpError::Overflow);
            },
        };
        let dx: Vec<Rat> = match crate::linalg::solve_linear(&amat, &gv) {
            Ok(v) => v,
            Err(e) => {
                return Err(e);
            },
        };
        proof {
            assert(gradient_rel(*old(self), true, gv@));
            assert(gv@.len() == total(vdims(*old(self)))) by {
                assert(exists|pvs: Seq<Vec<Rat>>, jwrs: Seq<Vec<Rat>>|
                    #[trigger] gradient_witness(*old(self), true, gv@, pvs, jwrs));
            }
            assert forall|p: int, q: int|
                0 <= p < joint.dim() && 0 <= q < joint.dim() implies rat_eq(
                #[trigger] amat.at(p, q),
                radd(joint.lam.at(p, q), rmul(lambda@, crate::linalg::kron(p, q))),
            ) by {
                assert(rat_eq(scaled_i.at(p, q), rmul(lambda@, crate::linalg::kron(p, q))));
                crate::rat::lemma_radd_wf(lambda@, crate::linalg::kron(p, q));
                crate::rat::lemma_radd_congruence(
                    joint.lam.at(p, q),
                    joint.lam.at(p, q),
                    scaled_i.at(p, q),
                    rmul(lambda@, crate::linalg::kron(p, q)),
                );
                crate::rat::lemma_radd_wf(joint.lam.at(p, q), scaled_i.at(p, q));
                crate::rat::lemma_radd_wf(
                    joint.lam.at(p, q),
                    rmul(lambda@, crate::linalg::kron(p, q)),
                );
                crate::rat::lemma_rat_eq_trans(
                    amat.at(p, q),
                    radd(joint.lam.at(p, q), scaled_i.at(p, q)),
                    radd(joint.lam.at(p, q), rmul(lambda@, crate::linalg::kron(p, q))),
                );
            }
        }
        // save the exact belief state for a possible rejection
        let nv: usize = self.variables.len();
        let mut saved: Vec<Vec<Rat>> = Vec::new();
        let mut i: usize = 0;
        while i < nv
            invariant
                i <= nv,
                nv == self.variables@.len(),
                self.wf(),
                self == old(self),
                saved@.len() == i,
                forall|i2: int|
                    0 <= i2 < i ==> (#[trigger] saved@[i2])@ == self.variables@[i2].belief.eta@,
            decreases nv - i,
        {
            saved.push(vec_copy(&self.variables[i].belief.eta));
            i += 1;
        }
        match self.apply_mean_shift(&dx) {
            Ok(()) => {},
            Err(e) => {
                return Err(e);
            },
        }
        let _relinearised = self.linearise_factors();
        let e1_opt: Option<Rat> = match self.energy(true) {
            Ok(e) => Some(e),
            Err(_) => None,
        };
        let accept: bool = if lambda.is_zero() {
            true
        } else {
            match &e1_opt {
                Some(e1) => {
                    match e1.lt(&e0) {
                        Some(v) => v,
                        None => false,
                    }
                },
                None => false,
            }
        };
        if accept {
            if lambda.is_zero() {
                proof {
                    assert(rat_eq(lambda@, rzero()));
                }
                return Ok(*lambda);
            }
            match lambda.div(a) {
                Some(nl) => {
                    proof {
                        lemma_div_law(lambda@, a@, nl@);
                        assert(e1_opt matches Some(e1) && rlt(e1@, e0@)
                            && graph_energy_rel(*self, true, e1@));
                    }
                    Ok(nl)
                },
                None => Err(GbpError::Overflow),
            }
        } else {
            // restore the previous beliefs exactly, then relinearise
            let mut i2: usize = 0;
            while i2 < nv
                invariant
                    i2 <= nv,
                    nv == old(self).variables@.len(),
                    old(self).wf(),
                    self.wf(),
                    self.gbp_settings == old(self).gbp_settings,
                    self.variables@.len() == nv,
                    self.factors@.len() == old(self).factors@.len(),
                    saved@.len() == nv,
                    forall|i3: int|
                        0 <= i3 < nv ==> (#[trigger] saved@[i3])@ == old(self).variables@[i3].belief.eta@,
                    forall|i3: int|
                        #![trigger self.variables@[i3]]
                        0 <= i3 < nv ==> {
                            let v0 = old(self).variables@[i3];
                            let v1 = self.variables@[i3];
                            &&& v1.id == v0.id
                            &&& v1.dofs == v0.dofs
                            &&& v1.prior == v0.prior
                            &&& v1.inbox == v0.inbox
                            &&& v1.belief.lam == v0.belief.lam
                        },
                    forall|i3: int|
                        0 <= i3 < i2 ==> (#[trigger] self.variables@[i3]).belief.eta@ == old(self).variables@[i3].belief.eta@,
                decreases nv - i2,
            {
                let restored: Vec<Rat> = vec_copy(&saved[i2]);
                self.variables[i2].belief.eta = restored;
                i2 += 1;
            }
            let _relinearised_back = self.linearise_factors();
            let raised: Rat = match lambda.mul(b) {
                Some(v) => v,
                None => {
                    return Err(GbpError::Overflow);
                },
            };
            let cap: Rat = Rat { n: 100000, d: 1 };
            let keep: bool = match raised.le(&cap) {
                Some(v) => v,
                None => false,
            };
            proof {
                if keep {
                    assert(rat_eq(raised@, rmul(lambda@, b@)));
                } else {
                    assert(cap@ == (Ratio { num: 100000, den: 1 }));
                }
            }
            if keep {
                Ok(raised)
            } else {
                Ok(cap)
            }
        }
    }
}

impl FactorGraph {
    /// Remove a factor: its message slots are purged from every neighbour,
    /// the remaining factors are densely renumbered, and every variable's
    /// message keys follow the renumbering.
    pub fn remove_factor(&mut self, id: usize) -> (r: Result<(), GbpError>)
        requires
            old(self).wf(),
        ensures
            final(self).wf(),
            final(self).gbp_settings == old(self).gbp_settings,
            r matches Err(e) ==> e is NoSuchConnection && id >= old(self).factors@.len() && final(self).factors == old(self).factors && final(self).variables == old(self).variables,
            r matches Ok(()) ==> {
                &&& id < old(self).factors@.len()
                &&& final(self).factors@.len() == old(self).factors@.len() - 1
                &&& final(self).variables@.len() == old(self).variables@.len()
                &&& forall|j: int|
                    #![trigger final(self).factors@[j]]
                    0 <= j < final(self).factors@.len() ==> {
                        let f0 = if j < id {
                            old(self).factors@[j]
                        } else {
                            old(self).factors@[j + 1]
                        };
                        let f1 = final(self).factors@[j];
                        &&& f1.adjacent == f0.adjacent
                        &&& f1.dims == f0.dims
                        &&& f1.model == f0.model
                        &&& f1.loss == f0.loss
                        &&& f1.x0 == f0.x0
                        &&& f1.gaussian == f0.gaussian
                        &&& f1.outbox == f0.outbox
                    }
                &&& forall|i: int|
                    #![trigger final(self).variables@[i]]
                    0 <= i < old(self).variables@.len() ==> {
                        let v0 = old(self).variables@[i];
                        let v1 = final(self).variables@[i];
                        &&& v1.dofs == v0.dofs
                        &&& v1.prior == v0.prior
                        &&& v1.belief == v0.belief
                        &&& forall|t: int|
                            0 <= t < v1.inbox@.len()
                                ==> #[trigger] crate::variable::renumbered_slot(
                                v1.inbox@,
                                v0.inbox@,
                                id as int,
                                t,
                            )
                        &&& forall|t0: int|
                            0 <= t0 < v0.inbox@.len() && (#[trigger] v0.inbox@[t0]).0 != id
                                ==> crate::variable::surviving_slot(
                                v1.inbox@,
                                v0.inbox@,
                                id as int,
                                t0,
                            )
                    }
            },
    {
        let nf: usize = self.factors.len();
        if id >= nf {
            return Err(GbpError::NoSuchConnection);
        }
        // purge message slots and renumber the keys in every inbox
        let nv: usize = self.variables.len();
        let mut i: usize = 0;
        while i < nv
            invariant
                i <= nv,
                nv == old(self).variables@.len(),
                old(self).wf(),
                self.factors == old(self).factors,
                self.gbp_settings == old(self).gbp_settings,
                self.variables@.len() == nv,
                forall|i2: int|
                    0 <= i2 < nv ==> (#[trigger] self.variables@[i2]).wf()
                        && self.variables@[i2].id == i2,
                forall|i2: int|
                    #![trigger self.variables@[i2]]
                    0 <= i2 < nv ==> {
                        let v0 = old(self).variables@[i2];
                        let v1 = self.variables@[i2];
                        &&& v1.dofs == v0.dofs
                        &&& v1.prior == v0.prior
                        &&& v1.belief == v0.belief
                    },
                forall|i2: int| i <= i2 < nv ==> self.variables@[i2] == old(self).variables@[i2],
                forall|i2: int|
                    #![trigger self.variables@[i2]]
                    0 <= i2 < i ==> {
                        let v0 = old(self).variables@[i2];
                        let v1 = self.variables@[i2];
                        &&& forall|t: int|
                            0 <= t < v1.inbox@.len()
                                ==> #[trigger] crate::variable::renumbered_slot(
                                v1.inbox@,
                                v0.inbox@,
                                id as int,
                                t,
                            )
                        &&& forall|t0: int|
                            0 <= t0 < v0.inbox@.len() && (#[trigger] v0.inbox@[t0]).0 != id
                                ==> crate::variable::surviving_slot(
                                v1.inbox@,
                                v0.inbox@,
                                id as int,
                                t0,
                            )
                    },
            decreases nv - i,
        {
            self.variables[i].purge_and_renumber(id);
            i += 1;
        }
        let ghost vars_purged = self.variables@;
        // remove the factor and renumber the ones after it
        self.factors.remove(id);
        proof {
            assert forall|j: int|
                0 <= j < self.factors@.len() implies (#[trigger] self.factors@[j]).wf() by {
                if j < id {
                    assert(self.factors@[j] == old(self).factors@[j]);
                } else {
                    assert(self.factors@[j] == old(self).factors@[j + 1]);
                }
            }
        }
        let mut j: usize = id;
        let nf2: usize = self.factors.len();
        while j < nf2
            invariant
                self.variables@ == vars_purged,
                id <= j <= nf2,
                nf2 == old(self).factors@.len() - 1,
                old(self).wf(),
                self.gbp_settings == old(self).gbp_settings,
                self.variables@.len() == old(self).variables@.len(),
                forall|i2: int|
                    0 <= i2 < self.variables@.len() ==> (#[trigger] self.variables@[i2]).wf()
                        && self.variables@[i2].id == i2,
                forall|i2: int|
                    #![trigger self.variables@[i2]]
                    0 <= i2 < self.variables@.len() ==> {
                        let v0 = old(self).variables@[i2];
                        let v1 = self.variables@[i2];
                        &&& v1.dofs == v0.dofs
                        &&& v1.prior == v0.prior
                        &&& v1.belief == v0.belief
                    },
                self.factors@.len() == nf2,
                forall|j2: int|
                    #![trigger self.factors@[j2]]
                    0 <= j2 < nf2 ==> {
                        let f0 = if j2 < id {
                            old(self).factors@[j2]
                        } else {
                            old(self).factors@[j2 + 1]
                        };
                        let f1 = self.factors@[j2];
                        &&& f1.wf()
                        &&& f1.adjacent == f0.adjacent
                        &&& f1.dims == f0.dims
                        &&& f1.model == f0.model
                        &&& f1.loss == f0.loss
                        &&& f1.x0 == f0.x0
                        &&& f1.gaussian == f0.gaussian
                        &&& f1.outbox == f0.outbox
                    },
                forall|j2: int|
                    0 <= j2 < j ==> (#[trigger] self.factors@[j2]).id == j2,
                forall|j2: int|
                    j <= j2 < nf2 && j2 < id ==> (#[trigger] self.factors@[j2]).id == j2,
            decreases nf2 - j,
        {
            self.factors[j].id = j;
            j += 1;
        }
        Ok(())
    }

    /// Remove a variable that no factor touches; the remaining variables are
    /// densely renumbered and every factor's adjacency ids follow.  Removing
    /// a variable that a factor still touches is refused.
    pub fn remove_variable(&mut self, id: usize) -> (r: Result<(), GbpError>)
        requires
            old(self).wf(),
        ensures
            final(self).wf(),
            final(self).gbp_settings == old(self).gbp_settings,
            r matches Err(e) ==> (e is NoSuchConnection || e is InvalidSettings) && final(self).factors == old(self).factors && final(self).variables == old(self).variables,
            id >= old(self).variables@.len() ==> (r matches Err(e) && e is NoSuchConnection),
            (id < old(self).variables@.len() && (exists|j: int, t: int|
                0 <= j < old(self).factors@.len() && 0 <= t < old(self).factors@[j].adjacent@.len()
                    && (#[trigger] old(self).factors@[j].adjacent@[t]) == id)) ==> (r matches
                Err(e) && e is InvalidSettings),
            (id < old(self).variables@.len() && (forall|j: int, t: int|
                #![trigger old(self).factors@[j].adjacent@[t]]
                0 <= j < old(self).factors@.len() && 0 <= t < old(self).factors@[j].adjacent@.len()
                    ==> old(self).factors@[j].adjacent@[t] != id)) ==> r is Ok,
            r matches Ok(()) ==> {
                &&& id < old(self).variables@.len()
                &&& final(self).variables@.len() == old(self).variables@.len() - 1
                &&& final(self).factors@.len() == old(self).factors@.len()
                &&& forall|i: int|
                    #![trigger final(self).variables@[i]]
                    0 <= i < final(self).variables@.len() ==> {
                        let v0 = if i < id {
                            old(self).variables@[i]
                        } else {
                            old(self).variables@[i + 1]
                        };
                        let v1 = final(self).variables@[i];
                        &&& v1.dofs == v0.dofs
                        &&& v1.prior == v0.prior
                        &&& v1.belief == v0.belief
                        &&& v1.inbox == v0.inbox
                    }
                &&& forall|j: int|
                    #![trigger final(self).factors@[j]]
                    0 <= j < old(self).factors@.len() ==> {
                        let f0 = old(self).factors@[j];
                        let f1 = final(self).factors@[j];
                        &&& f1.id == f0.id
                        &&& f1.dims == f0.dims
                        &&& f1.model == f0.model
                        &&& f1.loss == f0.loss
                        &&& f1.x0 == f0.x0
                        &&& f1.gaussian == f0.gaussian
                        &&& f1.outbox == f0.outbox
                        &&& f1.adjacent@.len() == f0.adjacent@.len()
                        &&& forall|t: int|
                            0 <= t < f1.adjacent@.len() ==> (#[trigger] f1.adjacent@[t]) as int
                                == if f0.adjacent@[t] > id {
                                f0.adjacent@[t] - 1
                            } else {
                                f0.adjacent@[t] as int
                            }
                    }
            },
    {
        let nv: usize = self.variables.len();
        if id >= nv {
            return Err(GbpError::NoSuchConnection);
        }
        // the variable must be disconnected
        let nf: usize = self.factors.len();
        let mut j: usize = 0;
        while j < nf
            invariant
                j <= nf,
                nf == self.factors@.len(),
                self.wf(),
                self == old(self),
                forall|j2: int, t: int|
                    #![trigger self.factors@[j2].adjacent@[t]]
                    0 <= j2 < j && 0 <= t < self.factors@[j2].adjacent@.len()
                        ==> self.factors@[j2].adjacent@[t] != id,
            decreases nf - j,
        {
            match find_position(&self.factors[j].adjacent, id) {
                Some(_) => {
                    return Err(GbpError::InvalidSettings);
                },
                None => {
                    proof {
                        lemma_find_adj(self.factors@[j as int].adjacent@, id as int, 0);
                    }
                },
            }
            j += 1;
        }
        // remove and renumber the variables
        self.variables.remove(id);
        proof {
            assert forall|i2: int|
                0 <= i2 < self.variables@.len() implies (#[trigger] self.variables@[i2]).wf() by {
                if i2 < id {
                    assert(self.variables@[i2] == old(self).variables@[i2]);
                } else {
                    assert(self.variables@[i2] == old(self).variables@[i2 + 1]);
                }
            }
        }
        let nv2: usize = self.variables.len();
        let mut i: usize = id;
        while i < nv2
            invariant
                id <= i <= nv2,
                nv2 == old(self).variables@.len() - 1,
                old(self).wf(),
                self.gbp_settings == old(self).gbp_settings,
                self.factors == old(self).factors,
                self.variables@.len() == nv2,
                forall|i2: int|
                    #![trigger self.variables@[i2]]
                    0 <= i2 < nv2 ==> {
                        let v0 = if i2 < id {
                            old(self).variables@[i2]
                        } else {
                            old(self).variables@[i2 + 1]
                        };
                        let v1 = self.variables@[i2];
                        &&& v1.wf()
                        &&& v1.dofs == v0.dofs
                        &&& v1.prior == v0.prior
                        &&& v1.belief == v0.belief
                        &&& v1.inbox == v0.inbox
                    },
                forall|i2: int| 0 <= i2 < i ==> (#[trigger] self.variables@[i2]).id == i2,
                forall|i2: int|
                    i <= i2 < nv2 && i2 < id ==> (#[trigger] self.variables@[i2]).id == i2,
            decreases nv2 - i,
        {
            self.variables[i].id = i;
            i += 1;
        }
        // every factor's adjacency ids above the removed one shift down
        let mut j2: usize = 0;
        while j2 < nf
            invariant
                j2 <= nf,
                nf == old(self).factors@.len(),
                old(self).wf(),
                self.gbp_settings == old(self).gbp_settings,
                self.variables@.len() == nv2,
                nv2 == old(self).variables@.len() - 1,
                id < old(self).variables@.len(),
                forall|i2: int|
                    0 <= i2 < nv2 ==> (#[trigger] self.variables@[i2]).wf()
                        && self.variables@[i2].id == i2,
                forall|i2: int|
                    #![trigger self.variables@[i2]]
                    0 <= i2 < nv2 ==> {
                        let v0 = if i2 < id {
                            old(self).variables@[i2]
                        } else {
                            old(self).variables@[i2 + 1]
                        };
                        let v1 = self.variables@[i2];
                        &&& v1.dofs == v0.dofs
                        &&& v1.prior == v0.prior
                        &&& v1.belief == v0.belief
                        &&& v1.inbox == v0.inbox
                    },
                self.factors@.len() == nf,
                forall|j3: int, t: int|
                    #![trigger old(self).factors@[j3].adjacent@[t]]
                    0 <= j3 < nf && 0 <= t < old(self).factors@[j3].adjacent@.len()
                        ==> old(self).factors@[j3].adjacent@[t] != id,
                forall|j3: int|
                    #![trigger self.factors@[j3]]
                    j2 <= j3 < nf ==> self.factors@[j3] == old(self).factors@[j3],
                forall|j3: int|
                    #![trigger self.factors@[j3]]
                    0 <= j3 < j2 ==> {
                        let f0 = old(self).factors@[j3];
                        let f1 = self.factors@[j3];
                        &&& f1.id == f0.id
                        &&& f1.dims == f0.dims
                        &&& f1.model == f0.model
                        &&& f1.loss == f0.loss
                        &&& f1.x0 == f0.x0
                        &&& f1.gaussian == f0.gaussian
                        &&& f1.outbox == f0.outbox
                        &&& f1.adjacent@.len() == f0.adjacent@.len()
                        &&& forall|t: int|
                            0 <= t < f1.adjacent@.len() ==> (#[trigger] f1.adjacent@[t]) as int
                                == if f0.adjacent@[t] > id {
                                f0.adjacent@[t] - 1
                            } else {
                                f0.adjacent@[t] as int
                            }
                        &&& f1.wf()
                    },
            decreases nf - j2,
        {
            let na: usize = self.factors[j2].adjacent.len();
            let ghost fb = self.factors@;
            let ghost vb = self.variables@;
            let mut t: usize = 0;
            while t < na
                invariant
                    t <= na,
                    j2 < nf,
                    nf == self.factors@.len(),
                    old(self).wf(),
                    id < old(self).variables@.len(),
                    self.variables@ == vb,
                    self.gbp_settings == old(self).gbp_settings,
                    na == old(self).factors@[j2 as int].adjacent@.len(),
                    self.factors@[j2 as int].adjacent@.len() == na,
                    self.factors@[j2 as int].id == old(self).factors@[j2 as int].id,
                    self.factors@[j2 as int].dims == old(self).factors@[j2 as int].dims,
                    self.factors@[j2 as int].model == old(self).factors@[j2 as int].model,
                    self.factors@[j2 as int].loss == old(self).factors@[j2 as int].loss,
                    self.factors@[j2 as int].x0 == old(self).factors@[j2 as int].x0,
                    self.factors@[j2 as int].gaussian == old(self).factors@[j2 as int].gaussian,
                    self.factors@[j2 as int].outbox == old(self).factors@[j2 as int].outbox,
                    forall|j3: int|
                        #![trigger self.factors@[j3]]
                        0 <= j3 < nf && j3 != j2 ==> self.factors@[j3] == fb[j3],
                    forall|t2: int|
                        0 <= t2 < na ==> (#[trigger] old(self).factors@[j2 as int].adjacent@[t2])
                            != id,
                    forall|t2: int|
                        t <= t2 < na ==> (#[trigger] self.factors@[j2 as int].adjacent@[t2]) == old(self).factors@[j2 as int].adjacent@[t2],
                    forall|t2: int|
                        0 <= t2 < t ==> (#[trigger] self.factors@[j2 as int].adjacent@[t2]) as int
                            == if old(self).factors@[j2 as int].adjacent@[t2] > id {
                            old(self).factors@[j2 as int].adjacent@[t2] - 1
                        } else {
                            old(self).factors@[j2 as int].adjacent@[t2] as int
                        },
                decreases na - t,
            {
                let vid: usize = self.factors[j2].adjacent[t];
                if vid > id {
                    self.factors[j2].adjacent[t] = vid - 1;
                }
                t += 1;
            }
            proof {
                let f0 = old(self).factors@[j2 as int];
                let f1 = self.factors@[j2 as int];
                assert forall|s2: int, t2: int|
                    0 <= s2 < t2 < f1.adjacent@.len() implies f1.adjacent@[s2]
                    != f1.adjacent@[t2] by {
                    assert(f0.adjacent@[s2] != f0.adjacent@[t2]);
                }
            }
            j2 += 1;
        }
        Ok(())
    }
}

impl FactorGraph {
    /// The covariance of every variable's current belief, in id order.
    pub fn belief_covariances(&self) -> (r: Result<Vec<Mat>, GbpError>)
        requires
            self.wf(),
        ensures
            r matches Ok(cs) ==> cs@.len() == self.variables@.len() && forall|i: int|
                0 <= i < cs@.len() ==> {
                    let v = self.variables@[i];
                    &&& (#[trigger] cs@[i]).wf()
                    &&& cs@[i].rows == v.dofs
                    &&& cs@[i].cols == v.dofs
                    &&& forall|p: int, q: int|
                        0 <= p < v.dofs && 0 <= q < v.dofs ==> rat_eq(
                            rdot(rowv(v.belief.lam, p), crate::linalg::colv(cs@[i], q)),
                            #[trigger] crate::linalg::kron(p, q),
                        )
                },
            r matches Err(e) ==> (e is Singular || e is Overflow),
    {
        let nv: usize = self.variables.len();
        let mut cs: Vec<Mat> = Vec::new();
        let mut i: usize = 0;
        while i < nv
            invariant
                i <= nv,
                nv == self.variables@.len(),
                self.wf(),
                cs@.len() == i,
                forall|i2: int|
                    0 <= i2 < i ==> {
                        let v = self.variables@[i2];
                        &&& (#[trigger] cs@[i2]).wf()
                        &&& cs@[i2].rows == v.dofs
                        &&& cs@[i2].cols == v.dofs
                        &&& forall|p: int, q: int|
                            0 <= p < v.dofs && 0 <= q < v.dofs ==> rat_eq(
                                rdot(rowv(v.belief.lam, p), crate::linalg::colv(cs@[i2], q)),
                                #[trigger] crate::linalg::kron(p, q),
                            )
                    },
            decreases nv - i,
        {
            match self.variables[i].belief.covariance() {
                Ok(c) => {
                    cs.push(c);
                },
                Err(e) => {
                    return Err(e);
                },
            }
            i += 1;
        }
        Ok(cs)
    }
}

} // verus!
