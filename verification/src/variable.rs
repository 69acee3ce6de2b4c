//! Variable nodes.
//!
//! A variable owns its prior, its current belief and a table of incoming
//! messages keyed by the sending factor's id.  The belief is always the
//! information-form sum of the prior and all incoming messages; the classic
//! leave-one-out product omits exactly one factor's message.

use crate::gaussian::Gaussian;
use crate::linalg::{dot, matvec, quad_rel, rats, rowv, vec_sub, vec_wf, Mat};
use crate::rat::{radd, rat_eq, rat_wf, rsub, Rat, Ratio};
use crate::GbpError;
use vstd::prelude::*;

verus! {

/// No two entries of a message table carry the same key.
pub open spec fn keys_unique(msgs: Seq<(usize, Gaussian)>) -> bool {
    forall|i: int, j: int| 0 <= i < j < msgs.len() ==> (#[trigger] msgs[i]).0 != (#[trigger] msgs[j]).0
}

/// Information-form sum of the eta entries at position `k`, starting from
/// `base` and skipping any message whose key equals `skip` (pass -1 to skip
/// nothing).
pub open spec fn eta_sum_except(base: Ratio, msgs: Seq<(usize, Gaussian)>, skip: int, k: int) -> Ratio
    decreases msgs.len(),
{
    if msgs.len() == 0 {
        base
    } else {
        let rest = eta_sum_except(base, msgs.drop_last(), skip, k);
        if msgs.last().0 as int == skip {
            rest
        } else {
            radd(rest, msgs.last().1.eta@[k]@)
        }
    }
}

/// Information-form sum of the precision entries at `(i, j)`, starting from
/// `base` and skipping any message whose key equals `skip`.
pub open spec fn lam_sum_except(
    base: Ratio,
    msgs: Seq<(usize, Gaussian)>,
    skip: int,
    i: int,
    j: int,
) -> Ratio
    decreases msgs.len(),
{
    if msgs.len() == 0 {
        base
    } else {
        let rest = lam_sum_except(base, msgs.drop_last(), skip, i, j);
        if msgs.last().0 as int == skip {
            rest
        } else {
            radd(rest, msgs.last().1.lam.at(i, j))
        }
    }
}

/// All messages in a table are well-formed Gaussians of dimension `d`.
pub open spec fn msgs_wf(msgs: Seq<(usize, Gaussian)>, d: int) -> bool {
    forall|t: int|
        0 <= t < msgs.len() ==> (#[trigger] msgs[t]).1.wf() && msgs[t].1.dim() == d
}

pub proof fn lemma_eta_sum_except_wf(base: Ratio, msgs: Seq<(usize, Gaussian)>, skip: int, k: int, d: int)
    requires
        rat_wf(base),
        msgs_wf(msgs, d),
        0 <= k < d,
    ensures
        rat_wf(eta_sum_except(base, msgs, skip, k)),
    decreases msgs.len(),
{
    if msgs.len() > 0 {
        assert(msgs_wf(msgs.drop_last(), d));
        lemma_eta_sum_except_wf(base, msgs.drop_last(), skip, k, d);
        if msgs.last().0 as int != skip {
            crate::rat::lemma_radd_wf(
                eta_sum_except(base, msgs.drop_last(), skip, k),
                msgs.last().1.eta@[k]@,
            );
        }
    }
}

pub proof fn lemma_lam_sum_except_wf(
    base: Ratio,
    msgs: Seq<(usize, Gaussian)>,
    skip: int,
    i: int,
    j: int,
    d: int,
)
    requires
        rat_wf(base),
        msgs_wf(msgs, d),
        0 <= i < d,
        0 <= j < d,
    ensures
        rat_wf(lam_sum_except(base, msgs, skip, i, j)),
    decreases msgs.len(),
{
    if msgs.len() > 0 {
        assert(msgs_wf(msgs.drop_last(), d));
        lemma_lam_sum_except_wf(base, msgs.drop_last(), skip, i, j, d);
        if msgs.last().0 as int != skip {
            crate::rat::lemma_radd_wf(
                lam_sum_except(base, msgs.drop_last(), skip, i, j),
                msgs.last().1.lam.at(i, j),
            );
        }
    }
}

/// The witness chain of a variable's prior energy: the squared Mahalanobis
/// distance between the belief mean and the prior mean under the prior
/// precision.
pub open spec fn prior_energy_witness(
    v: Variable,
    e: Ratio,
    bm: Vec<Rat>,
    pm: Vec<Rat>,
    dv: Vec<Rat>,
    wv: Vec<Rat>,
) -> bool {
    &&& vec_wf(bm@)
    &&& vec_wf(pm@)
    &&& vec_wf(dv@)
    &&& crate::gaussian::solves(v.belief, rats(bm@))
    &&& crate::gaussian::solves(v.prior, rats(pm@))
    &&& dv@.len() == v.dofs
    &&& forall|k: int| 0 <= k < v.dofs ==> rat_eq(#[trigger] dv@[k]@, rsub(bm@[k]@, pm@[k]@))
    &&& quad_rel(e, v.prior.lam, dv@, wv@)
}

/// `e` is the prior energy of `v`.
pub open spec fn prior_energy_rel(v: Variable, e: Ratio) -> bool {
    exists|bm: Vec<Rat>, pm: Vec<Rat>, dv: Vec<Rat>, wv: Vec<Rat>|
        #[trigger] prior_energy_witness(v, e, bm, pm, dv, wv)
}

/// A variable node of the factor graph.
pub struct Variable {
    /// Dense index of this variable in the graph.
    pub id: usize,
    /// Degrees of freedom: the dimension of prior, belief and every message.
    pub dofs: usize,
    /// The fixed prior of the variable.
    pub prior: Gaussian,
    /// The current belief: prior plus all incoming messages.
    pub belief: Gaussian,
    /// Incoming messages keyed by the sending factor's id; a missing entry
    /// acts as the zero Gaussian.
    pub inbox: Vec<(usize, Gaussian)>,
}

impl Variable {
    /// Well-formed: all components have dimension `dofs` and the message keys
    /// are unique.
    pub open spec fn wf(self) -> bool {
        &&& self.dofs >= 1
        &&& self.prior.wf()
        &&& self.prior.dim() == self.dofs
        &&& self.belief.wf()
        &&& self.belief.dim() == self.dofs
        &&& msgs_wf(self.inbox@, self.dofs as int)
        &&& keys_unique(self.inbox@)
    }

    /// A fresh variable; the belief starts out equal to the prior.
    pub fn new(id: usize, prior: Gaussian) -> (r: Result<Variable, GbpError>)
        requires
            prior.wf(),
        ensures
            prior.dim() == 0 ==> (r matches Err(e) && e is InvalidSettings),
            prior.dim() > 0 ==> (r matches Ok(v) && {
                &&& v.wf()
                &&& v.id == id
                &&& v.dofs == prior.dim()
                &&& v.prior == prior
                &&& v.belief.eta@ == prior.eta@
                &&& forall|i: int, j: int|
                    0 <= i < prior.dim() && 0 <= j < prior.dim() ==> #[trigger] v.belief.lam.at(
                        i,
                        j,
                    ) == prior.lam.at(i, j)
                &&& v.inbox@.len() == 0
            }),
    {
        let dofs: usize = prior.eta.len();
        if dofs == 0 {
            return Err(GbpError::InvalidSettings);
        }
        let belief: Gaussian = prior.copy();
        Ok(Variable { id, dofs, prior, belief, inbox: Vec::new() })
    }

    /// Read access to the current belief.
    pub fn belief(&self) -> (r: &Gaussian)
        ensures
            *r == self.belief,
    {
        &self.belief
    }

    /// Write access to the current belief.
    pub fn belief_mut(&mut self) -> (r: &mut Gaussian)
        ensures
            *r == old(self).belief,
            final(self).belief == *final(r),
            final(self).id == old(self).id,
            final(self).dofs == old(self).dofs,
            final(self).prior == old(self).prior,
            final(self).inbox == old(self).inbox,
    {
        &mut self.belief
    }

    /// Recompute the belief as the information-form sum of the prior and all
    /// incoming messages.  On overflow the belief is left unchanged.  With an
    /// empty inbox the belief is exactly the prior.
    pub fn update_belief(&mut self) -> (r: Result<(), GbpError>)
        requires
            old(self).wf(),
        ensures
            final(self).wf(),
            final(self).id == old(self).id,
            final(self).dofs == old(self).dofs,
            final(self).prior == old(self).prior,
            final(self).inbox == old(self).inbox,
            r matches Ok(()) ==> {
                &&& forall|k: int|
                    0 <= k < old(self).dofs ==> rat_eq(
                        #[trigger] final(self).belief.eta@[k]@,
                        eta_sum_except(old(self).prior.eta@[k]@, old(self).inbox@, -1, k),
                    )
                &&& forall|i: int, j: int|
                    0 <= i < old(self).dofs && 0 <= j < old(self).dofs ==> rat_eq(
                        #[trigger] final(self).belief.lam.at(i, j),
                        lam_sum_except(old(self).prior.lam.at(i, j), old(self).inbox@, -1, i, j),
                    )
            },
            r matches Err(e) ==> e is Overflow && final(self).belief == old(self).belief,
            old(self).inbox@.len() == 0 ==> {
                &&& r is Ok
                &&& final(self).belief.eta@ == old(self).prior.eta@
                &&& forall|i: int, j: int|
                    0 <= i < old(self).dofs && 0 <= j < old(self).dofs
                        ==> #[trigger] final(self).belief.lam.at(i, j) == old(self).prior.lam.at(
                        i,
                        j,
                    )
            },
    {
        match self.product_except(-1i128) {
            Ok(acc) => {
                self.belief = acc;
                Ok(())
            },
            Err(e) => Err(e),
        }
    }

    /// The product (in information form) of the prior and every incoming
    /// message except the one keyed `skip` when `use_skip` is set.
    fn product_except(&self, skip: i128) -> (r: Result<Gaussian, GbpError>)
        requires
            self.wf(),
        ensures
            self.inbox@.len() == 0 ==> r is Ok,
            r matches Ok(g) ==> {
                &&& g.wf()
                &&& g.dim() == self.dofs
                &&& forall|k: int|
                    0 <= k < self.dofs ==> rat_eq(
                        #[trigger] g.eta@[k]@,
                        eta_sum_except(self.prior.eta@[k]@, self.inbox@, skip as int, k),
                    )
                &&& forall|i: int, j: int|
                    0 <= i < self.dofs && 0 <= j < self.dofs ==> rat_eq(
                        #[trigger] g.lam.at(i, j),
                        lam_sum_except(self.prior.lam.at(i, j), self.inbox@, skip as int, i, j),
                    )
                &&& self.inbox@.len() == 0 ==> g.eta@ == self.prior.eta@ && forall|i: int, j: int|
                    0 <= i < self.dofs && 0 <= j < self.dofs ==> #[trigger] g.lam.at(i, j)
                        == self.prior.lam.at(i, j)
            },
            r matches Err(e) ==> e is Overflow,
    {
        let mut acc: Gaussian = self.prior.copy();
        let n: usize = self.inbox.len();
        let mut t: usize = 0;
        while t < n
            invariant
                t <= n,
                n == self.inbox@.len(),
                self.wf(),
                acc.wf(),
                acc.dim() == self.dofs,
                forall|k: int|
                    0 <= k < self.dofs ==> rat_eq(
                        #[trigger] acc.eta@[k]@,
                        eta_sum_except(
                            self.prior.eta@[k]@,
                            self.inbox@.take(t as int),
                            skip as int,
                            k,
                        ),
                    ),
                forall|i: int, j: int|
                    0 <= i < self.dofs && 0 <= j < self.dofs ==> rat_eq(
                        #[trigger] acc.lam.at(i, j),
                        lam_sum_except(
                            self.prior.lam.at(i, j),
                            self.inbox@.take(t as int),
                            skip as int,
                            i,
                            j,
                        ),
                    ),
                n == 0 ==> acc.eta@ == self.prior.eta@ && forall|i: int, j: int|
                    0 <= i < self.dofs && 0 <= j < self.dofs ==> #[trigger] acc.lam.at(i, j)
                        == self.prior.lam.at(i, j),
            decreases n - t,
        {
            let key_matches: bool = if self.inbox[t].0 as i128 == skip {
                true
            } else {
                false
            };
            if !key_matches {
                let next: Gaussian = match acc.add(&self.inbox[t].1) {
                    Some(g) => g,
                    None => {
                        return Err(GbpError::Overflow);
                    },
                };
                proof {
                    lemma_product_step(*self, acc, next, skip as int, t as int);
                }
                acc = next;
            } else {
                proof {
                    lemma_product_skip(*self, acc, skip as int, t as int);
                }
            }
            t += 1;
        }
        proof {
            assert(self.inbox@.take(n as int) =~= self.inbox@);
        }
        Ok(acc)
    }

    /// The classic leave-one-out message from this variable towards the
    /// factor `factor_id`: the product of the prior and all incoming messages
    /// except the one from `factor_id`.
    pub fn send_message_to(&self, factor_id: usize) -> (r: Result<Gaussian, GbpError>)
        requires
            self.wf(),
        ensures
            r matches Ok(g) ==> {
                &&& g.wf()
                &&& g.dim() == self.dofs
                &&& forall|k: int|
                    0 <= k < self.dofs ==> rat_eq(
                        #[trigger] g.eta@[k]@,
                        eta_sum_except(self.prior.eta@[k]@, self.inbox@, factor_id as int, k),
                    )
                &&& forall|i: int, j: int|
                    0 <= i < self.dofs && 0 <= j < self.dofs ==> rat_eq(
                        #[trigger] g.lam.at(i, j),
                        lam_sum_except(
                            self.prior.lam.at(i, j),
                            self.inbox@,
                            factor_id as int,
                            i,
                            j,
                        ),
                    )
            },
            r matches Err(e) ==> e is Overflow,
    {
        self.product_except(factor_id as i128)
    }

    /// Squared Mahalanobis distance between the belief mean and the prior
    /// mean under the prior precision.
    pub fn prior_energy(&self) -> (r: Result<Rat, GbpError>)
        requires
            self.wf(),
        ensures
            r matches Ok(e) ==> e.wf() && prior_energy_rel(*self, e@),
            r matches Err(e) ==> (e is Singular || e is Overflow),
    {
        let bm: Vec<Rat> = match self.belief.mean() {
            Ok(x) => x,
            Err(e) => {
                return Err(e);
            },
        };
        let pm: Vec<Rat> = match self.prior.mean() {
            Ok(x) => x,
            Err(e) => {
                return Err(e);
            },
        };
        let dv: Vec<Rat> = match vec_sub(&bm, &pm) {
            Some(v) => v,
            None => {
                return Err(GbpError::Overflow);
            },
        };
        let wv: Vec<Rat> = match matvec(&self.prior.lam, &dv) {
            Some(v) => v,
            None => {
                return Err(GbpError::Overflow);
            },
        };
        let e: Rat = match dot(&dv, &wv) {
            Some(v) => v,
            None => {
                return Err(GbpError::Overflow);
            },
        };
        proof {
            assert(prior_energy_witness(*self, e@, bm, pm, dv, wv));
        }
        Ok(e)
    }

    /// Store (or replace) the incoming message from factor `factor_id`.
    pub fn set_message(&mut self, factor_id: usize, msg: Gaussian)
        requires
            old(self).wf(),
            msg.wf(),
            msg.dim() == old(self).dofs,
        ensures
            final(self).wf(),
            final(self).id == old(self).id,
            final(self).dofs == old(self).dofs,
            final(self).prior == old(self).prior,
            final(self).belief == old(self).belief,
            (exists|i: int|
                0 <= i < old(self).inbox@.len() && (#[trigger] old(self).inbox@[i]).0 == factor_id
                    && final(self).inbox@ == old(self).inbox@.update(i, (factor_id, msg))) || ((
            forall|i: int|
                0 <= i < old(self).inbox@.len() ==> (#[trigger] old(self).inbox@[i]).0
                    != factor_id) && final(self).inbox@ == old(self).inbox@.push(
                (factor_id, msg),
            )),
            slot_of(final(self).inbox@, factor_id as int) < final(self).inbox@.len(),
            final(self).inbox@[slot_of(final(self).inbox@, factor_id as int)] == (factor_id, msg),
            forall|k: int|
                #![trigger slot_of(final(self).inbox@, k)]
                k != factor_id ==> {
                    &&& (slot_of(final(self).inbox@, k) < final(self).inbox@.len() <==> slot_of(
                        old(self).inbox@,
                        k,
                    ) < old(self).inbox@.len())
                    &&& (slot_of(final(self).inbox@, k) < final(self).inbox@.len() ==> final(self).inbox@[slot_of(final(self).inbox@, k)] == old(self).inbox@[slot_of(
                        old(self).inbox@,
                        k,
                    )])
                },
    {
        let n: usize = self.inbox.len();
        let mut t: usize = 0;
        while t < n
            invariant
                t <= n,
                n == self.inbox@.len(),
                *self == *old(self),
                old(self).wf(),
                msg.wf(),
                msg.dim() == self.dofs,
                forall|i: int| 0 <= i < t ==> (#[trigger] self.inbox@[i]).0 != factor_id,
            decreases n - t,
        {
            if self.inbox[t].0 == factor_id {
                self.inbox[t] = (factor_id, msg);
                proof {
                    let s0 = old(self).inbox@;
                    let s1 = self.inbox@;
                    assert forall|u: int|
                        0 <= u < s1.len() implies (#[trigger] s1[u]).1.wf() && s1[u].1.dim()
                        == self.dofs as int by {
                        if u != t {
                            assert(s1[u] == s0[u]);
                        }
                    }
                    assert forall|i: int, j: int|
                        0 <= i < j < s1.len() implies (#[trigger] s1[i]).0 != (#[trigger] s1[j]).0 by {
                        assert(s1[i].0 == s0[i].0);
                        assert(s1[j].0 == s0[j].0);
                    }
                    lemma_slot_of_unique(s1, factor_id as int, t as int);
                    assert forall|k: int|
                        #![trigger slot_of(s1, k)]
                        k != factor_id implies {
                        &&& (slot_of(s1, k) < s1.len() <==> slot_of(s0, k) < s0.len())
                        &&& (slot_of(s1, k) < s1.len() ==> s1[slot_of(s1, k)] == s0[slot_of(
                            s0,
                            k,
                        )])
                    } by {
                        assert(forall|u: int|
                            0 <= u < s0.len() ==> (#[trigger] s0[u]).0 == (#[trigger] s1[u]).0);
                        lemma_slot_of_same_keys(s1, s0, k);
                        lemma_slot_of_spec(s0, k);
                        if slot_of(s0, k) < s0.len() {
                            assert(slot_of(s0, k) != t);
                        }
                    }
                }
                return ;
            }
            t += 1;
        }
        self.inbox.push((factor_id, msg));
        proof {
            let s0 = old(self).inbox@;
            let s1 = self.inbox@;
            lemma_slot_of_unique(s1, factor_id as int, s0.len() as int);
            assert forall|k: int|
                #![trigger slot_of(s1, k)]
                k != factor_id implies {
                &&& (slot_of(s1, k) < s1.len() <==> slot_of(s0, k) < s0.len())
                &&& (slot_of(s1, k) < s1.len() ==> s1[slot_of(s1, k)] == s0[slot_of(s0, k)])
            } by {
                lemma_slot_of_push(s0, (factor_id, msg), k);
                lemma_slot_of_spec(s0, k);
            }
        }
    }

    /// Drop the message slot keyed by `factor_id`; fails when no such slot
    /// exists.
    pub fn remove_connection_to(&mut self, factor_id: usize) -> (r: Result<(), GbpError>)
        requires
            old(self).wf(),
        ensures
            final(self).wf(),
            final(self).id == old(self).id,
            final(self).dofs == old(self).dofs,
            final(self).prior == old(self).prior,
            final(self).belief == old(self).belief,
            r matches Ok(()) ==> exists|i: int|
                0 <= i < old(self).inbox@.len() && (#[trigger] old(self).inbox@[i]).0 == factor_id
                    && final(self).inbox@ == old(self).inbox@.remove(i),
            r matches Err(e) ==> e is NoSuchConnection && final(self).inbox == old(self).inbox && (
            forall|i: int|
                0 <= i < old(self).inbox@.len() ==> (#[trigger] old(self).inbox@[i]).0
                    != factor_id),
    {
        let n: usize = self.inbox.len();
        let mut t: usize = 0;
        while t < n
            invariant
                t <= n,
                n == self.inbox@.len(),
                *self == *old(self),
                old(self).wf(),
                forall|i: int| 0 <= i < t ==> (#[trigger] self.inbox@[i]).0 != factor_id,
            decreases n - t,
        {
            if self.inbox[t].0 == factor_id {
                self.inbox.remove(t);
                proof {
                    let s0 = old(self).inbox@;
                    let s1 = self.inbox@;
                    assert(s1 == s0.remove(t as int));
                    assert forall|u: int|
                        0 <= u < s1.len() implies (#[trigger] s1[u]).1.wf() && s1[u].1.dim()
                        == self.dofs as int by {
                        if u < t {
                            assert(s1[u] == s0[u]);
                        } else {
                            assert(s1[u] == s0[u + 1]);
                        }
                    }
                    assert forall|i: int, j: int|
                        0 <= i < j < s1.len() implies (#[trigger] s1[i]).0 != (#[trigger] s1[j]).0 by {
                        let i0: int = if i < t { i } else { i + 1 };
                        let j0: int = if j < t { j } else { j + 1 };
                        assert(s1[i] == s0[i0]);
                        assert(s1[j] == s0[j0]);
                    }
                }
                return Ok(());
            }
            t += 1;
        }
        Err(GbpError::NoSuchConnection)
    }
}

/// One step of the running information-form product when the current message
/// is included.
proof fn lemma_product_step(v: Variable, acc: Gaussian, next: Gaussian, skip: int, t: int)
    requires
        v.wf(),
        acc.wf(),
        next.wf(),
        acc.dim() == v.dofs,
        next.dim() == v.dofs,
        0 <= t < v.inbox@.len(),
        v.inbox@[t].0 as int != skip,
        forall|k: int|
            0 <= k < v.dofs ==> rat_eq(
                #[trigger] acc.eta@[k]@,
                eta_sum_except(v.prior.eta@[k]@, v.inbox@.take(t), skip, k),
            ),
        forall|i: int, j: int|
            0 <= i < v.dofs && 0 <= j < v.dofs ==> rat_eq(
                #[trigger] acc.lam.at(i, j),
                lam_sum_except(v.prior.lam.at(i, j), v.inbox@.take(t), skip, i, j),
            ),
        forall|k: int|
            0 <= k < v.dofs ==> rat_eq(
                #[trigger] next.eta@[k]@,
                radd(acc.eta@[k]@, v.inbox@[t].1.eta@[k]@),
            ),
        forall|i: int, j: int|
            0 <= i < v.dofs && 0 <= j < v.dofs ==> rat_eq(
                #[trigger] next.lam.at(i, j),
                radd(acc.lam.at(i, j), v.inbox@[t].1.lam.at(i, j)),
            ),
    ensures
        forall|k: int|
            0 <= k < v.dofs ==> rat_eq(
                #[trigger] next.eta@[k]@,
                eta_sum_except(v.prior.eta@[k]@, v.inbox@.take(t + 1), skip, k),
            ),
        forall|i: int, j: int|
            0 <= i < v.dofs && 0 <= j < v.dofs ==> rat_eq(
                #[trigger] next.lam.at(i, j),
                lam_sum_except(v.prior.lam.at(i, j), v.inbox@.take(t + 1), skip, i, j),
            ),
{
    let d = v.dofs as int;
    assert(v.inbox@.take(t + 1).drop_last() =~= v.inbox@.take(t));
    assert(v.inbox@.take(t + 1).last() == v.inbox@[t]);
    assert(msgs_wf(v.inbox@.take(t), d));
    assert forall|k: int| 0 <= k < d implies rat_eq(
        #[trigger] next.eta@[k]@,
        eta_sum_except(v.prior.eta@[k]@, v.inbox@.take(t + 1), skip, k),
    ) by {
        lemma_eta_sum_except_wf(v.prior.eta@[k]@, v.inbox@.take(t), skip, k, d);
        crate::linalg::lemma_acc_step(
            acc.eta@[k]@,
            eta_sum_except(v.prior.eta@[k]@, v.inbox@.take(t), skip, k),
            v.inbox@[t].1.eta@[k]@,
            v.inbox@[t].1.eta@[k]@,
            next.eta@[k]@,
        );
    }
    assert forall|i: int, j: int| 0 <= i < d && 0 <= j < d implies rat_eq(
        #[trigger] next.lam.at(i, j),
        lam_sum_except(v.prior.lam.at(i, j), v.inbox@.take(t + 1), skip, i, j),
    ) by {
        lemma_lam_sum_except_wf(v.prior.lam.at(i, j), v.inbox@.take(t), skip, i, j, d);
        crate::linalg::lemma_acc_step(
            acc.lam.at(i, j),
            lam_sum_except(v.prior.lam.at(i, j), v.inbox@.take(t), skip, i, j),
            v.inbox@[t].1.lam.at(i, j),
            v.inbox@[t].1.lam.at(i, j),
            next.lam.at(i, j),
        );
    }
}

/// One step of the running information-form product when the current message
/// is the one to leave out.
proof fn lemma_product_skip(v: Variable, acc: Gaussian, skip: int, t: int)
    requires
        v.wf(),
        acc.wf(),
        acc.dim() == v.dofs,
        0 <= t < v.inbox@.len(),
        v.inbox@[t].0 as int == skip,
        forall|k: int|
            0 <= k < v.dofs ==> rat_eq(
                #[trigger] acc.eta@[k]@,
                eta_sum_except(v.prior.eta@[k]@, v.inbox@.take(t), skip, k),
            ),
        forall|i: int, j: int|
            0 <= i < v.dofs && 0 <= j < v.dofs ==> rat_eq(
                #[trigger] acc.lam.at(i, j),
                lam_sum_except(v.prior.lam.at(i, j), v.inbox@.take(t), skip, i, j),
            ),
    ensures
        forall|k: int|
            0 <= k < v.dofs ==> rat_eq(
                #[trigger] acc.eta@[k]@,
                eta_sum_except(v.prior.eta@[k]@, v.inbox@.take(t + 1), skip, k),
            ),
        forall|i: int, j: int|
            0 <= i < v.dofs && 0 <= j < v.dofs ==> rat_eq(
                #[trigger] acc.lam.at(i, j),
                lam_sum_except(v.prior.lam.at(i, j), v.inbox@.take(t + 1), skip, i, j),
            ),
{
    assert(v.inbox@.take(t + 1).drop_last() =~= v.inbox@.take(t));
    assert(v.inbox@.take(t + 1).last() == v.inbox@[t]);
}


/// Linear search of a message table for a key, starting at `t`; the table
/// length means absence.
pub open spec fn slot_search(msgs: Seq<(usize, Gaussian)>, key: int, t: int) -> int
    decreases msgs.len() - t,
{
    if t < 0 || t >= msgs.len() {
        msgs.len() as int
    } else if msgs[t].0 == key {
        t
    } else {
        slot_search(msgs, key, t + 1)
    }
}

/// The index of the slot keyed `key`, or the table length when absent.
pub open spec fn slot_of(msgs: Seq<(usize, Gaussian)>, key: int) -> int {
    slot_search(msgs, key, 0)
}

proof fn lemma_slot_search_spec(msgs: Seq<(usize, Gaussian)>, key: int, t: int)
    requires
        0 <= t <= msgs.len(),
    ensures
        t <= slot_search(msgs, key, t) <= msgs.len(),
        slot_search(msgs, key, t) < msgs.len() ==> msgs[slot_search(msgs, key, t)].0 == key,
        slot_search(msgs, key, t) == msgs.len() ==> forall|u: int|
            t <= u < msgs.len() ==> (#[trigger] msgs[u]).0 != key,
    decreases msgs.len() - t,
{
    if t < msgs.len() && msgs[t].0 != key {
        lemma_slot_search_spec(msgs, key, t + 1);
    }
}

/// What the slot index means: in range with the key when present, the length
/// exactly when no slot carries the key.
pub proof fn lemma_slot_of_spec(msgs: Seq<(usize, Gaussian)>, key: int)
    ensures
        0 <= slot_of(msgs, key) <= msgs.len(),
        slot_of(msgs, key) < msgs.len() ==> msgs[slot_of(msgs, key)].0 == key,
        slot_of(msgs, key) == msgs.len() ==> forall|u: int|
            0 <= u < msgs.len() ==> (#[trigger] msgs[u]).0 != key,
{
    lemma_slot_search_spec(msgs, key, 0);
}

/// With unique keys, a slot that carries the key is the slot of the key.
pub proof fn lemma_slot_of_unique(msgs: Seq<(usize, Gaussian)>, key: int, idx: int)
    requires
        keys_unique(msgs),
        0 <= idx < msgs.len(),
        msgs[idx].0 == key,
    ensures
        slot_of(msgs, key) == idx,
{
    lemma_slot_of_spec(msgs, key);
    let s = slot_of(msgs, key);
    if s < msgs.len() && s != idx {
        assert(msgs[s].0 == key && msgs[idx].0 == key);
        assert(false);
    }
}

proof fn lemma_slot_search_same_keys(
    m1: Seq<(usize, Gaussian)>,
    m2: Seq<(usize, Gaussian)>,
    key: int,
    t: int,
)
    requires
        0 <= t,
        m1.len() == m2.len(),
        forall|u: int| 0 <= u < m1.len() ==> (#[trigger] m1[u]).0 == (#[trigger] m2[u]).0,
    ensures
        slot_search(m1, key, t) == slot_search(m2, key, t),
    decreases m1.len() - t,
{
    if t < m1.len() && m1[t].0 != key {
        lemma_slot_search_same_keys(m1, m2, key, t + 1);
    }
}

/// Two tables with pointwise equal keys locate every key at the same index.
pub proof fn lemma_slot_of_same_keys(
    m1: Seq<(usize, Gaussian)>,
    m2: Seq<(usize, Gaussian)>,
    key: int,
)
    requires
        m1.len() == m2.len(),
        forall|u: int| 0 <= u < m1.len() ==> (#[trigger] m1[u]).0 == (#[trigger] m2[u]).0,
    ensures
        slot_of(m1, key) == slot_of(m2, key),
{
    lemma_slot_search_same_keys(m1, m2, key, 0);
}

proof fn lemma_slot_search_push(
    m: Seq<(usize, Gaussian)>,
    e: (usize, Gaussian),
    key: int,
    t: int,
)
    requires
        0 <= t <= m.len(),
        e.0 != key,
    ensures
        slot_search(m.push(e), key, t) == if slot_search(m, key, t) < m.len() {
            slot_search(m, key, t)
        } else {
            m.len() as int + 1
        },
    decreases m.len() - t,
{
    lemma_slot_search_spec(m, key, t);
    if t < m.len() {
        if m[t].0 != key {
            lemma_slot_search_push(m, e, key, t + 1);
        }
    } else {
        assert(m.push(e)[t] == e);
        assert(slot_search(m.push(e), key, t) == slot_search(m.push(e), key, t + 1));
        assert(slot_search(m.push(e), key, t + 1) == m.push(e).len());
    }
}

/// Appending a slot with another key moves no existing key and leaves the new
/// key absent-as-before.
pub proof fn lemma_slot_of_push(m: Seq<(usize, Gaussian)>, e: (usize, Gaussian), key: int)
    requires
        e.0 != key,
    ensures
        slot_of(m.push(e), key) == if slot_of(m, key) < m.len() {
            slot_of(m, key)
        } else {
            m.len() as int + 1
        },
{
    lemma_slot_search_push(m, e, key, 0);
}

/// Slot `t` of the renumbered table descends from some slot of the old
/// table: the identical message value, under a key shifted down past the
/// removed id.
pub open spec fn renumbered_slot(
    fresh: Seq<(usize, Gaussian)>,
    older: Seq<(usize, Gaussian)>,
    removed: int,
    t: int,
) -> bool {
    exists|t0: int|
        {
            &&& 0 <= t0 < older.len()
            &&& crate::gaussian::gaussian_value_eq((#[trigger] older[t0]).1, fresh[t].1)
            &&& older[t0].0 == if fresh[t].0 >= removed {
                fresh[t].0 + 1
            } else {
                fresh[t].0 as int
            }
        }
}

/// Slot `t0` of the old table survives the renumbering: some slot of the new
/// table carries the identical message value under the shifted key.
pub open spec fn surviving_slot(
    fresh: Seq<(usize, Gaussian)>,
    older: Seq<(usize, Gaussian)>,
    removed: int,
    t0: int,
) -> bool {
    exists|t: int|
        {
            &&& 0 <= t < fresh.len()
            &&& crate::gaussian::gaussian_value_eq(older[t0].1, (#[trigger] fresh[t]).1)
            &&& older[t0].0 == if fresh[t].0 >= removed {
                fresh[t].0 + 1
            } else {
                fresh[t].0 as int
            }
        }
}

impl Variable {
    /// Drop the slot of the removed factor (when present) and shift every
    /// key above it down by one, keeping the message table consistent with
    /// densely renumbered factor ids.
    pub fn purge_and_renumber(&mut self, removed: usize)
        requires
            old(self).wf(),
        ensures
            final(self).wf(),
            final(self).id == old(self).id,
            final(self).dofs == old(self).dofs,
            final(self).prior == old(self).prior,
            final(self).belief == old(self).belief,
            final(self).inbox@.len() <= old(self).inbox@.len(),
            forall|t: int|
                0 <= t < final(self).inbox@.len() ==> #[trigger] renumbered_slot(
                    final(self).inbox@,
                    old(self).inbox@,
                    removed as int,
                    t,
                ),
            forall|t0: int|
                0 <= t0 < old(self).inbox@.len() && (#[trigger] old(self).inbox@[t0]).0 != removed
                    ==> surviving_slot(
                    final(self).inbox@,
                    old(self).inbox@,
                    removed as int,
                    t0,
                ),
    {
        let n: usize = self.inbox.len();
        let mut fresh: Vec<(usize, Gaussian)> = Vec::new();
        let ghost mut srcs: Seq<int> = Seq::empty();
        let mut t: usize = 0;
        while t < n
            invariant
                t <= n,
                n == self.inbox@.len(),
                self.wf(),
                fresh@.len() == srcs.len(),
                fresh@.len() <= t,
                forall|u: int|
                    0 <= u < fresh@.len() ==> {
                        &&& 0 <= #[trigger] srcs[u] < t
                        &&& self.inbox@[srcs[u]].0 != removed
                        &&& crate::gaussian::gaussian_value_eq(
                            self.inbox@[srcs[u]].1,
                            fresh@[u].1,
                        )
                        &&& self.inbox@[srcs[u]].0 == if fresh@[u].0 >= removed {
                            fresh@[u].0 + 1
                        } else {
                            fresh@[u].0 as int
                        }
                    },
                forall|u1: int, u2: int| 0 <= u1 < u2 < srcs.len() ==> srcs[u1] < srcs[u2],
                forall|t0: int|
                    0 <= t0 < t && (#[trigger] self.inbox@[t0]).0 != removed ==> exists|u: int|
                        0 <= u < srcs.len() && #[trigger] srcs[u] == t0,
                forall|u: int|
                    0 <= u < fresh@.len() ==> (#[trigger] fresh@[u]).1.wf() && fresh@[u].1.dim()
                        == self.dofs,
            decreases n - t,
        {
            let key: usize = self.inbox[t].0;
            if key != removed {
                let mapped: usize = if key > removed {
                    key - 1
                } else {
                    key
                };
                let msg: Gaussian = self.inbox[t].1.copy();
                proof {
                    assert(msg.eta@ == self.inbox@[t as int].1.eta@);
                }
                fresh.push((mapped, self.inbox[t].1.copy()));
                proof {
                    let srcs0 = srcs;
                    srcs = srcs.push(t as int);
                    assert(srcs[srcs.len() - 1] == t as int);
                    assert forall|t0: int|
                        0 <= t0 < t + 1 && (#[trigger] self.inbox@[t0]).0 != removed
                        implies exists|u: int|
                        0 <= u < srcs.len() && #[trigger] srcs[u] == t0 by {
                        if t0 < t {
                            let u0 = choose|u: int|
                                0 <= u < srcs0.len() && #[trigger] srcs0[u] == t0;
                            assert(srcs[u0] == t0);
                        } else {
                            assert(srcs[srcs.len() - 1] == t0);
                        }
                    }
                }
            }
            t += 1;
        }
        proof {
            // distinct sources carry distinct keys, and the renumbering is
            // injective away from the removed key
            assert forall|u1: int, u2: int|
                0 <= u1 < u2 < fresh@.len() implies (#[trigger] fresh@[u1]).0 != (
            #[trigger] fresh@[u2]).0 by {
                assert(self.inbox@[srcs[u1]].0 != self.inbox@[srcs[u2]].0);
            }
        }
        self.inbox = fresh;
        proof {
            assert forall|t: int|
                0 <= t < self.inbox@.len() implies #[trigger] renumbered_slot(
                self.inbox@,
                old(self).inbox@,
                removed as int,
                t,
            ) by {
                let t0 = srcs[t];
                assert({
                    &&& 0 <= t0 < old(self).inbox@.len()
                    &&& (old(self).inbox@[t0]).1.eta@ == self.inbox@[t].1.eta@
                    &&& old(self).inbox@[t0].0 == if self.inbox@[t].0 >= removed {
                        self.inbox@[t].0 + 1
                    } else {
                        self.inbox@[t].0 as int
                    }
                });
            }
        }
    }
}
} // verus!
