//! Cross-cutting laws of the solver, stated and proved once.
//!
//! Most laws live in the contracts of the functions they are about: the
//! belief-update sum, the dimension of every outgoing message, the symmetry
//! of the joint precision, the exact caching of the linearisation point, the
//! energy decomposition, the fixed-point behaviour of quiescent graphs, and
//! the single-neighbour projection of messages.  The two laws that relate
//! several calls are proved here.

use crate::rat::{
    lemma_radd_wf, lemma_rat_eq_sym, lemma_rat_eq_trans, lemma_rle_congruence, rat_eq, rat_wf,
    rle, rlt, rzero, Ratio,
};
use crate::variable::{
    eta_sum_except, lam_sum_except, lemma_eta_sum_except_wf, lemma_lam_sum_except_wf, Variable,
};
use crate::graph::{skip_by_dropout, updated_belief};
use vstd::prelude::*;

verus! {

/// Updating a belief twice in a row, with no intervening change to the prior
/// or to the incoming messages, leaves the belief unchanged as a rational
/// value: both updates produce the same information-form sum.
pub proof fn lemma_update_belief_idempotent(v0: Variable, v1: Variable, v2: Variable)
    requires
        v0.wf(),
        v1.wf(),
        v2.wf(),
        v1.dofs == v0.dofs,
        v1.prior == v0.prior,
        v1.inbox == v0.inbox,
        updated_belief(v1, v0),
        v2.dofs == v1.dofs,
        v2.prior == v1.prior,
        v2.inbox == v1.inbox,
        updated_belief(v2, v1),
    ensures
        forall|k: int|
            0 <= k < v0.dofs ==> rat_eq(#[trigger] v2.belief.eta@[k]@, v1.belief.eta@[k]@),
        forall|i: int, j: int|
            0 <= i < v0.dofs && 0 <= j < v0.dofs ==> rat_eq(
                #[trigger] v2.belief.lam.at(i, j),
                v1.belief.lam.at(i, j),
            ),
{
    let d = v0.dofs as int;
    assert forall|k: int| 0 <= k < d implies rat_eq(
        #[trigger] v2.belief.eta@[k]@,
        v1.belief.eta@[k]@,
    ) by {
        let total = eta_sum_except(v0.prior.eta@[k]@, v0.inbox@, -1, k);
        lemma_eta_sum_except_wf(v0.prior.eta@[k]@, v0.inbox@, -1, k, d);
        lemma_rat_eq_sym(v1.belief.eta@[k]@, total);
        lemma_rat_eq_trans(v2.belief.eta@[k]@, total, v1.belief.eta@[k]@);
    }
    assert forall|i: int, j: int| 0 <= i < d && 0 <= j < d implies rat_eq(
        #[trigger] v2.belief.lam.at(i, j),
        v1.belief.lam.at(i, j),
    ) by {
        let total = lam_sum_except(v0.prior.lam.at(i, j), v0.inbox@, -1, i, j);
        lemma_lam_sum_except_wf(v0.prior.lam.at(i, j), v0.inbox@, -1, i, j, d);
        lemma_rat_eq_sym(v1.belief.lam.at(i, j), total);
        lemma_rat_eq_trans(v2.belief.lam.at(i, j), total, v1.belief.lam.at(i, j));
    }
}

/// With the dropout probability set to zero, no strictly positive draw ever
/// skips a factor: the dropout decision, and with it the whole iteration, no
/// longer depends on the random stream.  (A draw of exactly zero is the one
/// input on which this fails: the skip rule compares with "at most".)
pub proof fn lemma_dropout_zero_never_skips(draw: Ratio, dropout: Ratio)
    requires
        rat_wf(draw),
        rat_wf(dropout),
        rlt(rzero(), draw),
        rat_eq(dropout, rzero()),
    ensures
        !skip_by_dropout(draw, dropout),
{
    lemma_rle_congruence(draw, draw, dropout, rzero());
}

/// The boundary case of the dropout rule: a draw of exactly zero is skipped
/// even at dropout zero, because the rule compares with "at most".
pub proof fn lemma_dropout_zero_boundary(draw: Ratio, dropout: Ratio)
    requires
        rat_wf(draw),
        rat_wf(dropout),
        rat_eq(draw, rzero()),
        rat_eq(dropout, rzero()),
    ensures
        skip_by_dropout(draw, dropout),
{
    lemma_rle_congruence(draw, rzero(), dropout, rzero());
}

} // verus!
