//! End-to-end tests of the belief-propagation solver on exact rationals.

use gbp::factor::{Loss, MeasurementModel, MessageOutcome};
use gbp::gaussian::Gaussian;
use gbp::graph::{FactorGraph, GbpSettings, JitOutcome, SolveResult, SolveSettings, SweepOutcome, UnitInterval};
use gbp::linalg::Mat;
use gbp::node::{Node, NodeKind as GraphNodeKind};
use gbp::rat::Rat;
use gbp::variable::Variable;
use gbp::GbpError;

fn r(n: i64, d: i64) -> Rat {
    Rat::new(n, d).unwrap()
}

fn mat1(v: Rat) -> Mat {
    Mat { rows: 1, cols: 1, m: vec![vec![v]] }
}

fn mat_row2(a: Rat, b: Rat) -> Mat {
    Mat { rows: 1, cols: 2, m: vec![vec![a, b]] }
}

/// A one-dimensional Gaussian in information form.
fn g1(eta: Rat, lam: Rat) -> Gaussian {
    Gaussian::from(vec![eta], mat1(lam)).unwrap()
}

fn assert_rat_eq(a: &Rat, b: &Rat) {
    assert_eq!(a.eq_rat(b), Some(true));
}

fn default_graph(dropout: Rat, damping: Rat, seed: u64) -> FactorGraph {
    let settings = GbpSettings::new(
        damping,
        r(1, 10),
        5,
        10,
        UnitInterval::new(dropout).unwrap(),
        Vec::new(),
    )
    .unwrap();
    FactorGraph::new(settings, seed)
}

/// Two unit-prior scalar variables tied by the linear factor x1 - x0 = 2.
fn two_variable_graph(dropout: Rat, damping: Rat, seed: u64) -> FactorGraph {
    let mut g = default_graph(dropout, damping, seed);
    let v0 = g.add_variable(g1(r(0, 1), r(1, 1))).unwrap();
    let v1 = g.add_variable(g1(r(0, 1), r(1, 1))).unwrap();
    assert_eq!(v0, 0);
    assert_eq!(v1, 1);
    let model = MeasurementModel::Linear {
        jacobian: mat_row2(r(-1, 1), r(1, 1)),
        measurement: vec![r(2, 1)],
    };
    let loss = Loss::gaussian(mat1(r(1, 1))).unwrap();
    g.add_factor(model, loss, vec![0, 1]).unwrap();
    g
}

fn belief_mean(g: &FactorGraph, id: usize) -> Vec<Rat> {
    g.belief_of(id).unwrap().mean().unwrap()
}

#[test]
fn single_linear_factor_reaches_exact_marginals() {
    let mut g = two_variable_graph(r(0, 1), r(0, 1), 0);
    let settings = SolveSettings::new(50, r(1, 1_000_000_000), true, true).unwrap();
    let (result, trace) = g.solve(&settings);
    assert_eq!(result, SolveResult::Converged);
    assert!(!trace.is_empty());
    // exact marginal means: -2/3 and +2/3
    let m0 = belief_mean(&g, 0);
    let m1 = belief_mean(&g, 1);
    assert_rat_eq(&m0[0], &r(-2, 3));
    assert_rat_eq(&m1[0], &r(2, 3));
}

#[test]
fn beliefs_agree_with_joint_map_on_a_chain() {
    // four variables, three linear difference factors: x_{k+1} - x_k = 1
    let mut g = default_graph(r(0, 1), r(0, 1), 0);
    for _ in 0..4 {
        g.add_variable(g1(r(0, 1), r(1, 100))).unwrap();
    }
    for k in 0..3 {
        let model = MeasurementModel::Linear {
            jacobian: mat_row2(r(-1, 1), r(1, 1)),
            measurement: vec![r(1, 1)],
        };
        let loss = Loss::gaussian(mat1(r(100, 1))).unwrap();
        g.add_factor(model, loss, vec![k, k + 1]).unwrap();
    }
    let settings = SolveSettings::new(30, r(1, 1_000_000_000_000), false, false).unwrap();
    g.solve(&settings);
    // on a tree, synchronous belief propagation reaches the exact marginals,
    // whose means equal the mean of the joint distribution
    let map = g.MAP().unwrap();
    for k in 0..4 {
        let m = belief_mean(&g, k);
        assert_rat_eq(&m[0], &map[k]);
    }
}

#[test]
fn energy_splits_into_factor_and_prior_parts() {
    let mut g = two_variable_graph(r(0, 1), r(0, 1), 0);
    let settings = SolveSettings::new(5, r(1, 1_000_000), false, false).unwrap();
    g.solve(&settings);
    let without = g.energy(false).unwrap();
    let with = g.energy(true).unwrap();
    // the difference of the two totals is exactly the sum of prior energies
    let mut prior_sum = Rat::zero();
    for i in 0..2 {
        let pe = g.variables[i].prior_energy().unwrap();
        prior_sum = prior_sum.add(&pe).unwrap();
    }
    let reassembled = without.add(&prior_sum).unwrap();
    assert_rat_eq(&with, &reassembled);
}

#[test]
fn joint_precision_is_symmetric() {
    let g = two_variable_graph(r(0, 1), r(0, 1), 0);
    let joint = g.joint_distribution().unwrap();
    let n = joint.eta.len();
    for i in 0..n {
        for j in 0..n {
            let a = joint.lam.get(i, j);
            let b = joint.lam.get(j, i);
            assert_rat_eq(&a, &b);
        }
    }
}

#[test]
fn solve_on_factorless_graph_keeps_the_prior() {
    let mut g = default_graph(r(0, 1), r(0, 1), 0);
    g.add_variable(g1(r(3, 1), r(2, 1))).unwrap();
    let settings = SolveSettings::new(10, r(1, 1_000_000), false, false).unwrap();
    g.solve(&settings);
    let belief = g.belief_of(0).unwrap();
    assert_rat_eq(&belief.eta[0], &r(3, 1));
    assert_rat_eq(&belief.lam.get(0, 0), &r(2, 1));
    // with priors excluded the energy of a factorless graph is zero
    let e = g.energy(false).unwrap();
    assert_rat_eq(&e, &Rat::zero());
}

#[test]
fn full_dropout_freezes_the_beliefs_at_the_prior() {
    let mut g = two_variable_graph(r(1, 1), r(0, 1), 0);
    let settings = SolveSettings::new(10, r(1, 1_000_000), false, false).unwrap();
    g.solve(&settings);
    for i in 0..2 {
        let belief = g.belief_of(i).unwrap();
        assert_rat_eq(&belief.eta[0], &r(0, 1));
        assert_rat_eq(&belief.lam.get(0, 0), &r(1, 1));
    }
}

#[test]
fn single_neighbour_message_is_the_factor_gaussian() {
    // one variable, one unary linear factor: the outgoing message is the
    // factor's own Gaussian, with no marginalisation term
    let mut g = default_graph(r(0, 1), r(0, 1), 0);
    g.add_variable(g1(r(0, 1), r(1, 1))).unwrap();
    let model = MeasurementModel::Linear {
        jacobian: mat1(r(1, 1)),
        measurement: vec![r(5, 1)],
    };
    let loss = Loss::gaussian(mat1(r(1, 1))).unwrap();
    g.add_factor(model, loss, vec![0]).unwrap();
    let settings = SolveSettings::new(2, r(1, 1_000_000), false, false).unwrap();
    g.solve(&settings);
    let f = &g.factors[0];
    let msg = &f.outbox[0];
    assert_rat_eq(&msg.eta[0], &f.gaussian.eta[0]);
    assert_rat_eq(&msg.lam.get(0, 0), &f.gaussian.lam.get(0, 0));
    // and the belief is the product of prior and message
    let belief = g.belief_of(0).unwrap();
    let expected_eta = f.gaussian.eta[0].add(&r(0, 1)).unwrap();
    assert_rat_eq(&belief.eta[0], &expected_eta);
}

#[test]
fn updating_beliefs_twice_changes_nothing() {
    let mut g = two_variable_graph(r(0, 1), r(0, 1), 0);
    let settings = SolveSettings::new(3, r(1, 1_000_000), false, false).unwrap();
    g.solve(&settings);
    let first = g.update_beliefs();
    assert!(first.iter().all(|&ok| ok));
    let snapshot: Vec<Vec<Rat>> = (0..2).map(|i| g.belief_of(i).unwrap().eta).collect();
    let second = g.update_beliefs();
    assert!(second.iter().all(|&ok| ok));
    for i in 0..2 {
        let now = g.belief_of(i).unwrap().eta;
        assert_eq!(now, snapshot[i]);
    }
}

#[test]
fn zero_dropout_makes_the_energy_trace_seed_independent() {
    let settings = SolveSettings::new(12, r(1, 1_000_000_000), true, true).unwrap();
    let mut g1s = two_variable_graph(r(0, 1), r(0, 1), 7);
    let mut g2s = two_variable_graph(r(0, 1), r(0, 1), 123456789);
    let (_, t1) = g1s.solve(&settings);
    let (_, t2) = g2s.solve(&settings);
    assert_eq!(t1, t2);
}

#[test]
fn fixed_seed_reproduces_the_energy_trace_under_dropout() {
    let settings = SolveSettings::new(12, r(1, 1_000_000_000), true, true).unwrap();
    let mut g1s = two_variable_graph(r(1, 2), r(0, 1), 42);
    let mut g2s = two_variable_graph(r(1, 2), r(0, 1), 42);
    let (_, t1) = g1s.solve(&settings);
    let (_, t2) = g2s.solve(&settings);
    assert_eq!(t1, t2);
}

#[test]
fn nonlinear_factor_relinearises_and_reduces_energy() {
    // squared-difference range model: (x0 - x1)^2 should approach 4
    let mut g = default_graph(r(0, 1), r(2, 5), 0);
    g.add_variable(g1(r(3, 1), r(1, 1))).unwrap();
    g.add_variable(g1(r(-1, 2), r(1, 1))).unwrap();
    let model = MeasurementModel::SquaredDifference { measurement: r(4, 1) };
    let loss = Loss::gaussian(mat1(r(1, 1))).unwrap();
    g.add_factor(model, loss, vec![0, 1]).unwrap();
    // the first linearisation happened at construction time
    let x0_before = g.factors[0].x0.clone();
    let settings = SolveSettings::new(8, r(1, 1_000_000_000), true, true).unwrap();
    let (_, trace) = g.solve(&settings);
    assert!(!trace.is_empty());
    let first = &trace[0];
    let last = &trace[trace.len() - 1];
    assert_eq!(last.le(first), Some(true));
    // the factor was relinearised away from its initial point
    let x0_after = &g.factors[0].x0;
    let moved = (0..2).any(|k| x0_before[k].eq_rat(&x0_after[k]) != Some(true));
    assert!(moved);
}

#[test]
fn removing_the_middle_factor_splits_the_chain() {
    // chain of four variables; removing the middle factor leaves two
    // independent pairs, each solving to its standalone fixed point
    let mut chain = default_graph(r(0, 1), r(0, 1), 0);
    for _ in 0..4 {
        chain.add_variable(g1(r(0, 1), r(1, 1))).unwrap();
    }
    for k in 0..3 {
        let model = MeasurementModel::Linear {
            jacobian: mat_row2(r(-1, 1), r(1, 1)),
            measurement: vec![r(2, 1)],
        };
        let loss = Loss::gaussian(mat1(r(1, 1))).unwrap();
        chain.add_factor(model, loss, vec![k, k + 1]).unwrap();
    }
    chain.remove_factor(1).unwrap();
    let settings = SolveSettings::new(30, r(1, 1_000_000_000), false, false).unwrap();
    chain.solve(&settings);
    // each remaining pair behaves like the standalone two-variable graph
    let mut standalone = two_variable_graph(r(0, 1), r(0, 1), 0);
    standalone.solve(&settings);
    let s0 = belief_mean(&standalone, 0);
    let s1 = belief_mean(&standalone, 1);
    for (a, b) in [(0, 0), (1, 1), (2, 0), (3, 1)] {
        let m = belief_mean(&chain, a);
        let expected = if b == 0 { &s0 } else { &s1 };
        assert_rat_eq(&m[0], &expected[0]);
    }
}

#[test]
fn gauss_newton_step_reaches_the_map_estimate() {
    let mut g = two_variable_graph(r(0, 1), r(0, 1), 0);
    let e0 = g.energy(true).unwrap();
    let lambda = Rat::zero();
    let nl = g.lm_step(&lambda, &r(2, 1), &r(2, 1)).unwrap();
    assert_rat_eq(&nl, &Rat::zero());
    let e1 = g.energy(true).unwrap();
    // on a quadratic problem one Gauss-Newton step reaches the optimum
    assert_eq!(e1.lt(&e0), Some(true));
    let map = g.MAP().unwrap();
    for k in 0..2 {
        let m = belief_mean(&g, k);
        assert_rat_eq(&m[0], &map[k]);
    }
}

#[test]
fn rejected_lm_step_restores_beliefs_bit_identically() {
    let mut g = two_variable_graph(r(0, 1), r(0, 1), 0);
    // move to the optimum first, so a damped step cannot decrease the energy
    let zero = Rat::zero();
    g.lm_step(&zero, &r(2, 1), &r(2, 1)).unwrap();
    let before: Vec<Vec<Rat>> = (0..2).map(|i| g.belief_of(i).unwrap().eta).collect();
    let lambda = r(1, 1);
    let nl = g.lm_step(&lambda, &r(2, 1), &r(3, 1)).unwrap();
    // the step was rejected: damping increased and the state is restored
    assert_rat_eq(&nl, &r(3, 1));
    for i in 0..2 {
        let after = g.belief_of(i).unwrap().eta;
        assert_eq!(after, before[i]);
    }
}

#[test]
fn gradient_descent_step_applies_the_exact_update() {
    let mut g = two_variable_graph(r(0, 1), r(0, 1), 0);
    // at the priors the gradient is (-2, 2); with learning rate 1/4 the new
    // means are mean - lr * gradient = (1/2, -1/2), and the unit precisions
    // turn them into the same information vectors
    g.gradient_descent_step(&r(1, 4)).unwrap();
    let m0 = belief_mean(&g, 0);
    let m1 = belief_mean(&g, 1);
    assert_rat_eq(&m0[0], &r(1, 2));
    assert_rat_eq(&m1[0], &r(-1, 2));
    // a learning rate outside (0, 1] is refused
    assert_eq!(g.gradient_descent_step(&r(3, 2)), Err(GbpError::InvalidSettings));
    assert_eq!(g.gradient_descent_step(&r(0, 1)), Err(GbpError::InvalidSettings));
}

#[test]
fn gradient_of_the_two_variable_graph_is_exact() {
    // beliefs at the priors: residual r = 2, contribution J' W r = (-2, 2);
    // prior term is zero because belief mean equals prior mean
    let g = two_variable_graph(r(0, 1), r(0, 1), 0);
    let grad = g.gradient(true).unwrap();
    assert_rat_eq(&grad[0], &r(-2, 1));
    assert_rat_eq(&grad[1], &r(2, 1));
}

#[test]
fn settings_validation_refuses_out_of_range_values() {
    assert!(UnitInterval::new(r(3, 2)).is_err());
    assert!(UnitInterval::new(r(-1, 2)).is_err());
    assert!(UnitInterval::new(r(1, 1)).is_ok());
    assert!(SolveSettings::new(0, r(1, 10), true, false).is_err());
    assert!(SolveSettings::new(1, r(1, 10), true, false).is_ok());
    let too_much = GbpSettings::new(
        r(3, 2),
        r(1, 10),
        5,
        10,
        UnitInterval::new(r(0, 1)).unwrap(),
        Vec::new(),
    );
    assert!(too_much.is_err());
}

#[test]
fn error_variants_surface_for_degenerate_inputs() {
    // a dimension mismatch is refused at construction
    let bad = Gaussian::from(vec![r(0, 1)], Mat { rows: 2, cols: 2, m: vec![
        vec![r(1, 1), r(0, 1)],
        vec![r(0, 1), r(1, 1)],
    ] });
    assert_eq!(bad.err(), Some(GbpError::DimensionMismatch));
    // an asymmetric precision is refused too
    let asym = Gaussian::from(
        vec![r(0, 1), r(0, 1)],
        Mat { rows: 2, cols: 2, m: vec![
            vec![r(1, 1), r(2, 1)],
            vec![r(3, 1), r(1, 1)],
        ] },
    );
    assert_eq!(asym.err(), Some(GbpError::DimensionMismatch));
    // a zero precision has no mean
    let flat = g1(r(1, 1), r(0, 1));
    assert_eq!(flat.mean().err(), Some(GbpError::Singular));
    // a missing connection is reported as such
    let mut g = two_variable_graph(r(0, 1), r(0, 1), 0);
    assert_eq!(g.variables[0].remove_connection_to(9).err(), Some(GbpError::NoSuchConnection));
    // exact arithmetic over the machine word overflows
    let mut big = Rat { n: 1 << 100, d: 1 };
    let mut overflowed = false;
    for _ in 0..3 {
        match big.mul(&big) {
            Some(v) => big = v,
            None => {
                overflowed = true;
                break;
            }
        }
    }
    assert!(overflowed);
    // division by zero is refused
    assert_eq!(r(1, 2).div(&Rat::zero()), None);
    assert_eq!(Rat::new(1, 0), None);
}

#[test]
fn rational_arithmetic_is_exact_and_reduced() {
    let a = r(1, 3);
    let b = r(1, 6);
    let s = a.add(&b).unwrap();
    assert_rat_eq(&s, &r(1, 2));
    let d = a.sub(&b).unwrap();
    assert_rat_eq(&d, &r(1, 6));
    let p = a.mul(&b).unwrap();
    assert_rat_eq(&p, &r(1, 18));
    let q = a.div(&b).unwrap();
    assert_rat_eq(&q, &r(2, 1));
    assert_eq!(r(-4, 8), r(-1, 2));
    assert_eq!(r(1, 3).lt(&r(1, 2)), Some(true));
    assert_eq!(r(1, 2).le(&r(1, 2)), Some(true));
    let n = r(1, 2).neg().unwrap();
    assert_rat_eq(&n, &r(-1, 2));
    let ab = r(-3, 4).abs().unwrap();
    assert_rat_eq(&ab, &r(3, 4));
}

#[test]
fn export_lists_every_node_and_edge() {
    let g = two_variable_graph(r(0, 1), r(0, 1), 0);
    let (nodes, edges) = g.export_graph();
    assert_eq!(nodes.len(), 3);
    assert_eq!(edges.len(), 2);
    assert_eq!(nodes[0].color(), "#eff1f5");
    assert_eq!(nodes[0].shape(), "circle");
    assert_eq!(nodes[2].shape(), "square");
    assert_eq!(edges[0].from, 2);
    assert_eq!(edges[0].to, 0);
    assert_eq!(edges[1].to, 1);
}

#[test]
fn removing_a_connected_variable_is_refused() {
    let mut g = two_variable_graph(r(0, 1), r(0, 1), 0);
    assert_eq!(g.remove_variable(0), Err(GbpError::InvalidSettings));
    g.remove_factor(0).unwrap();
    assert!(g.remove_variable(0).is_ok());
    assert_eq!(g.variables.len(), 1);
}

#[test]
fn damping_schedule_is_zero_inside_the_undamped_window() {
    let settings = GbpSettings::new(
        r(2, 5),
        r(1, 10),
        5,
        10,
        UnitInterval::new(r(0, 1)).unwrap(),
        Vec::new(),
    )
    .unwrap();
    assert_eq!(settings.damping(0), Rat::zero());
    assert_eq!(settings.damping(5), Rat::zero());
    assert_eq!(settings.damping(6), r(2, 5));
}

#[test]
fn robust_loss_scales_the_precision_past_the_threshold() {
    // with threshold 1 and a residual of norm 2, the effective precision is
    // scaled by 1/4: robustified energy r' W r becomes 1
    let mut g = default_graph(r(0, 1), r(0, 1), 0);
    g.add_variable(g1(r(0, 1), r(1, 1))).unwrap();
    g.add_variable(g1(r(0, 1), r(1, 1))).unwrap();
    let model = MeasurementModel::Linear {
        jacobian: mat_row2(r(-1, 1), r(1, 1)),
        measurement: vec![r(2, 1)],
    };
    let loss = Loss::robust(mat1(r(1, 1)), r(1, 1)).unwrap();
    g.add_factor(model, loss, vec![0, 1]).unwrap();
    // robustify once by hand at the current (prior) means: residual is 2
    let x = g.adjacency_means(0).unwrap();
    let rv = g.factors[0].residual(&x).unwrap();
    g.factors[0].loss.robustify(&rv).unwrap();
    assert_rat_eq(&g.factors[0].loss.scale, &r(1, 4));
    let e = g.factors[0].energy(&x).unwrap();
    assert_rat_eq(&e, &r(1, 1));
}

#[test]
fn linear_chain_converges_within_diameter_plus_one_iterations() {
    // diameter of the four-variable chain is three; after four synchronous
    // iterations the beliefs carry the exact marginals, and the energy never
    // increases from one undamped iteration to the next
    let mut g = default_graph(r(0, 1), r(0, 1), 0);
    for _ in 0..4 {
        g.add_variable(g1(r(0, 1), r(1, 4))).unwrap();
    }
    for k in 0..3 {
        let model = MeasurementModel::Linear {
            jacobian: mat_row2(r(-1, 1), r(1, 1)),
            measurement: vec![r(1, 1)],
        };
        let loss = Loss::gaussian(mat1(r(4, 1))).unwrap();
        g.add_factor(model, loss, vec![k, k + 1]).unwrap();
    }
    let mut energies: Vec<Rat> = Vec::new();
    for _ in 0..4 {
        g.synchronous_iteration();
        energies.push(g.energy(true).unwrap());
    }
    for w in energies.windows(2) {
        assert_eq!(w[1].le(&w[0]), Some(true));
    }
    let map = g.MAP().unwrap();
    for k in 0..4 {
        let m = belief_mean(&g, k);
        assert_rat_eq(&m[0], &map[k]);
    }
}

#[test]
fn node_wrapper_distinguishes_the_two_kinds() {
    let v = Variable::new(0, g1(r(0, 1), r(1, 1))).unwrap();
    let mut n = Node::new(0, GraphNodeKind::Variable(v));
    assert!(n.is_variable());
    assert!(!n.is_factor());
    assert!(n.as_variable().is_some());
    assert!(n.as_factor().is_none());
    assert!(n.as_variable_mut().is_some());
    assert!(n.as_factor_mut().is_none());
}

#[test]
fn belief_covariances_invert_the_beliefs() {
    let g = two_variable_graph(r(0, 1), r(0, 1), 0);
    let cs = g.belief_covariances().unwrap();
    assert_eq!(cs.len(), 2);
    // beliefs start at the unit prior, so the covariance is the unit too
    assert_rat_eq(&cs[0].get(0, 0), &r(1, 1));
}

#[test]
fn mean_form_construction_matches_the_information_form() {
    // prior mean 3 with precision 2: the information vector is 6
    let lam = mat1(r(2, 1));
    let g = Gaussian::from_mean(vec![r(3, 1)], lam).unwrap();
    assert_rat_eq(&g.eta[0], &r(6, 1));
    let m = g.mean().unwrap();
    assert_rat_eq(&m[0], &r(3, 1));
    // the squared norm of the mean is exact
    let ns = g.norm_sq().unwrap();
    assert_rat_eq(&ns, &r(9, 1));
    // a mismatched dimension is refused
    let bad = Gaussian::from_mean(vec![r(3, 1), r(0, 1)], mat1(r(2, 1)));
    assert_eq!(bad.err(), Some(GbpError::DimensionMismatch));
}

#[test]
fn defaults_and_messages_are_stable() {
    let gs = GbpSettings::default();
    assert_eq!(gs.number_of_undamped_iterations, 5);
    assert_eq!(gs.minimum_linear_iteration, 10);
    assert_rat_eq(&gs.beta, &r(1, 10));
    assert_rat_eq(&gs.dropout.into_inner(), &Rat::zero());
    let ss = SolveSettings::default();
    assert_eq!(ss.iterations, 20);
    assert!(ss.include_priors);
    assert!(ss.log);
    assert_rat_eq(&ss.convergence_threshold, &r(1, 1_000_000));
    assert_eq!(GbpError::Singular.message(), "matrix is singular");
    assert_eq!(GbpError::Overflow.message(), "exact arithmetic overflow");
}


#[test]
fn sweep_outcomes_name_what_happened() {
    // without dropout every factor computes; under full dropout every factor
    // reports a skip and nothing changes
    let mut g = two_variable_graph(r(0, 1), r(0, 1), 0);
    let outcomes = g.compute_messages(false);
    assert_eq!(outcomes, vec![SweepOutcome::Computed]);
    let mut g2 = two_variable_graph(r(1, 1), r(0, 1), 0);
    let outcomes2 = g2.compute_messages(true);
    assert_eq!(outcomes2, vec![SweepOutcome::Skipped]);
    // the per-message half reports a stored message for each neighbour
    let f = &mut g.factors[0];
    let incoming = vec![
        Gaussian::from(vec![r(0, 1)], Mat { rows: 1, cols: 1, m: vec![vec![r(1, 1)]] }).unwrap(),
        Gaussian::from(vec![r(0, 1)], Mat { rows: 1, cols: 1, m: vec![vec![r(1, 1)]] }).unwrap(),
    ];
    let per_message = f.compute_messages(&r(0, 1), &incoming);
    assert_eq!(per_message, vec![MessageOutcome::Stored, MessageOutcome::Stored]);
}

#[test]
fn jit_outcomes_track_the_drift_test() {
    // a linear factor is reported as such and left alone
    let mut g = two_variable_graph(r(0, 1), r(0, 1), 0);
    let outcomes = g.jit_linearisation();
    assert_eq!(outcomes, vec![JitOutcome::Linear]);
    // a freshly linearised non-linear factor is within threshold...
    let mut gn = default_graph(r(0, 1), r(0, 1), 0);
    gn.add_variable(g1(r(3, 1), r(1, 1))).unwrap();
    gn.add_variable(g1(r(-1, 2), r(1, 1))).unwrap();
    let model = MeasurementModel::SquaredDifference { measurement: r(4, 1) };
    let loss = Loss::gaussian(mat1(r(1, 1))).unwrap();
    gn.add_factor(model, loss, vec![0, 1]).unwrap();
    let o1 = gn.jit_linearisation();
    assert_eq!(o1, vec![JitOutcome::WithinThreshold]);
    // ...and is relinearised after a belief moves far past beta
    *gn.variables[0].belief_mut() = g1(r(100, 1), r(1, 1));
    let o2 = gn.jit_linearisation();
    assert_eq!(o2, vec![JitOutcome::Relinearised]);
    let x0 = &gn.factors[0].x0;
    assert_rat_eq(&x0[0], &r(100, 1));
}

#[test]
fn phase_sweeps_report_their_work() {
    let mut g = two_variable_graph(r(0, 1), r(0, 1), 0);
    let rescaled = g.robustify_factors();
    assert_eq!(rescaled, vec![true]);
    let relinearised = g.linearise_factors();
    assert_eq!(relinearised, vec![true]);
    let updated = g.update_beliefs();
    assert_eq!(updated, vec![true, true]);
}

#[test]
fn add_factor_validation_is_exact() {
    let mut g = two_variable_graph(r(0, 1), r(0, 1), 0);
    let loss = || Loss::gaussian(mat1(r(1, 1))).unwrap();
    let model = || MeasurementModel::Linear {
        jacobian: mat_row2(r(-1, 1), r(1, 1)),
        measurement: vec![r(2, 1)],
    };
    // unknown neighbour id
    assert!(g.add_factor(model(), loss(), vec![0, 9]).is_err());
    // repeated neighbour id
    assert!(g.add_factor(model(), loss(), vec![0, 0]).is_err());
    // empty adjacency
    assert!(g.add_factor(model(), loss(), vec![]).is_err());
    // dimension mismatch: a two-column model over one scalar neighbour
    assert!(g.add_factor(model(), loss(), vec![0]).is_err());
    // and the valid case still goes through
    assert!(g.add_factor(model(), loss(), vec![0, 1]).is_ok());
}
