//! Graph export for rendering.
//!
//! The renderer consumes a flat list of nodes with a kind tag and a list of
//! edges; this is the only interface it needs.  Variable nodes carry a planar
//! position taken from the first two coordinates of the belief mean.

use crate::factor::Factor;
use crate::graph::FactorGraph;
use crate::rat::{rzero, Rat};
use vstd::prelude::*;

verus! {

/// What a rendered node stands for.
pub enum NodeKind {
    /// A variable at a planar position.
    Variable { x: Rat, y: Rat },
    /// A factor whose model couples a robot's own consecutive states.
    DynamicFactor,
    /// A factor keeping a state away from an obstacle.
    ObstacleFactor,
    /// A factor pinning a state to a pose.
    PoseFactor,
    /// A factor coupling this graph to a variable of another robot's graph.
    InterRobotFactor { other_variable: usize },
}

impl NodeKind {
    /// The fill colour a renderer uses for this kind.
    pub fn color(&self) -> (r: &'static str)
        ensures
            self is Variable ==> r@ == "#eff1f5"@,
            self is InterRobotFactor ==> r@ == "#a6da95"@,
            self is DynamicFactor ==> r@ == "#8aadf4"@,
            self is ObstacleFactor ==> r@ == "#ee99a0"@,
            self is PoseFactor ==> r@ == "#c6a0f6"@,
    {
        match self {
            NodeKind::Variable { .. } => "#eff1f5",
            NodeKind::InterRobotFactor { .. } => "#a6da95",
            NodeKind::DynamicFactor => "#8aadf4",
            NodeKind::ObstacleFactor => "#ee99a0",
            NodeKind::PoseFactor => "#c6a0f6",
        }
    }

    /// The shape a renderer uses: circles for variables, squares for factors.
    pub fn shape(&self) -> (r: &'static str)
        ensures
            self is Variable ==> r@ == "circle"@,
            !(self is Variable) ==> r@ == "square"@,
    {
        match self {
            NodeKind::Variable { .. } => "circle",
            _ => "square",
        }
    }

    /// The drawing width: variables are drawn larger than factors.
    pub fn width(&self) -> (r: Rat)
        ensures
            r.wf(),
            self is Variable ==> r == (Rat { n: 4, d: 5 }),
            !(self is Variable) ==> r == (Rat { n: 1, d: 5 }),
    {
        match self {
            NodeKind::Variable { .. } => Rat { n: 4, d: 5 },
            _ => Rat { n: 1, d: 5 },
        }
    }
}

/// One rendered node.
pub struct Node {
    pub index: usize,
    pub kind: NodeKind,
}

impl Node {
    /// Construct a new node.
    pub fn new(index: usize, kind: NodeKind) -> (r: Node)
        ensures
            r.index == index,
            r.kind == kind,
    {
        Node { index, kind }
    }

    /// The fill colour of this node.
    pub fn color(&self) -> (r: &'static str)
        ensures
            self.kind is Variable ==> r@ == "#eff1f5"@,
    {
        self.kind.color()
    }

    /// The shape of this node.
    pub fn shape(&self) -> (r: &'static str)
        ensures
            self.kind is Variable ==> r@ == "circle"@,
            !(self.kind is Variable) ==> r@ == "square"@,
    {
        self.kind.shape()
    }

    /// The drawing width of this node.
    pub fn width(&self) -> (r: Rat)
        ensures
            r.wf(),
    {
        self.kind.width()
    }
}

/// The number of edges contributed by the first `k` factors: the sum of
/// their adjacency list lengths.
pub open spec fn edge_count(fs: Seq<Factor>, k: int) -> int
    decreases k,
{
    if k <= 0 {
        0
    } else {
        edge_count(fs, k - 1) + fs[k - 1].adjacent@.len()
    }
}

pub proof fn lemma_edge_count_nonneg(fs: Seq<Factor>, k: int)
    requires
        0 <= k,
    ensures
        0 <= edge_count(fs, k),
    decreases k,
{
    if k > 0 {
        lemma_edge_count_nonneg(fs, k - 1);
    }
}

pub proof fn lemma_edge_count_mono(fs: Seq<Factor>, a: int, b: int)
    requires
        0 <= a <= b,
    ensures
        edge_count(fs, a) <= edge_count(fs, b),
        0 <= edge_count(fs, a),
    decreases b - a,
{
    lemma_edge_count_nonneg(fs, a);
    if a < b {
        lemma_edge_count_mono(fs, a, b - 1);
    }
}

/// Edge `t` of factor `j` sits at its positional index in the edge list and
/// connects the factor's node to the neighbour variable's node.
pub open spec fn edge_slot_ok(edges: Seq<Edge>, fs: Seq<Factor>, nv: int, j: int, t: int) -> bool {
    &&& 0 <= edge_count(fs, j) + t < edges.len()
    &&& edges[edge_count(fs, j) + t].from == nv + j
    &&& edges[edge_count(fs, j) + t].to == fs[j].adjacent@[t]
}

/// One rendered edge, from a factor node to a variable node.
pub struct Edge {
    pub from: usize,
    pub to: usize,
}

impl FactorGraph {
    /// Export the graph for rendering: variable nodes first (indices equal
    /// variable ids, positions from the first belief mean coordinates when
    /// they can be computed), then factor nodes (indices offset by the
    /// variable count), and one edge per factor-variable adjacency.
    pub fn export_graph(&self) -> (r: (Vec<Node>, Vec<Edge>))
        requires
            self.wf(),
            self.variables@.len() + self.factors@.len() <= usize::MAX,
        ensures
            r.0@.len() == self.variables@.len() + self.factors@.len(),
            forall|k: int|
                0 <= k < r.0@.len() ==> (#[trigger] r.0@[k]).index == k,
            forall|k: int|
                0 <= k < self.variables@.len() ==> (#[trigger] r.0@[k]).kind is Variable,
            forall|k: int|
                self.variables@.len() <= k < r.0@.len() ==> !((#[trigger] r.0@[k]).kind
                    is Variable),
            forall|e: int|
                0 <= e < r.1@.len() ==> (#[trigger] r.1@[e]).from >= self.variables@.len()
                    && r.1@[e].from < r.0@.len() && r.1@[e].to < self.variables@.len(),
            r.1@.len() == edge_count(self.factors@, self.factors@.len() as int),
            forall|j: int, t: int|
                0 <= j < self.factors@.len() && 0 <= t < self.factors@[j].adjacent@.len()
                    ==> #[trigger] edge_slot_ok(
                    r.1@,
                    self.factors@,
                    self.variables@.len() as int,
                    j,
                    t,
                ),
    {
        let nv: usize = self.variables.len();
        let nf: usize = self.factors.len();
        let mut nodes: Vec<Node> = Vec::new();
        let mut i: usize = 0;
        while i < nv
            invariant
                i <= nv,
                nv == self.variables@.len(),
                self.wf(),
                nodes@.len() == i,
                forall|k: int| 0 <= k < i ==> (#[trigger] nodes@[k]).index == k,
                forall|k: int| 0 <= k < i ==> (#[trigger] nodes@[k]).kind is Variable,
            decreases nv - i,
        {
            let mut x: Rat = Rat::zero();
            let mut y: Rat = Rat::zero();
            match self.variables[i].belief.mean() {
                Ok(m) => {
                    if m.len() >= 1 {
                        x = m[0];
                    }
                    if m.len() >= 2 {
                        y = m[1];
                    }
                },
                Err(_) => {},
            }
            nodes.push(Node { index: i, kind: NodeKind::Variable { x, y } });
            i += 1;
        }
        let mut j: usize = 0;
        while j < nf
            invariant
                j <= nf,
                nv == self.variables@.len(),
                nf == self.factors@.len(),
                nv + nf <= usize::MAX,
                self.wf(),
                nodes@.len() == nv + j,
                forall|k: int| 0 <= k < nv + j ==> (#[trigger] nodes@[k]).index == k,
                forall|k: int| 0 <= k < nv ==> (#[trigger] nodes@[k]).kind is Variable,
                forall|k: int| nv <= k < nv + j ==> !((#[trigger] nodes@[k]).kind is Variable),
            decreases nf - j,
        {
            let kind: NodeKind = if self.factors[j].model.is_linear() {
                NodeKind::DynamicFactor
            } else {
                NodeKind::ObstacleFactor
            };
            nodes.push(Node { index: nv + j, kind });
            j += 1;
        }
        let mut edges: Vec<Edge> = Vec::new();
        let mut j2: usize = 0;
        while j2 < nf
            invariant
                j2 <= nf,
                nv == self.variables@.len(),
                nf == self.factors@.len(),
                nv + nf <= usize::MAX,
                self.wf(),
                nv + nf == nodes@.len(),
                edges@.len() == edge_count(self.factors@, j2 as int),
                forall|j3: int, t3: int|
                    0 <= j3 < j2 && 0 <= t3 < self.factors@[j3].adjacent@.len()
                        ==> #[trigger] edge_slot_ok(edges@, self.factors@, nv as int, j3, t3),
                forall|e: int|
                    0 <= e < edges@.len() ==> (#[trigger] edges@[e]).from >= nv && edges@[e].from
                        < nv + nf && edges@[e].to < nv,
            decreases nf - j2,
        {
            let na: usize = self.factors[j2].adjacent.len();
            let mut t: usize = 0;
            while t < na
                invariant
                    t <= na,
                    j2 < nf,
                    nv == self.variables@.len(),
                    nf == self.factors@.len(),
                    nv + nf <= usize::MAX,
                    self.wf(),
                    na == self.factors@[j2 as int].adjacent@.len(),
                    edges@.len() == edge_count(self.factors@, j2 as int) + t,
                    forall|j3: int, t3: int|
                        0 <= j3 < j2 && 0 <= t3 < self.factors@[j3].adjacent@.len()
                            ==> #[trigger] edge_slot_ok(edges@, self.factors@, nv as int, j3, t3),
                    forall|t3: int|
                        0 <= t3 < t ==> #[trigger] edge_slot_ok(
                            edges@,
                            self.factors@,
                            nv as int,
                            j2 as int,
                            t3,
                        ),
                    na == self.factors@[j2 as int].adjacent@.len(),
                    forall|e: int|
                        0 <= e < edges@.len() ==> (#[trigger] edges@[e]).from >= nv
                            && edges@[e].from < nv + nf && edges@[e].to < nv,
                decreases na - t,
            {
                proof {
                    lemma_edge_count_mono(self.factors@, 0, j2 as int);
                }
                let ghost edges0 = edges@;
                edges.push(Edge { from: nv + j2, to: self.factors[j2].adjacent[t] });
                proof {
                    assert forall|j3: int, t3: int|
                        0 <= j3 < j2 && 0 <= t3 < self.factors@[j3].adjacent@.len()
                        implies #[trigger] edge_slot_ok(
                        edges@,
                        self.factors@,
                        nv as int,
                        j3,
                        t3,
                    ) by {
                        assert(edge_slot_ok(edges0, self.factors@, nv as int, j3, t3));
                        assert(edges@[edge_count(self.factors@, j3) + t3] == edges0[edge_count(
                            self.factors@,
                            j3,
                        ) + t3]);
                    }
                    assert forall|t3: int| 0 <= t3 < t + 1 implies #[trigger] edge_slot_ok(
                        edges@,
                        self.factors@,
                        nv as int,
                        j2 as int,
                        t3,
                    ) by {
                        if t3 < t {
                            assert(edge_slot_ok(edges0, self.factors@, nv as int, j2 as int, t3));
                            assert(edges@[edge_count(self.factors@, j2 as int) + t3]
                                == edges0[edge_count(self.factors@, j2 as int) + t3]);
                        } else {
                            assert(edges@[edges0.len() as int].from == nv + j2);
                        }
                    }
                }
                t += 1;
            }
            proof {
                assert(edge_count(self.factors@, j2 + 1 as int) == edge_count(
                    self.factors@,
                    j2 as int,
                ) + na);
                assert forall|j3: int, t3: int|
                    0 <= j3 < j2 + 1 && 0 <= t3 < self.factors@[j3].adjacent@.len()
                    implies #[trigger] edge_slot_ok(edges@, self.factors@, nv as int, j3, t3) by {
                    if j3 == j2 {
                        assert(edge_slot_ok(edges@, self.factors@, nv as int, j2 as int, t3));
                    }
                }
            }
            j2 += 1;
        }
        (nodes, edges)
    }
}

} // verus!
