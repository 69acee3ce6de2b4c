//! A tagged view of the two node kinds of the bipartite graph.
//!
//! The graph itself stores variables and factors in separate arenas; this
//! wrapper is for callers that want to treat a node of either kind uniformly
//! and then ask which one they have.

use crate::factor::Factor;
use crate::variable::Variable;
use vstd::prelude::*;

verus! {

/// Either kind of node.
pub enum NodeKind {
    Factor(Factor),
    Variable(Variable),
}

/// A node of one factor graph, tagged with the id of the graph it belongs
/// to.
pub struct Node {
    pub factorgraph_id: usize,
    pub kind: NodeKind,
}

impl Node {
    /// Construct a new node.
    pub fn new(factorgraph_id: usize, kind: NodeKind) -> (r: Node)
        ensures
            r.factorgraph_id == factorgraph_id,
            r.kind == kind,
    {
        Node { factorgraph_id, kind }
    }

    /// Whether the node is a factor.
    pub fn is_factor(&self) -> (r: bool)
        ensures
            r == (self.kind is Factor),
    {
        match &self.kind {
            NodeKind::Factor(_) => true,
            NodeKind::Variable(_) => false,
        }
    }

    /// The factor inside, when the node is one.
    pub fn as_factor(&self) -> (r: Option<&Factor>)
        ensures
            self.kind is Factor <==> r is Some,
            r matches Some(f) ==> self.kind == NodeKind::Factor(*f),
    {
        match &self.kind {
            NodeKind::Factor(f) => Some(f),
            NodeKind::Variable(_) => None,
        }
    }

    /// Mutable access to the factor inside, when the node is one.
    pub fn as_factor_mut(&mut self) -> (r: Option<&mut Factor>)
        ensures
            old(self).kind is Factor <==> r is Some,
            r matches Some(f) ==> old(self).kind == NodeKind::Factor(*f) && final(self).kind
                == NodeKind::Factor(*final(f)),
            r is None ==> *final(self) == *old(self),
            final(self).factorgraph_id == old(self).factorgraph_id,
    {
        match &mut self.kind {
            NodeKind::Factor(f) => Some(f),
            NodeKind::Variable(_) => None,
        }
    }

    /// Whether the node is a variable.
    pub fn is_variable(&self) -> (r: bool)
        ensures
            r == (self.kind is Variable),
    {
        match &self.kind {
            NodeKind::Factor(_) => false,
            NodeKind::Variable(_) => true,
        }
    }

    /// The variable inside, when the node is one.
    pub fn as_variable(&self) -> (r: Option<&Variable>)
        ensures
            self.kind is Variable <==> r is Some,
            r matches Some(v) ==> self.kind == NodeKind::Variable(*v),
    {
        match &self.kind {
            NodeKind::Factor(_) => None,
            NodeKind::Variable(v) => Some(v),
        }
    }

    /// Mutable access to the variable inside, when the node is one.
    pub fn as_variable_mut(&mut self) -> (r: Option<&mut Variable>)
        ensures
            old(self).kind is Variable <==> r is Some,
            r matches Some(v) ==> old(self).kind == NodeKind::Variable(*v) && final(self).kind
                == NodeKind::Variable(*final(v)),
            r is None ==> *final(self) == *old(self),
            final(self).factorgraph_id == old(self).factorgraph_id,
    {
        match &mut self.kind {
            NodeKind::Factor(_) => None,
            NodeKind::Variable(v) => Some(v),
        }
    }
}

} // verus!
