//! Gaussian belief propagation over bipartite factor graphs.
//!
//! Beliefs and messages are multivariate Gaussians kept in information form
//! (information vector eta and precision matrix lambda).  All numeric state is
//! held in exact rational arithmetic, so the algebraic contracts of the solver
//! are stated and proved exactly rather than up to a floating-point tolerance.

use vstd::prelude::*;

pub mod rat;
pub mod linalg;
pub mod gaussian;
pub mod variable;
pub mod offsets;
pub mod factor;
pub mod graph;
pub mod environment;
pub mod ui;
pub mod export;
pub mod laws;
pub mod node;

verus! {

/// The ways an operation on a factor graph can fail.
///
/// Exact rational arithmetic replaces floating point here, so numerical
/// degeneracy surfaces either as a genuinely singular matrix or as an
/// intermediate value that no longer fits the machine word (`Overflow`).
#[derive(Clone, Copy, Debug, PartialEq, Eq, Structural)]
pub enum GbpError {
    /// A matrix inverse or linear solve was required but the matrix is not
    /// invertible.
    Singular,
    /// Operands of an operation have incompatible dimensions.
    DimensionMismatch,
    /// A Schur complement inside message computation was degenerate; the
    /// affected message is left unchanged.
    IllConditioned,
    /// A connection that was asked to be removed does not exist.
    NoSuchConnection,
    /// A configuration value lies outside its allowed range.
    InvalidSettings,
    /// An exact intermediate value exceeded the machine word.
    Overflow,
}

impl GbpError {
    /// A short human-readable description of the error.
    pub fn message(&self) -> (r: &'static str)
        ensures
            self is Singular ==> r@ == "matrix is singular"@,
            self is DimensionMismatch ==> r@ == "dimension mismatch"@,
            self is IllConditioned ==> r@ == "ill-conditioned marginalisation"@,
            self is NoSuchConnection ==> r@ == "no such connection"@,
            self is InvalidSettings ==> r@ == "invalid settings"@,
            self is Overflow ==> r@ == "exact arithmetic overflow"@,
    {
        match self {
            GbpError::Singular => "matrix is singular",
            GbpError::DimensionMismatch => "dimension mismatch",
            GbpError::IllConditioned => "ill-conditioned marginalisation",
            GbpError::NoSuchConnection => "no such connection",
            GbpError::InvalidSettings => "invalid settings",
            GbpError::Overflow => "exact arithmetic overflow",
        }
    }
}

} // verus!
