//! SG03BX solves a 2 x 2 generalized Lyapunov equation for the Cholesky
//! factor U of X = op(U)'*op(U). This module holds its option codes; the
//! solution works in floating point.

use vstd::prelude::*;

verus! {

/// Continuous or discrete Lyapunov equation.
#[derive(Clone, Copy, PartialEq, Eq, Structural)]
pub enum Dico {
    /// Continuous-time: A'*X*E + E'*X*A = -scale^2*B'*B
    Continuous,
    /// Discrete-time: A'*X*A - E'*X*E = -scale^2*B'*B
    Discrete,
}

/// Transpose mode for op(K).
#[derive(Clone, Copy, PartialEq, Eq, Structural)]
pub enum Trans {
    /// op(K) = K
    NoTrans,
    /// op(K) = K^T
    Trans,
}

} // verus!
