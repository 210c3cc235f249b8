//! Generalized Lyapunov equations (chapter SG03).

pub mod blocks;
pub mod sg03bu;
pub mod sg03bw;
pub mod sg03bx;
