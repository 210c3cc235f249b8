//! Controller reduction routines (chapter SB16).

pub mod sb16ad;
pub mod sb16ay;
pub mod sb16cd;
pub mod sb16cy;
pub mod workspace;
