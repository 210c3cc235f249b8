//! Verified core of a SLICOT-style control-systems toolbox: option codes,
//! argument checking, data movement on dense matrices and the SLICOT text
//! formats.

pub mod matrix;
pub mod readback;
pub mod sb10;
pub mod sb16;
pub mod select;
pub mod sg02;
pub mod sg03;
pub mod slicot_io;
pub mod tb01;
pub mod text;
