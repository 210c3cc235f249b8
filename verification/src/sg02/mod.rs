//! Descriptor Riccati equations and their auxiliaries (chapter SG02).

pub mod sg02ad;
pub mod sg02cv;
pub mod sg02cw;
pub mod sg02cx;
pub mod sg02nd;
