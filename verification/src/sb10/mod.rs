//! H-infinity and H2 controller design (chapter SB10): the partition
//! of the plant into its input and output channels, and the argument checks
//! of the routines.

pub mod plant;
pub mod sb10ld;
pub mod sb10ud;
pub mod sb10vd;
pub mod sb10wd;
