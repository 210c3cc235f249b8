//! State-space transformation routines (chapter TB01).

pub mod tb01id;
pub mod tb01iz;
pub mod tb01kd;
pub mod tb01kx;
pub mod tb01ld;
pub mod tb01md;
pub mod tb01nd;
pub mod tb01pd;
pub mod tb01px;
pub mod tb01td;
pub mod tb01ty;
pub mod tb01ud;
pub mod tb01ux;
pub mod tb01uy;
pub mod tb01vd;
pub mod tb01vy;
pub mod tb01wd;
pub mod tb01wx;
pub mod tb01xd;
pub mod tb01xz;
pub mod tb01yd;
pub mod tb01zd;
