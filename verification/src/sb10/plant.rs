//! The partitioned plant of the SB10 routines.
//!
//! The inputs split into M1 = M - NCON exogenous inputs and M2 = NCON
//! control inputs, the outputs into NP1 = NP - NMEAS controlled outputs and
//! NP2 = NMEAS measurements:
//!
//! ```text
//!     B = [B1 B2],   C = [C1; C2],   D = [D11 D12; D21 D22].
//! ```

use vstd::prelude::*;
use crate::matrix::{Mat, is_block_of};

verus! {

/// The blocks of B, C and D.
pub struct PlantBlocks<T> {
    pub b1: Mat<T>,
    pub b2: Mat<T>,
    pub c1: Mat<T>,
    pub c2: Mat<T>,
    pub d11: Mat<T>,
    pub d12: Mat<T>,
    pub d21: Mat<T>,
    pub d22: Mat<T>,
}

/// `blk` is the block of `m` at (r0, c0) with `rows` x `cols` entries.
pub open spec fn sized_block_of<T>(blk: Mat<T>, m: Mat<T>, r0: int, c0: int, rows: int, cols: int) -> bool {
    &&& blk.nr() == rows
    &&& blk.nc() == cols
    &&& is_block_of(blk, m, r0, c0)
}

/// `p` holds the blocks of (B, C, D) for NCON control inputs and NMEAS
/// measurements.
pub open spec fn splits_plant<T>(p: PlantBlocks<T>, b: Mat<T>, c: Mat<T>, d: Mat<T>, ncon: int, nmeas: int) -> bool {
    let n = b.nr() as int;
    let m1 = b.nc() - ncon;
    let np1 = c.nr() - nmeas;
    &&& sized_block_of(p.b1, b, 0, 0, n, m1)
    &&& sized_block_of(p.b2, b, 0, m1, n, ncon)
    &&& sized_block_of(p.c1, c, 0, 0, np1, c.nc() as int)
    &&& sized_block_of(p.c2, c, np1, 0, nmeas, c.nc() as int)
    &&& sized_block_of(p.d11, d, 0, 0, np1, m1)
    &&& sized_block_of(p.d12, d, 0, m1, np1, ncon)
    &&& sized_block_of(p.d21, d, np1, 0, nmeas, m1)
    &&& sized_block_of(p.d22, d, np1, m1, nmeas, ncon)
}

/// Splits (B, C, D) into the blocks of the partitioned plant.
pub fn split_plant<T: Copy>(b: &Mat<T>, c: &Mat<T>, d: &Mat<T>, ncon: usize, nmeas: usize) -> (p: PlantBlocks<T>)
    requires
        ncon <= b.nc(),
        nmeas <= c.nr(),
        d.nr() == c.nr(),
        d.nc() == b.nc(),
    ensures
        splits_plant(p, *b, *c, *d, ncon as int, nmeas as int),
{
    let n = b.nrows();
    let m = b.ncols();
    let np = c.nrows();
    let nc = c.ncols();
    let m1 = m - ncon;
    let np1 = np - nmeas;
    PlantBlocks {
        b1: b.block(0, 0, n, m1),
        b2: b.block(0, m1, n, ncon),
        c1: c.block(0, 0, np1, nc),
        c2: c.block(np1, 0, nmeas, nc),
        d11: d.block(0, 0, np1, m1),
        d12: d.block(0, m1, np1, ncon),
        d21: d.block(np1, 0, nmeas, m1),
        d22: d.block(np1, m1, nmeas, ncon),
    }
}

/// The four blocks of D cover it: every entry of D is the entry of exactly
/// the block that its position falls in.
pub proof fn lemma_split_covers_d<T>(p: PlantBlocks<T>, b: Mat<T>, c: Mat<T>, d: Mat<T>, ncon: int, nmeas: int)
    requires
        0 <= ncon <= b.nc(),
        0 <= nmeas <= c.nr(),
        d.nr() == c.nr(),
        d.nc() == b.nc(),
        splits_plant(p, b, c, d, ncon, nmeas),
    ensures
        forall|i: int, j: int|
            0 <= i < d.nr() && 0 <= j < d.nc() ==> #[trigger] d.at(i, j) == {
                let m1 = b.nc() - ncon;
                let np1 = c.nr() - nmeas;
                if i < np1 && j < m1 {
                    p.d11.at(i, j)
                } else if i < np1 {
                    p.d12.at(i, j - m1)
                } else if j < m1 {
                    p.d21.at(i - np1, j)
                } else {
                    p.d22.at(i - np1, j - m1)
                }
            },
{
    let m1 = b.nc() - ncon;
    let np1 = c.nr() - nmeas;
    assert forall|i: int, j: int| 0 <= i < d.nr() && 0 <= j < d.nc() implies #[trigger] d.at(i, j) == (if i < np1
        && j < m1 {
        p.d11.at(i, j)
    } else if i < np1 {
        p.d12.at(i, j - m1)
    } else if j < m1 {
        p.d21.at(i - np1, j)
    } else {
        p.d22.at(i - np1, j - m1)
    }) by {
        if i < np1 && j < m1 {
            assert(p.d11.at(i, j) == d.at(0 + i, 0 + j));
        } else if i < np1 {
            assert(p.d12.at(i, j - m1) == d.at(0 + i, m1 + (j - m1)));
        } else if j < m1 {
            assert(p.d21.at(i - np1, j) == d.at(np1 + (i - np1), 0 + j));
        } else {
            assert(p.d22.at(i - np1, j - m1) == d.at(np1 + (i - np1), m1 + (j - m1)));
        }
    }
}

} // verus!
