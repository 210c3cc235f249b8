//! TB01PX computes a minimal, controllable or observable realization and
//! records what each step removed. This module holds its option codes, the
//! checks it makes on its arguments and the record it returns; the reduction
//! works in floating point.

use vstd::prelude::*;

verus! {

#[derive(Clone, Copy, PartialEq, Eq, Structural)]
pub enum Tb01PxJob {
    Minimal,
    Controllable,
    Observable,
}

#[derive(Clone, Copy, PartialEq, Eq, Structural)]
pub enum Equil {
    Scale,
    No,
}


impl Tb01PxJob {
    /// Whether the controllable part is extracted, and whether the
    /// observable part is.
    pub fn phases(self) -> (r: (bool, bool))
        ensures
            r.0 == (self == Tb01PxJob::Minimal || self == Tb01PxJob::Controllable),
            r.1 == (self == Tb01PxJob::Minimal || self == Tb01PxJob::Observable),
    {
        match self {
            Tb01PxJob::Minimal => (true, true),
            Tb01PxJob::Controllable => (true, false),
            Tb01PxJob::Observable => (false, true),
        }
    }
}

/// The checks TB01PX makes before the reduction, in its order: -5 when A is
/// not square or B, C do not fit it, -12 when INFRED has fewer than 4
/// entries; with N = 0 it returns 0. `None` lets the reduction go on.
pub fn tb01px_screen(a_rows: usize, a_cols: usize, b_rows: usize, c_cols: usize, infred_len: usize) -> (r:
    Option<i32>)
    ensures
        r == if a_cols != a_rows || b_rows != a_rows || c_cols != a_rows {
            Some(-5i32)
        } else if infred_len < 4 {
            Some(-12i32)
        } else if a_rows == 0 {
            Some(0i32)
        } else {
            None
        },
{
    let n = a_rows;
    if a_cols != n || b_rows != n || c_cols != n {
        return Some(-5);
    }
    if infred_len < 4 {
        return Some(-12);
    }
    if n == 0 {
        return Some(0);
    }
    None
}

/// The order NR and the record INFRED of TB01PX from what its steps found:
/// `ctrl` is (NCONT, INDCON) of the controllability step when it ran, `obs`
/// (NOBS, INDCON) of the observability step when it ran. INFRED holds the
/// order removed by each step (-1 for a step not run), 0, and the INDCON of
/// the last step run (0 when none ran), each taken as an `i32` (wrapping,
/// as a cast does).
pub fn tb01px_summary(n: usize, ctrl: Option<(usize, usize)>, obs: Option<(usize, usize)>) -> (r: (usize, Vec<i32>))
    requires
        ctrl is Some ==> ctrl.unwrap().0 <= n,
        obs is Some ==> obs.unwrap().0 <= (if ctrl is Some {
            ctrl.unwrap().0
        } else {
            n
        }),
    ensures
        ({
            let nr1: int = if ctrl is Some {
                ctrl.unwrap().0 as int
            } else {
                n as int
            };
            &&& r.1@.len() == 4
            &&& r.1@[0] == if ctrl is Some {
                (n - ctrl.unwrap().0) as i32
            } else {
                -1i32
            }
            &&& r.1@[1] == if obs is Some {
                (nr1 - obs.unwrap().0) as i32
            } else {
                -1i32
            }
            &&& r.1@[2] == 0
            &&& r.1@[3] == if obs is Some {
                obs.unwrap().1 as i32
            } else if ctrl is Some {
                ctrl.unwrap().1 as i32
            } else {
                0i32
            }
            &&& r.0 == if obs is Some {
                obs.unwrap().0 as int
            } else {
                nr1
            }
        }),
{
    let mut infred: Vec<i32> = vec![-1, -1, 0, 0];
    let mut nr = n;
    if let Some((ncont, indcon)) = ctrl {
        infred.set(0, (n - ncont) as i32);
        nr = ncont;
        infred.set(3, indcon as i32);
    }
    if let Some((nobs, indcon)) = obs {
        infred.set(1, (nr - nobs) as i32);
        nr = nobs;
        infred.set(3, indcon as i32);
    }
    (nr, infred)
}

} // verus!
