# slicot

Control-systems routines in the style of the SLICOT library (chapters TB01,
SB10, SB16, SG02, SG03) and the text formats of its AB01ND / AB01MD example
files.

## Layout

- `src/` — the library, verified with Verus: the option codes of the
  routines, the checks each routine makes on its arguments and workspace
  (with the status codes they return), the bookkeeping of staircase and Schur
  blocks, the orderings used when eigenvalues are reordered, the routines
  that only move matrix entries (`TB01XD`, `TB01XZ`, `TB01YD`, `SG02CV`, the
  THETA layout of `TB01VD` / `TB01VY`, symmetric completion of stored
  triangles) on a generic column-major `Mat<T>`, and the readers and writers
  of the example files. Laws (involutions, read-after-write, round trips of
  the file formats, tilings of Schur blocks) are stated as proof functions.
- `app/` — the numerical kernels, written over `nalgebra` and `num-complex`
  in floating point, calling the library for their checks and bookkeeping;
  file I/O.
- `tests/` — tests of the library on concrete values.

## Absent routines

This crate has no continuous-time Riccati solver (SB02MD), no Lyapunov
solver of chapter AB13, and no SG03AX, SG03BS or SG03BT. The routines that
need them have no numerical part here: SB10AD, SB10FD, SB10ID, SB10JD, SB10KD, SB10RD,
the solver part of SB10VD, SB16AD, SB16AY, SB16CD, SB16CY, SG03AD, SG03AY
and SG03BD. For SB10VD and the SB16 routines the library still holds their
argument checks, workspace formulas, status codes and order choices.

The output normal form part of TB01VD / TB01VY (the leading N*L entries of
THETA, from which A and C are built) is not computed: TB01VD stores zeros
there and TB01VY sets A to the identity and keeps C. Only B, D and x0 go
through THETA.
