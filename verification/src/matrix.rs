//! A dense matrix stored column by column, generic over its entries.
//!
//! The routines of this crate that only move entries around (transposes,
//! reversals, copies of blocks) work on `Mat<T>` for any `T: Copy`, so the
//! same code serves real and complex data.

use vstd::prelude::*;

verus! {

/// Position of entry (i, j) in column-major storage with `rows` rows.
pub open spec fn cm_index(rows: int, i: int, j: int) -> int {
    j * rows + i
}

pub proof fn lemma_cm_index_bound(rows: int, cols: int, i: int, j: int)
    requires
        0 <= i < rows,
        0 <= j < cols,
    ensures
        0 <= cm_index(rows, i, j) < rows * cols,
{
    assert(0 <= j * rows + i < rows * cols) by (nonlinear_arith)
        requires
            0 <= i < rows,
            0 <= j < cols,
    ;
}

/// A `rows` x `cols` matrix; entry (i, j) lives at `data[j * rows + i]`.
pub struct Mat<T> {
    rows: usize,
    cols: usize,
    data: Vec<T>,
}

impl<T> Mat<T> {
    #[verifier::type_invariant]
    spec fn well_formed(self) -> bool {
        self.data@.len() == self.rows as int * self.cols as int
    }

    /// Number of rows.
    pub closed spec fn nr(&self) -> nat {
        self.rows as nat
    }

    /// Number of columns.
    pub closed spec fn nc(&self) -> nat {
        self.cols as nat
    }

    /// Entry (i, j).
    pub closed spec fn at(&self, i: int, j: int) -> T {
        self.data@[cm_index(self.rows as int, i, j)]
    }

    /// The entries in column-major order.
    pub closed spec fn col_major(&self) -> Seq<T> {
        self.data@
    }

    /// Two matrices with the same shape and the same entries.
    pub open spec fn same(&self, other: &Mat<T>) -> bool {
        &&& self.nr() == other.nr()
        &&& self.nc() == other.nc()
        &&& forall|i: int, j: int|
            0 <= i < self.nr() && 0 <= j < self.nc() ==> #[trigger] self.at(i, j) == other.at(i, j)
    }

    /// Entry (i, j) is the column-major element at `j * rows + i`.
    pub proof fn lemma_at(&self)
        ensures
            forall|i: int, j: int| #[trigger] self.at(i, j) == self.col_major()[cm_index(self.nr() as int, i, j)],
    {
    }

    /// Number of rows.
    pub fn nrows(&self) -> (r: usize)
        ensures
            r == self.nr(),
            self.col_major().len() == self.nr() * self.nc(),
            self.nr() * self.nc() <= usize::MAX,
    {
        proof {
            use_type_invariant(self);
        }
        let _len = self.data.len();
        self.rows
    }

    /// Number of columns.
    pub fn ncols(&self) -> (r: usize)
        ensures
            r == self.nc(),
            self.col_major().len() == self.nr() * self.nc(),
            self.nr() * self.nc() <= usize::MAX,
    {
        proof {
            use_type_invariant(self);
        }
        let _len = self.data.len();
        self.cols
    }

    /// Builds a matrix from its entries in column-major order.
    pub fn from_column_major(rows: usize, cols: usize, data: Vec<T>) -> (m: Mat<T>)
        requires
            data@.len() == rows * cols,
        ensures
            m.nr() == rows,
            m.nc() == cols,
            m.col_major() == data@,
    {
        Mat { rows, cols, data }
    }

    /// The entries in column-major order.
    pub fn into_column_major(self) -> (data: Vec<T>)
        ensures
            data@ == self.col_major(),
            data@.len() == self.nr() * self.nc(),
    {
        proof {
            use_type_invariant(&self);
        }
        self.data
    }
}

impl<T: Copy> Mat<T> {
    /// A `rows` x `cols` matrix with every entry equal to `value`.
    pub fn from_element(rows: usize, cols: usize, value: T) -> (m: Mat<T>)
        requires
            rows * cols <= usize::MAX,
        ensures
            m.nr() == rows,
            m.nc() == cols,
            forall|i: int, j: int| 0 <= i < rows && 0 <= j < cols ==> #[trigger] m.at(i, j) == value,
    {
        let total = rows * cols;
        let mut data: Vec<T> = Vec::new();
        let mut k: usize = 0;
        while k < total
            invariant
                k <= total,
                total == rows * cols,
                data@.len() == k,
                forall|t: int| 0 <= t < k ==> #[trigger] data@[t] == value,
            decreases total - k,
        {
            data.push(value);
            k = k + 1;
        }
        let m = Mat { rows, cols, data };
        proof {
            assert forall|i: int, j: int| 0 <= i < rows && 0 <= j < cols implies #[trigger] m.at(
                i,
                j,
            ) == value by {
                lemma_cm_index_bound(rows as int, cols as int, i, j);
            }
        }
        m
    }

    /// Entry (i, j).
    pub fn get(&self, i: usize, j: usize) -> (v: T)
        requires
            i < self.nr(),
            j < self.nc(),
        ensures
            v == self.at(i as int, j as int),
    {
        proof {
            use_type_invariant(self);
            lemma_cm_index_bound(self.rows as int, self.cols as int, i as int, j as int);
        }
        let len = self.data.len();
        assert(j * self.rows + i < len);
        self.data[j * self.rows + i]
    }

    /// Overwrites entry (i, j) with `v`.
    pub fn set(&mut self, i: usize, j: usize, v: T)
        requires
            i < old(self).nr(),
            j < old(self).nc(),
        ensures
            final(self).nr() == old(self).nr(),
            final(self).nc() == old(self).nc(),
            final(self).at(i as int, j as int) == v,
            forall|r: int, c: int|
                0 <= r < old(self).nr() && 0 <= c < old(self).nc() && (r != i || c != j)
                    ==> #[trigger] final(self).at(r, c) == old(self).at(r, c),
    {
        proof {
            use_type_invariant(&*self);
            lemma_cm_index_bound(self.rows as int, self.cols as int, i as int, j as int);
        }
        let len = self.data.len();
        assert(j * self.rows + i < len);
        let k = j * self.rows + i;
        let mut taken = Mat { rows: 0, cols: 0, data: Vec::new() };
        std::mem::swap(self, &mut taken);
        let Mat { rows, cols, mut data } = taken;
        data.set(k, v);
        *self = Mat { rows, cols, data };
        proof {
            assert forall|r: int, c: int|
                0 <= r < old(self).nr() && 0 <= c < old(self).nc() && (r != i || c != j)
                implies #[trigger] self.at(r, c) == old(self).at(r, c) by {
                lemma_cm_index_bound(self.rows as int, self.cols as int, r, c);
                assert(cm_index(self.rows as int, r, c) != k as int) by (nonlinear_arith)
                    requires
                        0 <= r < self.rows,
                        0 <= i < self.rows,
                        r != i || c != j,
                        k == j * self.rows + i,
                ;
            }
        }
    }

    /// An entry-by-entry copy.
    pub fn copy(&self) -> (m: Mat<T>)
        ensures
            m.same(self),
            m.col_major() == self.col_major(),
    {
        proof {
            use_type_invariant(self);
        }
        let mut data: Vec<T> = Vec::new();
        let mut k: usize = 0;
        while k < self.data.len()
            invariant
                k <= self.data@.len(),
                data@ == self.data@.take(k as int),
            decreases self.data@.len() - k,
        {
            data.push(self.data[k]);
            k = k + 1;
            proof {
                assert(data@ =~= self.data@.take(k as int));
            }
        }
        proof {
            assert(data@ =~= self.data@);
        }
        Mat { rows: self.rows, cols: self.cols, data }
    }
}

/// How the entry written at (i, j) is found in the source matrix.
#[derive(Clone, Copy, PartialEq, Eq, Structural)]
pub enum Remap {
    /// From (i, j).
    Same,
    /// From (j, i).
    Transpose,
    /// From (n-1-j, n-1-i): the pertransposed matrix P*X'*P, P the n x n reversal.
    PerTranspose(usize),
    /// From (n-1-i, j): P*X.
    FlipRows(usize),
    /// From (n-1-i, n-1-j): P*X*P.
    FlipBoth(usize),
    /// From (i, n-1-j): X*P.
    FlipCols(usize),
    /// From (j, n-1-i): P*X' for a source with n columns.
    FlipRowsOfTranspose(usize),
    /// From (n-1-j, i): X'*P for a source with n rows.
    FlipColsOfTranspose(usize),
    /// From (i, j) on or above the diagonal, else from (j, i).
    SymFromUpper,
    /// From (i, j) on or below the diagonal, else from (j, i).
    SymFromLower,
}

/// The source row of the entry written at (i, j).
pub open spec fn src_row(map: Remap, i: int, j: int) -> int {
    match map {
        Remap::Same => i,
        Remap::Transpose => j,
        Remap::PerTranspose(n) => n - 1 - j,
        Remap::FlipRows(n) => n - 1 - i,
        Remap::FlipBoth(n) => n - 1 - i,
        Remap::FlipCols(_) => i,
        Remap::FlipRowsOfTranspose(_) => j,
        Remap::FlipColsOfTranspose(n) => n - 1 - j,
        Remap::SymFromUpper => if j >= i { i } else { j },
        Remap::SymFromLower => if i >= j { i } else { j },
    }
}

/// The source column of the entry written at (i, j).
pub open spec fn src_col(map: Remap, i: int, j: int) -> int {
    match map {
        Remap::Same => j,
        Remap::Transpose => i,
        Remap::PerTranspose(n) => n - 1 - i,
        Remap::FlipRows(_) => j,
        Remap::FlipBoth(n) => n - 1 - j,
        Remap::FlipCols(n) => n - 1 - j,
        Remap::FlipRowsOfTranspose(n) => n - 1 - i,
        Remap::FlipColsOfTranspose(_) => i,
        Remap::SymFromUpper => if j >= i { j } else { i },
        Remap::SymFromLower => if i >= j { j } else { i },
    }
}

/// Every source position of the region `rows` x `cols` lies inside `src`.
pub open spec fn region_in_source<T>(src: &Mat<T>, rows: int, cols: int, map: Remap) -> bool {
    forall|i: int, j: int|
        0 <= i < rows && 0 <= j < cols ==> {
            &&& 0 <= #[trigger] src_row(map, i, j) < src.nr()
            &&& 0 <= src_col(map, i, j) < src.nc()
        }
}

fn source_position(map: Remap, i: usize, j: usize) -> (r: (usize, usize))
    requires
        0 <= src_row(map, i as int, j as int) <= usize::MAX,
        0 <= src_col(map, i as int, j as int) <= usize::MAX,
    ensures
        r.0 == src_row(map, i as int, j as int),
        r.1 == src_col(map, i as int, j as int),
{
    match map {
        Remap::Same => (i, j),
        Remap::Transpose => (j, i),
        Remap::PerTranspose(n) => (n - 1 - j, n - 1 - i),
        Remap::FlipRows(n) => (n - 1 - i, j),
        Remap::FlipBoth(n) => (n - 1 - i, n - 1 - j),
        Remap::FlipCols(n) => (i, n - 1 - j),
        Remap::FlipRowsOfTranspose(n) => (j, n - 1 - i),
        Remap::FlipColsOfTranspose(n) => (n - 1 - j, i),
        Remap::SymFromUpper => if j >= i { (i, j) } else { (j, i) },
        Remap::SymFromLower => if i >= j { (i, j) } else { (j, i) },
    }
}

/// Writes `src` at the remapped positions into the leading `rows` x `cols`
/// block of `dst`, row by row; every other entry of `dst` is kept.
pub fn copy_remapped<T: Copy>(dst: &mut Mat<T>, src: &Mat<T>, rows: usize, cols: usize, map: Remap)
    requires
        rows <= old(dst).nr(),
        cols <= old(dst).nc(),
        region_in_source(src, rows as int, cols as int, map),
    ensures
        final(dst).nr() == old(dst).nr(),
        final(dst).nc() == old(dst).nc(),
        forall|i: int, j: int|
            0 <= i < old(dst).nr() && 0 <= j < old(dst).nc() ==> #[trigger] final(dst).at(i, j) == if i
                < rows && j < cols {
                src.at(src_row(map, i, j), src_col(map, i, j))
            } else {
                old(dst).at(i, j)
            },
{
    let ghost d0 = *dst;
    let mut i: usize = 0;
    while i < rows
        invariant
            i <= rows,
            rows <= d0.nr(),
            cols <= d0.nc(),
            dst.nr() == d0.nr(),
            dst.nc() == d0.nc(),
            region_in_source(src, rows as int, cols as int, map),
            forall|r: int, c: int|
                0 <= r < d0.nr() && 0 <= c < d0.nc() ==> #[trigger] dst.at(r, c) == if r < i && c
                    < cols {
                    src.at(src_row(map, r, c), src_col(map, r, c))
                } else {
                    d0.at(r, c)
                },
        decreases rows - i,
    {
        let mut j: usize = 0;
        while j < cols
            invariant
                i < rows,
                j <= cols,
                rows <= d0.nr(),
                cols <= d0.nc(),
                dst.nr() == d0.nr(),
                dst.nc() == d0.nc(),
                region_in_source(src, rows as int, cols as int, map),
                forall|r: int, c: int|
                    0 <= r < d0.nr() && 0 <= c < d0.nc() ==> #[trigger] dst.at(r, c) == if (r < i
                        && c < cols) || (r == i && c < j) {
                        src.at(src_row(map, r, c), src_col(map, r, c))
                    } else {
                        d0.at(r, c)
                    },
            decreases cols - j,
        {
            assert(0 <= src_row(map, i as int, j as int) < src.nr());
            let (si, sj) = source_position(map, i, j);
            let v = src.get(si, sj);
            dst.set(i, j, v);
            j = j + 1;
        }
        i = i + 1;
    }
}

/// The n x n symmetric matrix whose stored triangle (upper when `upper`,
/// lower otherwise) is that of `a`.
pub open spec fn sym_entry<T>(a: Mat<T>, upper: bool, i: int, j: int) -> T {
    if upper {
        a.at(src_row(Remap::SymFromUpper, i, j), src_col(Remap::SymFromUpper, i, j))
    } else {
        a.at(src_row(Remap::SymFromLower, i, j), src_col(Remap::SymFromLower, i, j))
    }
}

/// `f` is the n x n symmetric matrix built from one triangle of `a`.
pub open spec fn is_symmetrized<T>(f: Mat<T>, n: nat, a: Mat<T>, upper: bool) -> bool {
    &&& f.nr() == n
    &&& f.nc() == n
    &&& forall|i: int, j: int| 0 <= i < n && 0 <= j < n ==> #[trigger] f.at(i, j) == sym_entry(a, upper, i, j)
}

/// Builds the full n x n symmetric matrix from one triangle of the leading
/// n x n block of `a`: the upper one when `upper`, the lower one otherwise.
pub fn symmetric_from_triangle<T: Copy>(n: usize, a: &Mat<T>, upper: bool) -> (f: Mat<T>)
    requires
        n <= a.nr(),
        n <= a.nc(),
    ensures
        is_symmetrized(f, n as nat, *a, upper),
{
    if n == 0 {
        return Mat::from_column_major(0, 0, Vec::new());
    }
    let ar = a.nrows();
    let ac = a.ncols();
    proof {
        assert(n * n <= ar * ac) by (nonlinear_arith)
            requires
                n <= ar,
                n <= ac,
        ;
    }
    let mut f = Mat::from_element(n, n, a.get(0, 0));
    let map = if upper {
        Remap::SymFromUpper
    } else {
        Remap::SymFromLower
    };
    copy_remapped(&mut f, a, n, n, map);
    f
}

/// A matrix built from one triangle is symmetric.
pub proof fn lemma_symmetrized_is_symmetric<T>(f: Mat<T>, n: nat, a: Mat<T>, upper: bool)
    requires
        is_symmetrized(f, n, a, upper),
    ensures
        forall|i: int, j: int| 0 <= i < n && 0 <= j < n ==> #[trigger] f.at(i, j) == f.at(j, i),
{
    assert forall|i: int, j: int| 0 <= i < n && 0 <= j < n implies #[trigger] f.at(i, j) == f.at(j, i) by {
        assert(f.at(i, j) == sym_entry(a, upper, i, j));
        assert(f.at(j, i) == sym_entry(a, upper, j, i));
    }
}

/// A matrix built from one triangle keeps that triangle of its source.
pub proof fn lemma_symmetrized_keeps_triangle<T>(f: Mat<T>, n: nat, a: Mat<T>, upper: bool)
    requires
        is_symmetrized(f, n, a, upper),
    ensures
        forall|i: int, j: int|
            0 <= i < n && 0 <= j < n && (if upper { i <= j } else { j <= i }) ==> #[trigger] f.at(i, j)
                == a.at(i, j),
{
    assert forall|i: int, j: int|
        0 <= i < n && 0 <= j < n && (if upper { i <= j } else { j <= i }) implies #[trigger] f.at(i, j)
        == a.at(i, j) by {
        assert(f.at(i, j) == sym_entry(a, upper, i, j));
    }
}

/// Symmetrizing a symmetrized matrix again, from either triangle, changes
/// nothing.
pub proof fn lemma_symmetrize_idempotent<T>(f: Mat<T>, g: Mat<T>, n: nat, a: Mat<T>, upper: bool, upper2: bool)
    requires
        is_symmetrized(f, n, a, upper),
        is_symmetrized(g, n, f, upper2),
    ensures
        g.same(&f),
{
    lemma_symmetrized_is_symmetric(f, n, a, upper);
    assert forall|i: int, j: int| 0 <= i < g.nr() && 0 <= j < g.nc() implies #[trigger] g.at(i, j) == f.at(i, j) by {
        assert(g.at(i, j) == sym_entry(f, upper2, i, j));
        assert(f.at(j, i) == f.at(i, j));
    }
}


/// `b` is the block of `m` whose top-left corner is (r0, c0).
pub open spec fn is_block_of<T>(b: Mat<T>, m: Mat<T>, r0: int, c0: int) -> bool {
    &&& r0 + b.nr() <= m.nr()
    &&& c0 + b.nc() <= m.nc()
    &&& forall|i: int, j: int| 0 <= i < b.nr() && 0 <= j < b.nc() ==> #[trigger] b.at(i, j) == m.at(r0 + i, c0 + j)
}

/// `new` is `old` with the block at (r0, c0) overwritten by `src`.
pub open spec fn placed<T>(new: Mat<T>, old: Mat<T>, r0: int, c0: int, src: Mat<T>) -> bool {
    &&& new.nr() == old.nr()
    &&& new.nc() == old.nc()
    &&& forall|i: int, j: int|
        0 <= i < new.nr() && 0 <= j < new.nc() ==> #[trigger] new.at(i, j) == if r0 <= i < r0 + src.nr() && c0
            <= j < c0 + src.nc() {
            src.at(i - r0, j - c0)
        } else {
            old.at(i, j)
        }
}

/// `t` is the transpose of `m`.
pub open spec fn is_transpose_of<T>(t: Mat<T>, m: Mat<T>) -> bool {
    &&& t.nr() == m.nc()
    &&& t.nc() == m.nr()
    &&& forall|i: int, j: int| 0 <= i < t.nr() && 0 <= j < t.nc() ==> #[trigger] t.at(i, j) == m.at(j, i)
}

/// `m` holds `one` on its diagonal and `zero` everywhere else.
pub open spec fn is_identity_pattern<T>(m: Mat<T>, zero: T, one: T) -> bool {
    forall|i: int, j: int| 0 <= i < m.nr() && 0 <= j < m.nc() ==> #[trigger] m.at(i, j) == if i == j {
        one
    } else {
        zero
    }
}

/// Copies the `rows` x `cols` block of `src` at (sr, sc) into `dst` at
/// (dr, dc), row by row; every other entry of `dst` is kept.
fn copy_block<T: Copy>(
    dst: &mut Mat<T>,
    dr: usize,
    dc: usize,
    src: &Mat<T>,
    sr: usize,
    sc: usize,
    rows: usize,
    cols: usize,
)
    requires
        dr + rows <= old(dst).nr(),
        dc + cols <= old(dst).nc(),
        sr + rows <= src.nr(),
        sc + cols <= src.nc(),
    ensures
        final(dst).nr() == old(dst).nr(),
        final(dst).nc() == old(dst).nc(),
        forall|i: int, j: int|
            0 <= i < old(dst).nr() && 0 <= j < old(dst).nc() ==> #[trigger] final(dst).at(i, j) == if dr <= i
                < dr + rows && dc <= j < dc + cols {
                src.at(sr + (i - dr), sc + (j - dc))
            } else {
                old(dst).at(i, j)
            },
{
    let ghost d0 = *dst;
    let mut i: usize = 0;
    while i < rows
        invariant
            i <= rows,
            dr + rows <= d0.nr(),
            dc + cols <= d0.nc(),
            sr + rows <= src.nr(),
            sc + cols <= src.nc(),
            dst.nr() == d0.nr(),
            dst.nc() == d0.nc(),
            forall|r: int, c: int|
                0 <= r < d0.nr() && 0 <= c < d0.nc() ==> #[trigger] dst.at(r, c) == if dr <= r < dr + i && dc
                    <= c < dc + cols {
                    src.at(sr + (r - dr), sc + (c - dc))
                } else {
                    d0.at(r, c)
                },
        decreases rows - i,
    {
        let mut j: usize = 0;
        while j < cols
            invariant
                i < rows,
                j <= cols,
                dr + rows <= d0.nr(),
                dc + cols <= d0.nc(),
                sr + rows <= src.nr(),
                sc + cols <= src.nc(),
                dst.nr() == d0.nr(),
                dst.nc() == d0.nc(),
                forall|r: int, c: int|
                    0 <= r < d0.nr() && 0 <= c < d0.nc() ==> #[trigger] dst.at(r, c) == if (dr <= r < dr + i
                        && dc <= c < dc + cols) || (r == dr + i && dc <= c < dc + j) {
                        src.at(sr + (r - dr), sc + (c - dc))
                    } else {
                        d0.at(r, c)
                    },
            decreases cols - j,
        {
            let v = src.get(sr + i, sc + j);
            dst.set(dr + i, dc + j, v);
            j = j + 1;
        }
        i = i + 1;
    }
}

impl<T: Copy> Mat<T> {
    /// The `rows` x `cols` block whose top-left corner is (r0, c0).
    pub fn block(&self, r0: usize, c0: usize, rows: usize, cols: usize) -> (b: Mat<T>)
        requires
            r0 + rows <= self.nr(),
            c0 + cols <= self.nc(),
        ensures
            b.nr() == rows,
            b.nc() == cols,
            is_block_of(b, *self, r0 as int, c0 as int),
    {
        if rows == 0 || cols == 0 {
            return Mat::from_column_major(rows, cols, Vec::new());
        }
        let ar = self.nrows();
        let ac = self.ncols();
        proof {
            assert(rows * cols <= ar * ac) by (nonlinear_arith)
                requires
                    rows <= ar,
                    cols <= ac,
            ;
        }
        let mut b = Mat::from_element(rows, cols, self.get(r0, c0));
        copy_block(&mut b, 0, 0, self, r0, c0, rows, cols);
        b
    }

    /// Overwrites the block whose top-left corner is (r0, c0) with `src`;
    /// every other entry stays.
    pub fn set_block(&mut self, r0: usize, c0: usize, src: &Mat<T>)
        requires
            r0 + src.nr() <= old(self).nr(),
            c0 + src.nc() <= old(self).nc(),
        ensures
            placed(*final(self), *old(self), r0 as int, c0 as int, *src),
    {
        let rows = src.nrows();
        let cols = src.ncols();
        copy_block(self, r0, c0, src, 0, 0, rows, cols);
    }

    /// The transpose.
    pub fn transposed(&self) -> (t: Mat<T>)
        ensures
            is_transpose_of(t, *self),
    {
        let r = self.nrows();
        let c = self.ncols();
        if r == 0 || c == 0 {
            return Mat::from_column_major(c, r, Vec::new());
        }
        proof {
            assert(c * r == r * c) by (nonlinear_arith);
        }
        let mut t = Mat::from_element(c, r, self.get(0, 0));
        copy_remapped(&mut t, self, c, r, Remap::Transpose);
        t
    }

    /// Makes the matrix `one` on its diagonal and `zero` elsewhere, keeping
    /// its shape.
    pub fn fill_identity(&mut self, zero: T, one: T)
        ensures
            final(self).nr() == old(self).nr(),
            final(self).nc() == old(self).nc(),
            is_identity_pattern(*final(self), zero, one),
    {
        let r = self.nrows();
        let c = self.ncols();
        let ghost d0 = *self;
        let mut i: usize = 0;
        while i < r
            invariant
                i <= r,
                r == d0.nr(),
                c == d0.nc(),
                self.nr() == r,
                self.nc() == c,
                forall|p: int, q: int| 0 <= p < i && 0 <= q < c ==> #[trigger] self.at(p, q) == if p == q {
                    one
                } else {
                    zero
                },
            decreases r - i,
        {
            let mut j: usize = 0;
            while j < c
                invariant
                    i < r,
                    j <= c,
                    self.nr() == r,
                    self.nc() == c,
                    forall|p: int, q: int|
                        0 <= p < i && 0 <= q < c ==> #[trigger] self.at(p, q) == if p == q {
                            one
                        } else {
                            zero
                        },
                    forall|q: int| 0 <= q < j ==> #[trigger] self.at(i as int, q) == if i == q {
                        one
                    } else {
                        zero
                    },
                decreases c - j,
            {
                self.set(i, j, if i == j { one } else { zero });
                j = j + 1;
            }
            i = i + 1;
        }
    }
}

/// `new` is `old` with its `rows` x `cols` block at (r0, c0) replaced by the
/// entries `f(i, j)` (block-relative positions).
pub open spec fn overwritten<T>(
    new: Mat<T>,
    old: Mat<T>,
    r0: int,
    c0: int,
    rows: int,
    cols: int,
    f: spec_fn(int, int) -> T,
) -> bool {
    &&& new.nr() == old.nr()
    &&& new.nc() == old.nc()
    &&& forall|i: int, j: int|
        0 <= i < new.nr() && 0 <= j < new.nc() ==> #[trigger] new.at(i, j) == if r0 <= i < r0 + rows && c0 <= j
            < c0 + cols {
            f(i - r0, j - c0)
        } else {
            old.at(i, j)
        }
}

/// The `rows` x `cols` pattern with `one` where i + cols == j + rows (when
/// `diag`) and `zero` elsewhere: for cols <= rows, a zero block above an
/// identity.
pub open spec fn stacked_identity<T>(rows: int, cols: int, zero: T, one: T, diag: bool) -> spec_fn(int, int) -> T {
    |i: int, j: int| if diag && i + cols == j + rows {
        one
    } else {
        zero
    }
}

impl<T: Copy> Mat<T> {
    fn fill_pattern(&mut self, r0: usize, c0: usize, rows: usize, cols: usize, zero: T, one: T, diag: bool)
        requires
            r0 + rows <= old(self).nr(),
            c0 + cols <= old(self).nc(),
        ensures
            overwritten(
                *final(self),
                *old(self),
                r0 as int,
                c0 as int,
                rows as int,
                cols as int,
                stacked_identity(rows as int, cols as int, zero, one, diag),
            ),
    {
        let ghost d0 = *self;
        let ghost f = stacked_identity(rows as int, cols as int, zero, one, diag);
        let mut i: usize = 0;
        while i < rows
            invariant
                i <= rows,
                r0 + rows <= d0.nr(),
                c0 + cols <= d0.nc(),
                self.nr() == d0.nr(),
                self.nc() == d0.nc(),
                f == stacked_identity(rows as int, cols as int, zero, one, diag),
                forall|p: int, q: int|
                    0 <= p < d0.nr() && 0 <= q < d0.nc() ==> #[trigger] self.at(p, q) == if r0 <= p < r0 + i && c0
                        <= q < c0 + cols {
                        f(p - r0, q - c0)
                    } else {
                        d0.at(p, q)
                    },
            decreases rows - i,
        {
            let mut j: usize = 0;
            while j < cols
                invariant
                    i < rows,
                    j <= cols,
                    r0 + rows <= d0.nr(),
                    c0 + cols <= d0.nc(),
                    self.nr() == d0.nr(),
                    self.nc() == d0.nc(),
                    f == stacked_identity(rows as int, cols as int, zero, one, diag),
                    forall|p: int, q: int|
                        0 <= p < d0.nr() && 0 <= q < d0.nc() ==> #[trigger] self.at(p, q) == if (r0 <= p < r0 + i
                            && c0 <= q < c0 + cols) || (p == r0 + i && c0 <= q < c0 + j) {
                            f(p - r0, q - c0)
                        } else {
                            d0.at(p, q)
                        },
                decreases cols - j,
            {
                let v = if diag && rows - i == cols - j {
                    one
                } else {
                    zero
                };
                self.set(r0 + i, c0 + j, v);
                j = j + 1;
            }
            i = i + 1;
        }
    }

    /// Sets every entry of the `rows` x `cols` block at (r0, c0) to `v`;
    /// every other entry stays.
    pub fn fill_block(&mut self, r0: usize, c0: usize, rows: usize, cols: usize, v: T)
        requires
            r0 + rows <= old(self).nr(),
            c0 + cols <= old(self).nc(),
        ensures
            overwritten(
                *final(self),
                *old(self),
                r0 as int,
                c0 as int,
                rows as int,
                cols as int,
                stacked_identity(rows as int, cols as int, v, v, false),
            ),
    {
        self.fill_pattern(r0, c0, rows, cols, v, v, false);
    }

    /// Makes the `rows` x `cols` block at (r0, c0), cols <= rows, a block of
    /// `zero` above a `cols` x `cols` identity; every other entry stays.
    pub fn fill_bottom_identity(&mut self, r0: usize, c0: usize, rows: usize, cols: usize, zero: T, one: T)
        requires
            cols <= rows,
            r0 + rows <= old(self).nr(),
            c0 + cols <= old(self).nc(),
        ensures
            overwritten(
                *final(self),
                *old(self),
                r0 as int,
                c0 as int,
                rows as int,
                cols as int,
                stacked_identity(rows as int, cols as int, zero, one, true),
            ),
    {
        self.fill_pattern(r0, c0, rows, cols, zero, one, true);
    }
}

impl<T: Copy> Mat<T> {
    /// The matrix whose entry (i, j) is entry (rows[i], cols[j]) of `self`:
    /// a reordering (or selection) of rows and columns.
    pub fn permuted(&self, rows: &Vec<usize>, cols: &Vec<usize>) -> (r: Mat<T>)
        requires
            forall|k: int| 0 <= k < rows@.len() ==> #[trigger] rows@[k] < self.nr(),
            forall|k: int| 0 <= k < cols@.len() ==> #[trigger] cols@[k] < self.nc(),
            rows@.len() * cols@.len() <= usize::MAX,
        ensures
            r.nr() == rows@.len(),
            r.nc() == cols@.len(),
            forall|i: int, j: int|
                0 <= i < rows@.len() && 0 <= j < cols@.len() ==> #[trigger] r.at(i, j) == self.at(
                    rows@[i] as int,
                    cols@[j] as int,
                ),
    {
        let nr = rows.len();
        let nc = cols.len();
        if nr == 0 || nc == 0 {
            assert(nr * nc == 0) by (nonlinear_arith)
                requires
                    nr == 0 || nc == 0,
            ;
            return Mat::from_column_major(nr, nc, Vec::new());
        }
        let mut r = Mat::from_element(nr, nc, self.get(rows[0], cols[0]));
        let mut i: usize = 0;
        while i < nr
            invariant
                i <= nr,
                nr == rows@.len(),
                nc == cols@.len(),
                r.nr() == nr,
                r.nc() == nc,
                forall|k: int| 0 <= k < rows@.len() ==> #[trigger] rows@[k] < self.nr(),
                forall|k: int| 0 <= k < cols@.len() ==> #[trigger] cols@[k] < self.nc(),
                forall|p: int, q: int|
                    0 <= p < i && 0 <= q < nc ==> #[trigger] r.at(p, q) == self.at(rows@[p] as int, cols@[q] as int),
            decreases nr - i,
        {
            let mut j: usize = 0;
            while j < nc
                invariant
                    i < nr,
                    j <= nc,
                    nr == rows@.len(),
                    nc == cols@.len(),
                    r.nr() == nr,
                    r.nc() == nc,
                    forall|k: int| 0 <= k < rows@.len() ==> #[trigger] rows@[k] < self.nr(),
                    forall|k: int| 0 <= k < cols@.len() ==> #[trigger] cols@[k] < self.nc(),
                    forall|p: int, q: int|
                        0 <= p < i && 0 <= q < nc ==> #[trigger] r.at(p, q) == self.at(
                            rows@[p] as int,
                            cols@[q] as int,
                        ),
                    forall|q: int|
                        0 <= q < j ==> #[trigger] r.at(i as int, q) == self.at(rows@[i as int] as int, cols@[q] as int),
                decreases nc - j,
            {
                let v = self.get(rows[i], cols[j]);
                r.set(i, j, v);
                j = j + 1;
            }
            i = i + 1;
        }
        r
    }

    /// The n x n upper triangle of the transpose of the leading n x n block:
    /// entry (i, j) is entry (j, i) of `self` for j >= i, and `zero` below
    /// the diagonal (the upper factor U = L' from a lower factor L).
    pub fn upper_of_transpose(&self, n: usize, zero: T) -> (s: Mat<T>)
        requires
            n <= self.nr(),
            n <= self.nc(),
        ensures
            s.nr() == n,
            s.nc() == n,
            forall|i: int, j: int| 0 <= i < n && 0 <= j < n ==> #[trigger] s.at(i, j) == if j >= i {
                self.at(j, i)
            } else {
                zero
            },
    {
        let ar = self.nrows();
        let ac = self.ncols();
        proof {
            assert(n * n <= ar * ac) by (nonlinear_arith)
                requires
                    n <= ar,
                    n <= ac,
            ;
        }
        let mut s = Mat::from_element(n, n, zero);
        let mut i: usize = 0;
        while i < n
            invariant
                i <= n,
                n <= self.nr(),
                n <= self.nc(),
                s.nr() == n,
                s.nc() == n,
                forall|p: int, q: int| 0 <= p < n && 0 <= q < n ==> #[trigger] s.at(p, q) == if p < i && q >= p {
                    self.at(q, p)
                } else {
                    zero
                },
            decreases n - i,
        {
            let mut j: usize = i;
            while j < n
                invariant
                    i < n,
                    i <= j <= n,
                    n <= self.nr(),
                    n <= self.nc(),
                    s.nr() == n,
                    s.nc() == n,
                    forall|p: int, q: int|
                        0 <= p < n && 0 <= q < n ==> #[trigger] s.at(p, q) == if (p < i && q >= p) || (p == i && i
                            <= q < j) {
                            self.at(q, p)
                        } else {
                            zero
                        },
                decreases n - j,
            {
                let v = self.get(j, i);
                s.set(i, j, v);
                j = j + 1;
            }
            i = i + 1;
        }
        s
    }
}

/// Reading back a block just written gives what was written.
pub proof fn lemma_block_after_placed<T>(new: Mat<T>, old: Mat<T>, r0: int, c0: int, src: Mat<T>, b: Mat<T>)
    requires
        0 <= r0,
        0 <= c0,
        placed(new, old, r0, c0, src),
        is_block_of(b, new, r0, c0),
        b.nr() == src.nr(),
        b.nc() == src.nc(),
    ensures
        b.same(&src),
{
    assert forall|i: int, j: int| 0 <= i < b.nr() && 0 <= j < b.nc() implies #[trigger] b.at(i, j) == src.at(i, j) by {
        assert(b.at(i, j) == new.at(r0 + i, c0 + j));
    }
}

/// Writing a block leaves every entry outside it, and reading a disjoint
/// block gives what was there before.
pub proof fn lemma_disjoint_block_unchanged<T>(
    new: Mat<T>,
    old: Mat<T>,
    r0: int,
    c0: int,
    src: Mat<T>,
    b_new: Mat<T>,
    b_old: Mat<T>,
    r1: int,
    c1: int,
)
    requires
        0 <= r1,
        0 <= c1,
        placed(new, old, r0, c0, src),
        is_block_of(b_new, new, r1, c1),
        is_block_of(b_old, old, r1, c1),
        b_new.nr() == b_old.nr(),
        b_new.nc() == b_old.nc(),
        r1 + b_new.nr() <= r0 || r0 + src.nr() <= r1 || c1 + b_new.nc() <= c0 || c0 + src.nc() <= c1,
    ensures
        b_new.same(&b_old),
{
    assert forall|i: int, j: int| 0 <= i < b_new.nr() && 0 <= j < b_new.nc() implies #[trigger] b_new.at(i, j)
        == b_old.at(i, j) by {
        assert(b_new.at(i, j) == new.at(r1 + i, c1 + j));
        assert(b_old.at(i, j) == old.at(r1 + i, c1 + j));
    }
}

/// Transposing twice gives the matrix back.
pub proof fn lemma_transpose_involution<T>(t: Mat<T>, m: Mat<T>, u: Mat<T>)
    requires
        is_transpose_of(t, m),
        is_transpose_of(u, t),
    ensures
        u.same(&m),
{
    assert forall|i: int, j: int| 0 <= i < u.nr() && 0 <= j < u.nc() implies #[trigger] u.at(i, j) == m.at(i, j) by {
        assert(u.at(i, j) == t.at(j, i));
    }
}

} // verus!
