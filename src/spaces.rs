use vstd::prelude::*;
use crate::elimination::{echelon_pivots, echelon_run, eliminated, first_nonzero, identity_grid, pivots_valid, reduced, swapped, Eliminator};
use crate::matrix::{column_of, Matrix};
use crate::scalar::Scalar;
use crate::vector::Vector;

verus! {

/// The distance between two indices.
pub open spec fn gap(a: usize, b: usize) -> int {
    if a >= b {
        a - b
    } else {
        b - a
    }
}

/// Whether every pivot lies on the diagonal through the first one.
pub open spec fn staircase(p: Seq<(usize, usize)>) -> bool {
    forall|k: int| 0 <= k < p.len() ==> gap(#[trigger] p[k].1, p[0].1) == gap(p[k].0, p[0].0)
}

/// The null space basis that the reduced row echelon form of a grid with `n`
/// columns parametrizes: with rank `r`, vector `k` holds the negated entries
/// of column `r + k` of the reduced form in its first `r` positions, one at
/// position `r + k`, and zero elsewhere.
pub open spec fn null_vectors<T: Scalar>(g: Seq<Seq<T>>, n: nat) -> Seq<Seq<T>> {
    let r = echelon_pivots(g, n).len() as int;
    let red = reduced(g, n).0;
    Seq::new(
        (n - r) as nat,
        |k: int|
            Seq::new(
                n,
                |i: int|
                    if i < r {
                        red[i][r + k].spec_negated()
                    } else if i == r + k {
                        T::spec_one()
                    } else {
                        T::spec_zero()
                    },
            ),
    )
}

/// The scan from column `k` adds at most one pivot per remaining column.
proof fn lemma_scan_bound<T: Scalar>(
    g: Seq<Seq<T>>,
    t: Seq<Seq<T>>,
    h: int,
    k: int,
    p: Seq<(usize, usize)>,
    n: int,
)
    requires
        0 <= k <= n,
    ensures
        echelon_run(g, t, h, k, p, n).2.len() <= p.len() + (n - k),
    decreases n - k,
{
    if h < 0 || h >= g.len() || k < 0 || k >= n {
    } else {
        match first_nonzero(g, h, k) {
            None => lemma_scan_bound(g, t, h, k + 1, p, n),
            Some(i) => {
                let g1 = swapped(g, i, h);
                let t1 = swapped(t, i, h);
                lemma_scan_bound(
                    eliminated(g1, g1, h, k, g.len() as int),
                    eliminated(t1, g1, h, k, g.len() as int),
                    h + 1,
                    k + 1,
                    p.push(((h + 1) as usize, (k + 1) as usize)),
                    n,
                );
            },
        }
    }
}

/// Rank–nullity: the rank found by row reduction is at most the number of
/// columns, and the null space basis has one vector per remaining column, so
/// the rank plus the nullity is the number of columns.
pub proof fn lemma_rank_nullity<T: Scalar>(g: Seq<Seq<T>>, n: nat)
    ensures
        echelon_pivots(g, n).len() <= n,
        null_vectors(g, n).len() + echelon_pivots(g, n).len() == n,
{
    lemma_scan_bound(g, identity_grid::<T>(g.len()), 0, 0, Seq::empty(), n as int);
}

/// Analysis of the column space and the null space of a matrix.
pub struct Spaces {}

impl Spaces {
    pub fn new() -> (r: Self) {
        Spaces {}
    }

    /// Whether the pivots form a simple staircase, one column to the right
    /// per row; the null space parametrization takes such a layout for
    /// granted, and this reports the layouts where it does not hold.
    pub fn is_staircase(&self, pivot_indexes: &Vec<(usize, usize)>) -> (r: bool)
        ensures
            r == staircase(pivot_indexes@),
    {
        if pivot_indexes.len() == 0 {
            return true;
        }
        let (bi, bj) = pivot_indexes[0];
        let mut k: usize = 0;
        while k < pivot_indexes.len()
            invariant
                pivot_indexes@.len() > 0,
                bi == pivot_indexes@[0].0,
                bj == pivot_indexes@[0].1,
                k <= pivot_indexes@.len(),
                forall|l: int| 0 <= l < k ==> gap(#[trigger] pivot_indexes@[l].1, bj) == gap(pivot_indexes@[l].0, bi),
            decreases pivot_indexes@.len() - k,
        {
            let (i, j) = pivot_indexes[k];
            let dj = if j >= bj { j - bj } else { bj - j };
            let di = if i >= bi { i - bi } else { bi - i };
            if dj != di {
                return false;
            }
            k += 1;
        }
        true
    }

    /// The number of columns minus the rank.
    pub fn null_dimension<T: Scalar>(&self, matrix: &Matrix<T>) -> (r: usize)
        requires
            matrix.wf(),
        ensures
            r == matrix.n() - echelon_pivots(matrix@, matrix.n()).len(),
            r + echelon_pivots(matrix@, matrix.n()).len() == matrix.n(),
    {
        let rank = self.column_dimension(matrix);
        matrix.cols - rank
    }

    /// The rank: the number of pivots of an echelon form.
    pub fn column_dimension<T: Scalar>(&self, matrix: &Matrix<T>) -> (r: usize)
        requires
            matrix.wf(),
        ensures
            r == echelon_pivots(matrix@, matrix.n()).len(),
            r <= matrix.m(),
            r <= matrix.n(),
    {
        self.column_space(matrix).len()
    }

    /// A basis of the null space, one vector per free variable, from the
    /// parametrization of the reduced row echelon form; empty when the rank
    /// equals the number of columns. With rank `r`, vector `k` holds the
    /// negated entries of column `r + k` of the reduced form in its first `r`
    /// positions, one at position `r + k` and zero at the other positions.
    /// The parametrization takes the pivots to stand in the first `r`
    /// columns; `is_staircase` reports the layouts where they do not.
    pub fn null_space<T: Scalar>(&self, matrix: &Matrix<T>) -> (r: Vec<Vector<T>>)
        requires
            matrix.wf(),
        ensures
            r@.len() == matrix.n() - echelon_pivots(matrix@, matrix.n()).len(),
            r@.len() + echelon_pivots(matrix@, matrix.n()).len() == matrix.n(),
            forall|k: int| 0 <= k < r@.len() ==> (#[trigger] r@[k])@.len() == matrix.n(),
            forall|k: int| 0 <= k < r@.len() ==> (#[trigger] r@[k])@ == null_vectors(matrix@, matrix.n())[k],
            forall|k: int, i: int|
                0 <= k < r@.len() && 0 <= i < echelon_pivots(matrix@, matrix.n()).len() ==> #[trigger] r@[k]@[i]
                    == reduced(matrix@, matrix.n()).0[i][echelon_pivots(matrix@, matrix.n()).len() + k].spec_negated(),
            forall|k: int, i: int|
                0 <= k < r@.len() && echelon_pivots(matrix@, matrix.n()).len() <= i < matrix.n() ==> #[trigger] r@[k]@[i]
                    == if i == echelon_pivots(matrix@, matrix.n()).len() + k {
                    T::spec_one()
                } else {
                    T::spec_zero()
                },
    {
        let eliminator = Eliminator::new();
        let mut work = matrix.duplicate();
        let n = matrix.cols;
        let (pivot_indexes, _) = eliminator.rref(&mut work);
        let r = pivot_indexes.len();
        if n - r == 0 {
            let empty: Vec<Vector<T>> = Vec::new();
            return empty;
        }
        let free = n - r;
        let zero = T::zero();
        let one = T::one();
        let mut f = Matrix::filled(n, free, zero);
        let mut j: usize = r;
        while j < n
            invariant
                work.wf(),
                work.m() == matrix.m(),
                work.n() == n,
                n == matrix.n(),
                r <= matrix.m(),
                r < n,
                free == n - r,
                f.wf(),
                f.m() == n,
                f.n() == free,
                r <= j <= n,
                forall|i: int, c: int| r <= i < n && 0 <= c < free ==> #[trigger] f.at(i, c) == zero,
                forall|i: int, c: int| 0 <= i < r && 0 <= c < j - r ==> #[trigger] f.at(i, c) == work@[i][r + c].spec_negated(),
            decreases n - j,
        {
            let mut i: usize = 0;
            while i < r
                invariant
                    work.wf(),
                    work.m() == matrix.m(),
                    work.n() == n,
                    r <= matrix.m(),
                    r < n,
                    free == n - r,
                    f.wf(),
                    f.m() == n,
                    f.n() == free,
                    r <= j < n,
                    i <= r,
                    forall|i2: int, c: int| r <= i2 < n && 0 <= c < free ==> #[trigger] f.at(i2, c) == zero,
                    forall|i2: int, c: int| 0 <= i2 < r && 0 <= c < j - r ==> #[trigger] f.at(i2, c) == work@[i2][r + c].spec_negated(),
                    forall|i2: int| 0 <= i2 < i ==> #[trigger] f.at(i2, j - r) == work@[i2][j as int].spec_negated(),
                decreases r - i,
            {
                assert(work@[i as int][j as int] == work.at(i as int, j as int));
                let element = work.get(i, j).negated();
                f.change_element(i + 1, j - r + 1, element);
                i += 1;
            }
            j += 1;
        }
        let mut i: usize = r;
        while i < n
            invariant
                r < n,
                free == n - r,
                f.wf(),
                f.m() == n,
                f.n() == free,
                r <= i <= n,
                forall|i2: int, c: int| r <= i2 < n && 0 <= c < free ==> #[trigger] f.at(i2, c) == if i2 < i && c == i2 - r {
                    one
                } else {
                    zero
                },
                forall|i2: int, c: int| 0 <= i2 < r && 0 <= c < free ==> #[trigger] f.at(i2, c) == work@[i2][r + c].spec_negated(),
            decreases n - i,
        {
            f.change_element(i + 1, i - r + 1, one);
            i += 1;
        }
        let mut basis: Vec<Vector<T>> = Vec::new();
        let mut c: usize = 0;
        while c < free
            invariant
                f.wf(),
                f.m() == n,
                f.n() == free,
                c <= free,
                basis@.len() == c,
                forall|k: int| 0 <= k < c ==> (#[trigger] basis@[k])@ == column_of(f@, k),
            decreases free - c,
        {
            match f.get_column(c + 1) {
                Some(v) => basis.push(v),
                None => {},
            }
            c += 1;
        }
        assert(forall|k: int, i2: int|
            0 <= k < basis@.len() && 0 <= i2 < n ==> #[trigger] basis@[k]@[i2] == f.at(i2, k));
        assert forall|k: int| 0 <= k < basis@.len() implies (#[trigger] basis@[k])@ =~= null_vectors(matrix@, matrix.n())[k] by {
            assert(basis@[k]@.len() == n);
        }
        basis
    }

    /// The columns of the original matrix that hold the pivots of its
    /// echelon form, in increasing column order.
    pub fn column_space<T: Scalar>(&self, matrix: &Matrix<T>) -> (r: Vec<Vector<T>>)
        requires
            matrix.wf(),
        ensures
            r@.len() == echelon_pivots(matrix@, matrix.n()).len(),
            forall|k: int| 0 <= k < r@.len() ==> (#[trigger] r@[k])@ == column_of(
                matrix@,
                echelon_pivots(matrix@, matrix.n())[k].1 - 1,
            ),
            r@.len() <= matrix.m(),
            r@.len() <= matrix.n(),
    {
        let eliminator = Eliminator::new();
        let mut cloned = matrix.duplicate();
        let (pivots, _) = eliminator.row_echelon_form(&mut cloned);
        let mut basis: Vec<Vector<T>> = Vec::new();
        let mut k: usize = 0;
        while k < pivots.len()
            invariant
                matrix.wf(),
                pivots_valid(pivots@, matrix.m(), matrix.n()),
                k <= pivots@.len(),
                basis@.len() == k,
                forall|l: int| 0 <= l < k ==> (#[trigger] basis@[l])@ == column_of(matrix@, pivots@[l].1 - 1),
            decreases pivots@.len() - k,
        {
            let (_, j) = pivots[k];
            match matrix.get_column(j) {
                Some(v) => basis.push(v),
                None => {},
            }
            k += 1;
        }
        basis
    }
}

} // verus!
