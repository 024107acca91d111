use vstd::prelude::*;
use crate::matrix::Matrix;
use crate::scalar::Scalar;

verus! {

/// Pivot positions of an echelon form of an `m` by `n` matrix: the k-th pivot
/// (from 0) stands in row k + 1, in a column of `1..=n`, and columns strictly
/// increase from one pivot to the next.
pub open spec fn pivots_valid(p: Seq<(usize, usize)>, m: nat, n: nat) -> bool {
    &&& p.len() <= m
    &&& p.len() <= n
    &&& forall|k: int| 0 <= k < p.len() ==> #[trigger] p[k].0 == k + 1
    &&& forall|k: int| 0 <= k < p.len() ==> 1 <= #[trigger] p[k].1 <= n
    &&& forall|k: int, l: int| 0 <= k < l < p.len() ==> #[trigger] p[k].1 < #[trigger] p[l].1
}

/// A row multiplied by `factor`, entry by entry.
pub open spec fn scaled_row<T: Scalar>(row: Seq<T>, factor: T) -> Seq<T> {
    Seq::new(row.len(), |c: int| row[c].spec_times(factor))
}

/// `target` minus `factor` times `source`, entry by entry.
pub open spec fn combined_row<T: Scalar>(target: Seq<T>, source: Seq<T>, factor: T) -> Seq<T> {
    Seq::new(target.len(), |c: int| target[c].spec_minus(factor.spec_times(source[c])))
}

/// The first row from `i` down whose entry in column `k` is not zero.
pub open spec fn first_nonzero<T: Scalar>(g: Seq<Seq<T>>, i: int, k: int) -> Option<int>
    decreases g.len() - i,
{
    if i < 0 || i >= g.len() {
        None
    } else if !g[i][k].spec_is_zero() {
        Some(i)
    } else {
        first_nonzero(g, i + 1, k)
    }
}

/// `g` with rows `a` and `b` exchanged.
pub open spec fn swapped<T>(g: Seq<Seq<T>>, a: int, b: int) -> Seq<Seq<T>> {
    g.update(a, g[b]).update(b, g[a])
}

/// `t` after each row `a` with `h < a < upto` has had row `h` taken away
/// `g[a][k] / g[h][k]` times: the elimination below the pivot (h, k) of `g`,
/// applied to `t`.
pub open spec fn eliminated<T: Scalar>(t: Seq<Seq<T>>, g: Seq<Seq<T>>, h: int, k: int, upto: int) -> Seq<Seq<T>> {
    Seq::new(
        t.len(),
        |a: int|
            if h < a < upto {
                combined_row(t[a], t[h], g[a][k].spec_over(g[h][k]))
            } else {
                t[a]
            },
    )
}

/// The column scan of the row echelon reduction from pivot row `h` and
/// column `k` (0-based) of a grid `g` with `n` columns, carrying the
/// transform `t` and the pivots `p` found so far. Gives the reduced grid, the
/// transform and the pivots.
pub open spec fn echelon_run<T: Scalar>(
    g: Seq<Seq<T>>,
    t: Seq<Seq<T>>,
    h: int,
    k: int,
    p: Seq<(usize, usize)>,
    n: int,
) -> (Seq<Seq<T>>, Seq<Seq<T>>, Seq<(usize, usize)>)
    decreases n - k,
{
    if h < 0 || h >= g.len() || k < 0 || k >= n {
        (g, t, p)
    } else {
        match first_nonzero(g, h, k) {
            None => echelon_run(g, t, h, k + 1, p, n),
            Some(i) => {
                let g1 = swapped(g, i, h);
                let t1 = swapped(t, i, h);
                echelon_run(
                    eliminated(g1, g1, h, k, g.len() as int),
                    eliminated(t1, g1, h, k, g.len() as int),
                    h + 1,
                    k + 1,
                    p.push(((h + 1) as usize, (k + 1) as usize)),
                    n,
                )
            },
        }
    }
}

/// The square grid with the scalar's one on the diagonal and zero elsewhere.
pub open spec fn identity_grid<T: Scalar>(m: nat) -> Seq<Seq<T>> {
    Seq::new(m, |i: int| Seq::new(m, |j: int| if i == j { T::spec_one() } else { T::spec_zero() }))
}

/// The row echelon reduction of a grid with `n` columns: the reduced grid,
/// the transform, and the pivot positions (1-based).
pub open spec fn echelon<T: Scalar>(g: Seq<Seq<T>>, n: nat) -> (Seq<Seq<T>>, Seq<Seq<T>>, Seq<(usize, usize)>) {
    echelon_run(g, identity_grid(g.len()), 0, 0, Seq::empty(), n as int)
}

/// The pivot positions of the row echelon reduction of a grid.
pub open spec fn echelon_pivots<T: Scalar>(g: Seq<Seq<T>>, n: nat) -> Seq<(usize, usize)> {
    echelon(g, n).2
}

/// `t` after each row `a < min(upto, i)` has had row `i` taken away
/// `g[a][j] / g[i][j]` times: the elimination above the pivot (i, j) of `g`,
/// applied to `t`.
pub open spec fn eliminated_above<T: Scalar>(t: Seq<Seq<T>>, g: Seq<Seq<T>>, i: int, j: int, upto: int) -> Seq<Seq<T>> {
    Seq::new(
        t.len(),
        |a: int|
            if 0 <= a < upto && a < i {
                combined_row(t[a], t[i], g[a][j].spec_over(g[i][j]))
            } else {
                t[a]
            },
    )
}

/// The backward pass of the reduction over the first `remaining` pivots of
/// `p`, last first: clear the entries above the pivot, then scale its row by
/// one over the pivot. Gives the grid and the transform.
pub open spec fn back_run<T: Scalar>(g: Seq<Seq<T>>, t: Seq<Seq<T>>, p: Seq<(usize, usize)>, remaining: int) -> (
    Seq<Seq<T>>,
    Seq<Seq<T>>,
)
    decreases remaining,
{
    if remaining <= 0 || remaining > p.len() {
        (g, t)
    } else {
        let i = p[remaining - 1].0 - 1;
        let j = p[remaining - 1].1 - 1;
        let g1 = eliminated_above(g, g, i, j, i);
        let t1 = eliminated_above(t, g, i, j, i);
        let f = T::spec_one().spec_over(g[i][j]);
        back_run(g1.update(i, scaled_row(g1[i], f)), t1.update(i, scaled_row(t1[i], f)), p, remaining - 1)
    }
}

/// The reduced row echelon reduction of a grid with `n` columns: the reduced
/// grid and the accumulated transform.
pub open spec fn reduced<T: Scalar>(g: Seq<Seq<T>>, n: nat) -> (Seq<Seq<T>>, Seq<Seq<T>>) {
    let e = echelon(g, n);
    back_run(e.0, e.1, e.2, e.2.len() as int)
}

/// Elementary row operations and row reduction.
pub struct Eliminator {}

impl Eliminator {
    pub fn new() -> (r: Self) {
        Eliminator {}
    }

    /// Exchanges rows `row1` and `row2` (1-based).
    pub fn swap_rows<T: Scalar>(&self, row1: usize, row2: usize, matrix: &mut Matrix<T>)
        requires
            old(matrix).wf(),
            1 <= row1 <= old(matrix).m(),
            1 <= row2 <= old(matrix).m(),
        ensures
            final(matrix).wf(),
            final(matrix).m() == old(matrix).m(),
            final(matrix).n() == old(matrix).n(),
            final(matrix)@ == old(matrix)@.update(row1 - 1, old(matrix)@[row2 - 1]).update(
                row2 - 1,
                old(matrix)@[row1 - 1],
            ),
    {
        let first = matrix.row_copy(row1 - 1);
        let second = matrix.row_copy(row2 - 1);
        matrix.replace_row(row1 - 1, second);
        matrix.replace_row(row2 - 1, first);
    }

    /// Multiplies row `row` (1-based) by `factor`; the other rows stay.
    pub fn multiply_row_by_number<T: Scalar>(&self, row: usize, factor: T, matrix: &mut Matrix<T>)
        requires
            old(matrix).wf(),
            1 <= row <= old(matrix).m(),
        ensures
            final(matrix).wf(),
            final(matrix).m() == old(matrix).m(),
            final(matrix).n() == old(matrix).n(),
            final(matrix)@ == old(matrix)@.update(row - 1, scaled_row(old(matrix)@[row - 1], factor)),
    {
        let old_row = matrix.row_copy(row - 1);
        let mut new_row: Vec<T> = Vec::new();
        let mut j: usize = 0;
        while j < old_row.len()
            invariant
                j <= old_row@.len(),
                new_row@.len() == j,
                forall|c: int| 0 <= c < j ==> #[trigger] new_row@[c] == old_row@[c].spec_times(factor),
            decreases old_row@.len() - j,
        {
            new_row.push(old_row[j].times(factor));
            j += 1;
        }
        assert(new_row@ =~= scaled_row(old_row@, factor));
        matrix.replace_row(row - 1, new_row);
    }

    /// Row `re` becomes row `re` minus `fu` times row `ru` (both 1-based);
    /// the other rows stay.
    pub fn multiply_rows<T: Scalar>(&self, re: usize, ru: usize, fu: T, matrix: &mut Matrix<T>)
        requires
            old(matrix).wf(),
            1 <= re <= old(matrix).m(),
            1 <= ru <= old(matrix).m(),
            re != ru,
        ensures
            final(matrix).wf(),
            final(matrix).m() == old(matrix).m(),
            final(matrix).n() == old(matrix).n(),
            final(matrix)@ == old(matrix)@.update(
                re - 1,
                combined_row(old(matrix)@[re - 1], old(matrix)@[ru - 1], fu),
            ),
    {
        let target = matrix.row_copy(re - 1);
        let source = matrix.row_copy(ru - 1);
        let mut new_row: Vec<T> = Vec::new();
        let mut j: usize = 0;
        while j < target.len()
            invariant
                j <= target@.len(),
                target@.len() == source@.len(),
                new_row@.len() == j,
                forall|c: int| 0 <= c < j ==> #[trigger] new_row@[c] == target@[c].spec_minus(fu.spec_times(source@[c])),
            decreases target@.len() - j,
        {
            new_row.push(target[j].minus(fu.times(source[j])));
            j += 1;
        }
        assert(new_row@ =~= combined_row(target@, source@, fu));
        matrix.replace_row(re - 1, new_row);
    }

    /// Reduces `matrix` to row echelon form. Returns the pivot positions,
    /// in increasing row order, and the transform that the reduction applied
    /// to the identity alongside. For each column, the pivot is the first
    /// entry from the pivot row down that is not zero; every remaining row of
    /// a wide matrix is searched as well, so the last column of an augmented
    /// system `[A | b]` can hold a pivot.
    pub fn row_echelon_form<T: Scalar>(&self, matrix: &mut Matrix<T>) -> (r: (
        Vec<(usize, usize)>,
        Matrix<T>,
    ))
        requires
            old(matrix).wf(),
        ensures
            final(matrix).wf(),
            final(matrix).m() == old(matrix).m(),
            final(matrix).n() == old(matrix).n(),
            pivots_valid(r.0@, old(matrix).m(), old(matrix).n()),
            r.1.wf(),
            r.1.m() == old(matrix).m(),
            r.1.n() == old(matrix).m(),
            final(matrix)@ == echelon(old(matrix)@, old(matrix).n()).0,
            r.1@ == echelon(old(matrix)@, old(matrix).n()).1,
            r.0@ == echelon_pivots(old(matrix)@, old(matrix).n()),
            forall|l: int| 0 <= l < r.0@.len() ==> !(#[trigger] final(matrix)@[l][r.0@[l].1 - 1]).spec_is_zero(),
    {
        let ghost start = matrix@;
        let (m, n) = matrix.dimension();
        // 0-based pivot row and column
        let mut h: usize = 0;
        let mut k: usize = 0;
        let mut leading_ones: Vec<(usize, usize)> = Vec::new();
        let mut to_inverse: Matrix<T> = Matrix::identity(m);
        assert forall|i: int| 0 <= i < m implies #[trigger] to_inverse@[i] =~= identity_grid::<T>(m as nat)[i] by {
            assert forall|j: int| 0 <= j < m implies to_inverse@[i][j] == identity_grid::<T>(m as nat)[i][j] by {
                assert(to_inverse@[i][j] == to_inverse.at(i, j));
            }
        }
        assert(to_inverse@ =~= identity_grid(m as nat));
        while h < m && k < n
            invariant
                matrix.wf(),
                matrix.m() == m,
                matrix.n() == n,
                to_inverse.wf(),
                to_inverse.m() == m,
                to_inverse.n() == m,
                h <= m,
                k <= n,
                h <= k,
                leading_ones@.len() == h,
                pivots_valid(leading_ones@, m as nat, n as nat),
                forall|l: int| 0 <= l < leading_ones@.len() ==> #[trigger] leading_ones@[l].1 <= k,
                echelon_run(matrix@, to_inverse@, h as int, k as int, leading_ones@, n as int) == echelon(start, n as nat),
                forall|l: int| 0 <= l < leading_ones@.len() ==> !(#[trigger] matrix@[l][leading_ones@[l].1 - 1]).spec_is_zero(),
            decreases n - k,
        {
            let mut found: Option<usize> = None;
            let mut i: usize = h;
            while i < m
                invariant_except_break
                    found is None,
                invariant
                    matrix.wf(),
                    matrix.m() == m,
                    matrix.n() == n,
                    h < m,
                    k < n,
                    h <= i <= m,
                    first_nonzero(matrix@, h as int, k as int) == first_nonzero(matrix@, i as int, k as int),
                ensures
                    found is None ==> i == m,
                    found matches Some(x) ==> x == i && i < m && first_nonzero(matrix@, i as int, k as int) == Some(x as int)
                        && !matrix@[x as int][k as int].spec_is_zero(),
                decreases m - i,
            {
                assert(matrix@[i as int][k as int] == matrix.at(i as int, k as int));
                if !matrix.get(i, k).is_zero() {
                    assert(first_nonzero(matrix@, i as int, k as int) == Some(i as int));
                    found = Some(i);
                    break;
                }
                assert(first_nonzero(matrix@, i as int, k as int) == first_nonzero(matrix@, i + 1, k as int));
                i += 1;
            }
            assert(found is None ==> i == m && first_nonzero(matrix@, i as int, k as int) is None);
            let ghost g = matrix@;
            let ghost t = to_inverse@;
            let ghost p = leading_ones@;
            match found {
                None => {
                    assert(first_nonzero(g, h as int, k as int) is None);
                    k += 1;
                },
                Some(index) => {
                    self.swap_rows(index + 1, h + 1, matrix);
                    self.swap_rows(index + 1, h + 1, &mut to_inverse);
                    let ghost g1 = matrix@;
                    let ghost t1 = to_inverse@;
                    assert(g1 == swapped(g, index as int, h as int));
                    assert(!g1[h as int][k as int].spec_is_zero());
                    let pivot = matrix.get(h, k);
                    leading_ones.push((h + 1, k + 1));
                    let mut a: usize = h + 1;
                    assert(matrix@ =~= eliminated(g1, g1, h as int, k as int, a as int));
                    assert(to_inverse@ =~= eliminated(t1, g1, h as int, k as int, a as int));
                    while a < m
                        invariant
                            matrix.wf(),
                            matrix.m() == m,
                            matrix.n() == n,
                            to_inverse.wf(),
                            to_inverse.m() == m,
                            to_inverse.n() == m,
                            g1.len() == m,
                            t1.len() == m,
                            h < m,
                            k < n,
                            h + 1 <= a <= m,
                            g1[h as int].len() == n,
                            pivot == g1[h as int][k as int],
                            matrix@ == eliminated(g1, g1, h as int, k as int, a as int),
                            to_inverse@ == eliminated(t1, g1, h as int, k as int, a as int),
                            leading_ones@.len() == h + 1,
                            leading_ones@[h as int] == ((h + 1) as usize, (k + 1) as usize),
                            forall|l: int| 0 <= l <= h ==> !(#[trigger] g1[l][leading_ones@[l].1 - 1]).spec_is_zero(),
                        decreases m - a,
                    {
                        let factor = matrix.get(a, k).over(pivot);
                        self.multiply_rows(a + 1, h + 1, factor, matrix);
                        self.multiply_rows(a + 1, h + 1, factor, &mut to_inverse);
                        assert(matrix@ =~= eliminated(g1, g1, h as int, k as int, a + 1));
                        assert(to_inverse@ =~= eliminated(t1, g1, h as int, k as int, a + 1));
                        a += 1;
                    }
                    h += 1;
                    k += 1;
                },
            }
        }
        (leading_ones, to_inverse)
    }

    /// Reduces `matrix` to reduced row echelon form. Returns the pivot
    /// positions of the echelon pass and the accumulated transform.
    pub fn rref<T: Scalar>(&self, matrix: &mut Matrix<T>) -> (r: (Vec<(usize, usize)>, Matrix<T>))
        requires
            old(matrix).wf(),
        ensures
            final(matrix).wf(),
            final(matrix).m() == old(matrix).m(),
            final(matrix).n() == old(matrix).n(),
            pivots_valid(r.0@, old(matrix).m(), old(matrix).n()),
            r.1.wf(),
            r.1.m() == old(matrix).m(),
            r.1.n() == old(matrix).m(),
            r.0@ == echelon_pivots(old(matrix)@, old(matrix).n()),
            final(matrix)@ == reduced(old(matrix)@, old(matrix).n()).0,
            r.1@ == reduced(old(matrix)@, old(matrix).n()).1,
    {
        let ghost start = matrix@;
        let (pivot_indexes, mut to_inverse) = self.row_echelon_form(matrix);
        let ghost m = matrix.m();
        let ghost n = matrix.n();
        let mut remaining: usize = pivot_indexes.len();
        while remaining > 0
            invariant
                matrix.wf(),
                matrix.m() == m,
                matrix.n() == n,
                to_inverse.wf(),
                to_inverse.m() == m,
                to_inverse.n() == m,
                pivots_valid(pivot_indexes@, m, n),
                remaining <= pivot_indexes@.len(),
                back_run(matrix@, to_inverse@, pivot_indexes@, remaining as int) == reduced(start, n),
            decreases remaining,
        {
            let ghost g = matrix@;
            let ghost t = to_inverse@;
            let (i, j) = pivot_indexes[remaining - 1];
            remaining -= 1;
            let pivot = matrix.get(i - 1, j - 1);
            let mut a: usize = 1;
            assert(matrix@ =~= eliminated_above(g, g, i - 1, j - 1, 0));
            assert(to_inverse@ =~= eliminated_above(t, g, i - 1, j - 1, 0));
            while a < i
                invariant
                    matrix.wf(),
                    matrix.m() == m,
                    matrix.n() == n,
                    to_inverse.wf(),
                    to_inverse.m() == m,
                    to_inverse.n() == m,
                    g.len() == m,
                    t.len() == m,
                    g[i - 1].len() == n,
                    1 <= i <= m,
                    1 <= j <= n,
                    1 <= a <= i,
                    pivot == g[i - 1][j - 1],
                    matrix@ == eliminated_above(g, g, i - 1, j - 1, a - 1),
                    to_inverse@ == eliminated_above(t, g, i - 1, j - 1, a - 1),
                decreases i - a,
            {
                let factor = matrix.get(a - 1, j - 1).over(pivot);
                self.multiply_rows(a, i, factor, matrix);
                self.multiply_rows(a, i, factor, &mut to_inverse);
                assert(matrix@ =~= eliminated_above(g, g, i - 1, j - 1, a as int));
                assert(to_inverse@ =~= eliminated_above(t, g, i - 1, j - 1, a as int));
                a += 1;
            }
            assert(matrix@ =~= eliminated_above(g, g, i - 1, j - 1, i - 1));
            assert(to_inverse@ =~= eliminated_above(t, g, i - 1, j - 1, i - 1));
            let reciprocal = T::one().over(pivot);
            self.multiply_row_by_number(i, reciprocal, matrix);
            self.multiply_row_by_number(i, reciprocal, &mut to_inverse);
        }
        (pivot_indexes, to_inverse)
    }
}

} // verus!
