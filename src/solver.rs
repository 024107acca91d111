use vstd::prelude::*;
use crate::elimination::{echelon_pivots, reduced, Eliminator};
use crate::matrix::Matrix;
use crate::scalar::Scalar;
use crate::spaces::{null_vectors, Spaces};
use crate::vector::{dot, Vector};
use crate::LinalgError;

verus! {

/// The sum of `a[j] * x[j]` over `lo <= j < hi`, added from the left.
pub open spec fn sum_range<T: Scalar>(a: Seq<T>, x: Seq<T>, lo: int, hi: int) -> T
    decreases hi - lo,
{
    if hi <= lo {
        T::spec_zero()
    } else {
        sum_range(a, x, lo, hi - 1).spec_plus(a[hi - 1].spec_times(x[hi - 1]))
    }
}

/// A sum over a range reads only that range of `x`.
pub proof fn lemma_sum_range_frame<T: Scalar>(a: Seq<T>, x: Seq<T>, y: Seq<T>, lo: int, hi: int)
    requires
        forall|j: int| lo <= j < hi ==> x[j] == y[j],
    ensures
        sum_range(a, x, lo, hi) == sum_range(a, y, lo, hi),
    decreases hi - lo,
{
    if hi > lo {
        lemma_sum_range_frame(a, x, y, lo, hi - 1);
    }
}

/// Whether the grid has a zero on its diagonal among its first `n` rows.
pub open spec fn has_zero_diagonal<T: Scalar>(g: Seq<Seq<T>>, n: int) -> bool {
    exists|i: int| 0 <= i < n && (#[trigger] g[i][i]).spec_is_zero()
}

/// The system `[A | b]` as one grid.
pub open spec fn augmented<T: Scalar>(a: Seq<Seq<T>>, b: Seq<T>) -> Seq<Seq<T>> {
    Seq::new(a.len(), |i: int| a[i].push(b[i]))
}

/// The candidate solution of `A x = b` with `A` of `n` columns: the last
/// column of the reduced `[A | b]`, zero for the unknowns past its rows.
pub open spec fn candidate<T: Scalar>(a: Seq<Seq<T>>, b: Seq<T>, n: nat) -> Seq<T> {
    Seq::new(
        n,
        |i: int|
            if i < a.len() {
                reduced(augmented(a, b), n + 1).0[i][n as int]
            } else {
                T::spec_zero()
            },
    )
}

/// Whether every component of `A x` is the same as the matching one of `b`.
pub open spec fn satisfies<T: Scalar>(a: Seq<Seq<T>>, x: Seq<T>, b: Seq<T>) -> bool {
    forall|k: int| 0 <= k < a.len() ==> (#[trigger] dot(a[k], x)).spec_same(b[k])
}

/// The sum of `|x[i] - y[i]|` over the first `k` positions, from the left.
pub open spec fn distance_upto<T: Scalar>(x: Seq<T>, y: Seq<T>, k: int) -> T
    decreases k,
{
    if k <= 0 {
        T::spec_zero()
    } else {
        distance_upto(x, y, k - 1).spec_plus(x[k - 1].spec_minus(y[k - 1]).spec_absolute())
    }
}

/// The sum of `a[j] * x[j]` over `j < k` with `j != skip`, from the left.
pub open spec fn off_diagonal_upto<T: Scalar>(a: Seq<T>, x: Seq<T>, skip: int, k: int) -> T
    decreases k,
{
    if k <= 0 {
        T::spec_zero()
    } else if k - 1 == skip {
        off_diagonal_upto(a, x, skip, k - 1)
    } else {
        off_diagonal_upto(a, x, skip, k - 1).spec_plus(a[k - 1].spec_times(x[k - 1]))
    }
}

/// Component `i` of the update of `x`: `(b[i] - Σ_{j≠i} a[i][j] x[j]) / a[i][i]`.
pub open spec fn component<T: Scalar>(a: Seq<Seq<T>>, b: Seq<T>, x: Seq<T>, i: int) -> T {
    b[i].spec_minus(off_diagonal_upto(a[i], x, i, x.len() as int)).spec_over(a[i][i])
}

/// One Jacobi sweep: every component from the previous iterate.
pub open spec fn jacobi_sweep<T: Scalar>(a: Seq<Seq<T>>, b: Seq<T>, x: Seq<T>) -> Seq<T> {
    Seq::new(x.len(), |i: int| component(a, b, x, i))
}

/// The first `k` components of a Gauss-Seidel sweep, done in place.
pub open spec fn seidel_partial<T: Scalar>(a: Seq<Seq<T>>, b: Seq<T>, x: Seq<T>, k: int) -> Seq<T>
    decreases k,
{
    if k <= 0 {
        x
    } else {
        let y = seidel_partial(a, b, x, k - 1);
        y.update(k - 1, component(a, b, y, k - 1))
    }
}

/// One Gauss-Seidel sweep: each component from the components already
/// updated in the same sweep.
pub open spec fn seidel_sweep<T: Scalar>(a: Seq<Seq<T>>, b: Seq<T>, x: Seq<T>) -> Seq<T> {
    seidel_partial(a, b, x, x.len() as int)
}

/// The iterate after `k` sweeps from the zero vector of length `n`; Jacobi
/// sweeps, or with `seidel` Gauss-Seidel sweeps.
pub open spec fn iterate<T: Scalar>(a: Seq<Seq<T>>, b: Seq<T>, n: nat, seidel: bool, k: int) -> Seq<T>
    decreases k,
{
    if k <= 0 {
        Seq::new(n, |i: int| T::spec_zero())
    } else if seidel {
        seidel_sweep(a, b, iterate(a, b, n, seidel, k - 1))
    } else {
        jacobi_sweep(a, b, iterate(a, b, n, seidel, k - 1))
    }
}

/// Whether sweep `k` brought the iterate within `error` of the one before.
pub open spec fn close_at<T: Scalar>(a: Seq<Seq<T>>, b: Seq<T>, n: nat, seidel: bool, error: T, k: int) -> bool {
    error.spec_exceeds(distance_upto(iterate(a, b, n, seidel, k - 1), iterate(a, b, n, seidel, k), n as int))
}

/// The outcome of iterating from zero with at most `max_iter` sweeps,
/// stopping at the first sweep within `error`, which keeps the iterate before it.
pub open spec fn outcome_matches<T: Scalar>(
    o: IterationOutcome<T>,
    a: Seq<Seq<T>>,
    b: Seq<T>,
    n: nat,
    seidel: bool,
    error: T,
    max_iter: usize,
) -> bool {
    &&& 1 <= o.iterations <= max_iter || (o.iterations == 0 && max_iter == 0)
    &&& forall|k: int| 1 <= k < o.iterations ==> !#[trigger] close_at(a, b, n, seidel, error, k)
    &&& o.converged ==> close_at(a, b, n, seidel, error, o.iterations as int) && o.solution@ == iterate(
        a,
        b,
        n,
        seidel,
        o.iterations - 1,
    )
    &&& !o.converged ==> o.iterations == max_iter && (max_iter == 0 || !close_at(a, b, n, seidel, error, max_iter as int))
        && o.solution@ == iterate(a, b, n, seidel, max_iter as int)
}

/// `x0` plus `c[j]` times `vs[j]` for each `j < k`, added in order.
pub open spec fn shifted<T: Scalar>(x0: Seq<T>, vs: Seq<Seq<T>>, c: Seq<T>, k: int) -> Seq<T>
    decreases k,
{
    if k <= 0 {
        x0
    } else {
        let y = shifted(x0, vs, c, k - 1);
        Seq::new(y.len(), |i: int| y[i].spec_plus(vs[k - 1][i].spec_times(c[k - 1])))
    }
}

/// What an iterative solver returns: the last iterate it kept, how many
/// sweeps it ran, and whether it stopped because the tolerance was met.
pub struct IterationOutcome<T> {
    pub solution: Vector<T>,
    pub iterations: usize,
    pub converged: bool,
}

/// Exact, particular and iterative solvers of linear systems.
pub struct Solver {}

impl Solver {
    pub fn new() -> (r: Self) {
        Solver {}
    }

    /// The matrix `[a | b]`.
    pub fn concatenate<T: Scalar>(&self, a: &Matrix<T>, b: &Matrix<T>) -> (r: Matrix<T>)
        requires
            a.wf(),
            b.wf(),
            a.m() == b.m(),
            a.n() + b.n() <= usize::MAX,
        ensures
            r.wf(),
            r.m() == a.m(),
            r.n() == a.n() + b.n(),
            forall|i: int, j: int| 0 <= i < r.m() && 0 <= j < r.n() ==> #[trigger] r.at(i, j) == if j < a.n() {
                a.at(i, j)
            } else {
                b.at(i, j - a.n())
            },
    {
        let mut new = Matrix::zero(a.rows.len(), a.cols + b.cols);
        new.set_block(0, 0, a);
        new.set_block(0, a.cols, b);
        new
    }

    /// Solves `matrix · x = b` through the reduced row echelon form of
    /// `[matrix | b]`. The unknowns past the last row are taken as zero, and
    /// the candidate is kept only if `matrix · x` equals `b` entry by entry.
    pub fn solve<T: Scalar>(&self, matrix: &Matrix<T>, b: &Vector<T>) -> (r: Result<Vector<T>, LinalgError>)
        requires
            matrix.wf(),
        ensures
            r is Err ==> r == Err::<Vector<T>, _>(LinalgError::ShapeMismatch) || r == Err::<Vector<T>, _>(LinalgError::NoSolution),
            r == Err::<Vector<T>, _>(LinalgError::ShapeMismatch) <==> (b@.len() != matrix.m() || matrix.n() == usize::MAX),
            r == Err::<Vector<T>, _>(LinalgError::NoSolution) <==> (b@.len() == matrix.m() && matrix.n() < usize::MAX
                && !satisfies(matrix@, candidate(matrix@, b@, matrix.n()), b@)),
            r matches Ok(x) ==> x@ == candidate(matrix@, b@, matrix.n()) && satisfies(matrix@, x@, b@),
    {
        let (m, n) = matrix.dimension();
        if b.components.len() != m || n == usize::MAX {
            return Err(LinalgError::ShapeMismatch);
        }
        let b_row = Matrix::create_with_vectors(&[b.duplicate()]);
        let b_column = b_row.transpose();
        assert forall|i: int| 0 <= i < m implies #[trigger] b_column.at(i, 0) == b@[i] by {
            assert(b_row@[0] == b@);
            assert(b_row.at(0, i) == b_row@[0][i]);
        }
        let mut system = self.concatenate(matrix, &b_column);
        assert forall|i: int| 0 <= i < m implies #[trigger] system@[i] =~= augmented(matrix@, b@)[i] by {
            assert forall|j: int| 0 <= j <= n implies system@[i][j] == augmented(matrix@, b@)[i][j] by {
                assert(system@[i][j] == system.at(i, j));
                if j < n {
                    assert(matrix@[i][j] == matrix.at(i, j));
                } else {
                    assert(b_column.at(i, 0) == b@[i]);
                }
            }
        }
        assert(system@ =~= augmented(matrix@, b@));
        let eliminator = Eliminator::new();
        let _ = eliminator.rref(&mut system);
        let ghost cand = candidate(matrix@, b@, n as nat);
        let mut solution = Vector::zero(n);
        let mut i: usize = 0;
        while i < n && i < m
            invariant
                system.wf(),
                system.m() == m,
                system.n() == n + 1,
                system@ == reduced(augmented(matrix@, b@), (n + 1) as nat).0,
                m == matrix.m(),
                n == matrix.n(),
                n < usize::MAX,
                solution@.len() == n,
                cand == candidate(matrix@, b@, n as nat),
                cand.len() == n,
                forall|k: int| 0 <= k < n ==> #[trigger] solution@[k] == if k < i {
                    cand[k]
                } else {
                    T::spec_zero()
                },
            decreases n - i,
        {
            assert(system@[i as int][n as int] == system.at(i as int, n as int));
            assert(cand[i as int] == system@[i as int][n as int]);
            solution.change_element(i + 1, system.get(i, n));
            i += 1;
        }
        assert(solution@ =~= cand);
        let product = matrix.mul_vector(&solution);
        let mut k: usize = 0;
        while k < m
            invariant
                matrix.wf(),
                matrix.m() == m,
                matrix.n() == n,
                n < usize::MAX,
                product@.len() == m,
                b@.len() == m,
                k <= m,
                solution@ == candidate(matrix@, b@, n as nat),
                forall|l: int| 0 <= l < m ==> #[trigger] product@[l] == dot(matrix@[l], solution@),
                forall|l: int| 0 <= l < k ==> (#[trigger] dot(matrix@[l], solution@)).spec_same(b@[l]),
            decreases m - k,
        {
            if !product.components[k].same_as(b.components[k]) {
                assert(!dot(matrix@[k as int], solution@).spec_same(b@[k as int]));
                assert(!satisfies(matrix@, candidate(matrix@, b@, n as nat), b@));
                return Err(LinalgError::NoSolution);
            }
            k += 1;
        }
        Ok(solution)
    }

    /// One point of the solution set of `matrix · x = b`: the exact solution
    /// plus `coefficients[k]` times the k-th vector of the null space basis.
    /// The caller draws the coefficients; `ShapeMismatch` when their number is
    /// not the nullity.
    pub fn generic_solve<T: Scalar>(&self, matrix: &Matrix<T>, b: &Vector<T>, coefficients: &Vec<T>) -> (r: Result<Vector<T>, LinalgError>)
        requires
            matrix.wf(),
        ensures
            (b@.len() != matrix.m() || matrix.n() == usize::MAX) ==> r == Err::<Vector<T>, _>(LinalgError::ShapeMismatch),
            r == Err::<Vector<T>, _>(LinalgError::NoSolution) <==> (b@.len() == matrix.m() && matrix.n() < usize::MAX
                && !satisfies(matrix@, candidate(matrix@, b@, matrix.n()), b@)),
            r is Ok <==> (b@.len() == matrix.m() && matrix.n() < usize::MAX && satisfies(
                matrix@,
                candidate(matrix@, b@, matrix.n()),
                b@,
            ) && coefficients@.len() == matrix.n() - echelon_pivots(matrix@, matrix.n()).len()),
            r is Err ==> r == Err::<Vector<T>, _>(LinalgError::ShapeMismatch) || r == Err::<Vector<T>, _>(LinalgError::NoSolution),
            r matches Ok(x) ==> x@ == shifted(
                candidate(matrix@, b@, matrix.n()),
                null_vectors(matrix@, matrix.n()),
                coefficients@,
                coefficients@.len() as int,
            ),
    {
        let spaces = Spaces::new();
        let null_basis = spaces.null_space(matrix);
        let mut solution = match self.solve(matrix, b) {
            Ok(x) => x,
            Err(e) => return Err(e),
        };
        if coefficients.len() != null_basis.len() {
            return Err(LinalgError::ShapeMismatch);
        }
        let ghost x0 = solution@;
        let mut k: usize = 0;
        while k < null_basis.len()
            invariant
                coefficients@.len() == null_basis@.len(),
                forall|l: int| 0 <= l < null_basis@.len() ==> (#[trigger] null_basis@[l])@.len() == matrix.n(),
                forall|l: int| 0 <= l < null_basis@.len() ==> (#[trigger] null_basis@[l])@ == null_vectors(matrix@, matrix.n())[l],
                solution@.len() == matrix.n(),
                x0.len() == matrix.n(),
                k <= null_basis@.len(),
                solution@ == shifted(x0, null_vectors(matrix@, matrix.n()), coefficients@, k as int),
            decreases null_basis@.len() - k,
        {
            let step = null_basis[k].scale(coefficients[k]);
            solution = solution.plus(&step);
            assert(solution@ =~= shifted(x0, null_vectors(matrix@, matrix.n()), coefficients@, k + 1));
            k += 1;
        }
        Ok(solution)
    }

    /// Solves a lower triangular system from the first unknown to the last.
    /// `ShapeMismatch` unless the matrix is square and as tall as `b`;
    /// `ZeroDiagonal` at the first zero on the diagonal.
    pub fn foward_substitution<T: Scalar>(&self, matrix: &Matrix<T>, b: &Vector<T>) -> (r: Result<Vector<T>, LinalgError>)
        requires
            matrix.wf(),
        ensures
            (matrix.m() != matrix.n() || b@.len() != matrix.m()) <==> r == Err::<Vector<T>, _>(LinalgError::ShapeMismatch),
            (matrix.m() == matrix.n() && b@.len() == matrix.m() && has_zero_diagonal(matrix@, matrix.n() as int)) <==> r
                == Err::<Vector<T>, _>(LinalgError::ZeroDiagonal),
            r is Err ==> r == Err::<Vector<T>, _>(LinalgError::ShapeMismatch) || r == Err::<Vector<T>, _>(LinalgError::ZeroDiagonal),
            r matches Ok(x) ==> x@.len() == matrix.n() && forall|i: int| 0 <= i < matrix.n() ==> #[trigger] x@[i] == b@[i].spec_minus(
                sum_range(matrix@[i], x@, 0, i),
            ).spec_over(matrix@[i][i]),
    {
        let (m, n) = matrix.dimension();
        if m != n || b.components.len() != m {
            return Err(LinalgError::ShapeMismatch);
        }
        let mut i: usize = 0;
        while i < n
            invariant
                matrix.wf(),
                matrix.m() == n,
                matrix.n() == n,
                b@.len() == n,
                i <= n,
                forall|k: int| 0 <= k < i ==> !(#[trigger] matrix@[k][k]).spec_is_zero(),
            decreases n - i,
        {
            assert(matrix@[i as int][i as int] == matrix.at(i as int, i as int));
            if matrix.get(i, i).is_zero() {
                assert(matrix@[i as int][i as int].spec_is_zero());
                return Err(LinalgError::ZeroDiagonal);
            }
            i += 1;
        }
        let mut x = Vector::zero(n);
        let mut i: usize = 0;
        while i < n
            invariant
                matrix.wf(),
                matrix.m() == n,
                matrix.n() == n,
                b@.len() == n,
                x@.len() == n,
                i <= n,
                !has_zero_diagonal(matrix@, n as int),
                forall|k: int| 0 <= k < i ==> #[trigger] x@[k] == b@[k].spec_minus(sum_range(matrix@[k], x@, 0, k)).spec_over(
                    matrix@[k][k],
                ),
            decreases n - i,
        {
            let aii = matrix.get(i, i);
            let mut sum = T::zero();
            let mut j: usize = 0;
            while j < i
                invariant
                    matrix.wf(),
                    matrix.m() == n,
                    matrix.n() == n,
                    x@.len() == n,
                    i < n,
                    j <= i,
                    sum == sum_range(matrix@[i as int], x@, 0, j as int),
                decreases i - j,
            {
                assert(matrix@[i as int][j as int] == matrix.at(i as int, j as int));
                sum = sum.plus(matrix.get(i, j).times(x.components[j]));
                j += 1;
            }
            assert(matrix@[i as int][i as int] == matrix.at(i as int, i as int));
            let ghost before = x@;
            x.change_element(i + 1, b.components[i].minus(sum).over(aii));
            proof {
                assert forall|k: int| 0 <= k <= i implies #[trigger] x@[k] == b@[k].spec_minus(sum_range(matrix@[k], x@, 0, k)).spec_over(
                    matrix@[k][k],
                ) by {
                    lemma_sum_range_frame(matrix@[k], before, x@, 0, k);
                }
            }
            i += 1;
        }
        Ok(x)
    }

    /// Solves an upper triangular system from the last unknown to the first.
    /// `ShapeMismatch` unless the matrix is square and as tall as `b`;
    /// `ZeroDiagonal` at the first zero met on the diagonal.
    pub fn backward_substitution<T: Scalar>(&self, matrix: &Matrix<T>, b: &Vector<T>) -> (r: Result<Vector<T>, LinalgError>)
        requires
            matrix.wf(),
        ensures
            (matrix.m() != matrix.n() || b@.len() != matrix.m()) <==> r == Err::<Vector<T>, _>(LinalgError::ShapeMismatch),
            (matrix.m() == matrix.n() && b@.len() == matrix.m() && has_zero_diagonal(matrix@, matrix.n() as int)) <==> r
                == Err::<Vector<T>, _>(LinalgError::ZeroDiagonal),
            r is Err ==> r == Err::<Vector<T>, _>(LinalgError::ShapeMismatch) || r == Err::<Vector<T>, _>(LinalgError::ZeroDiagonal),
            r matches Ok(x) ==> x@.len() == matrix.n() && forall|i: int| 0 <= i < matrix.n() ==> #[trigger] x@[i] == b@[i].spec_minus(
                sum_range(matrix@[i], x@, i + 1, matrix.n() as int),
            ).spec_over(matrix@[i][i]),
    {
        let (m, n) = matrix.dimension();
        if m != n || b.components.len() != m {
            return Err(LinalgError::ShapeMismatch);
        }
        let mut i: usize = 0;
        while i < n
            invariant
                matrix.wf(),
                matrix.m() == n,
                matrix.n() == n,
                b@.len() == n,
                i <= n,
                forall|k: int| 0 <= k < i ==> !(#[trigger] matrix@[k][k]).spec_is_zero(),
            decreases n - i,
        {
            assert(matrix@[i as int][i as int] == matrix.at(i as int, i as int));
            if matrix.get(i, i).is_zero() {
                assert(matrix@[i as int][i as int].spec_is_zero());
                return Err(LinalgError::ZeroDiagonal);
            }
            i += 1;
        }
        let mut x = Vector::zero(n);
        let mut i: usize = n;
        while i > 0
            invariant
                matrix.wf(),
                matrix.m() == n,
                matrix.n() == n,
                b@.len() == n,
                x@.len() == n,
                i <= n,
                forall|k: int| i <= k < n ==> #[trigger] x@[k] == b@[k].spec_minus(sum_range(matrix@[k], x@, k + 1, n as int)).spec_over(
                    matrix@[k][k],
                ),
            decreases i,
        {
            i -= 1;
            let uii = matrix.get(i, i);
            let mut sum = T::zero();
            let mut j: usize = i + 1;
            while j < n
                invariant
                    matrix.wf(),
                    matrix.m() == n,
                    matrix.n() == n,
                    x@.len() == n,
                    i < n,
                    i < j <= n,
                    sum == sum_range(matrix@[i as int], x@, i + 1, j as int),
                decreases n - j,
            {
                assert(matrix@[i as int][j as int] == matrix.at(i as int, j as int));
                sum = sum.plus(matrix.get(i, j).times(x.components[j]));
                j += 1;
            }
            assert(matrix@[i as int][i as int] == matrix.at(i as int, i as int));
            let ghost before = x@;
            x.change_element(i + 1, b.components[i].minus(sum).over(uii));
            proof {
                assert forall|k: int| i <= k < n implies #[trigger] x@[k] == b@[k].spec_minus(sum_range(matrix@[k], x@, k + 1, n as int)).spec_over(
                    matrix@[k][k],
                ) by {
                    lemma_sum_range_frame(matrix@[k], before, x@, k + 1, n as int);
                }
            }
        }
        Ok(x)
    }

    /// The sum of the absolute differences of two vectors' components.
    pub fn distance<T: Scalar>(&self, x: &Vector<T>, y: &Vector<T>) -> (r: T)
        requires
            x@.len() == y@.len(),
        ensures
            r == distance_upto(x@, y@, x@.len() as int),
    {
        let mut sum = T::zero();
        let mut i: usize = 0;
        while i < x.components.len()
            invariant
                x@.len() == y@.len(),
                i <= x@.len(),
                sum == distance_upto(x@, y@, i as int),
            decreases x@.len() - i,
        {
            sum = sum.plus(x.components[i].minus(y.components[i]).absolute());
            i += 1;
        }
        sum
    }

    /// Component `i` (0-based) of the next Jacobi iterate, computed from the
    /// previous iterate `x` alone.
    pub fn jacobi_component<T: Scalar>(&self, matrix: &Matrix<T>, b: &Vector<T>, x: &Vector<T>, i: usize) -> (r: T)
        requires
            matrix.wf(),
            matrix.m() == matrix.n(),
            b@.len() == matrix.n(),
            x@.len() == matrix.n(),
            i < matrix.n(),
        ensures
            r == component(matrix@, b@, x@, i as int),
    {
        let n = matrix.cols;
        let mut sum = T::zero();
        let mut j: usize = 0;
        while j < n
            invariant
                matrix.wf(),
                matrix.m() == n,
                matrix.n() == n,
                x@.len() == n,
                i < n,
                j <= n,
                sum == off_diagonal_upto(matrix@[i as int], x@, i as int, j as int),
            decreases n - j,
        {
            assert(matrix@[i as int][j as int] == matrix.at(i as int, j as int));
            if i != j {
                sum = sum.plus(matrix.get(i, j).times(x.components[j]));
            }
            j += 1;
        }
        assert(matrix@[i as int][i as int] == matrix.at(i as int, i as int));
        b.components[i].minus(sum).over(matrix.get(i, i))
    }

    /// Whether two successive iterates are within `error` of each other: the
    /// distance between them is below `error`.
    pub fn within<T: Scalar>(&self, x: &Vector<T>, x_new: &Vector<T>, error: T) -> (r: bool)
        requires
            x@.len() == x_new@.len(),
        ensures
            r == error.spec_exceeds(distance_upto(x@, x_new@, x@.len() as int)),
    {
        error.exceeds(self.distance(x, x_new))
    }

    /// Jacobi iteration from the zero vector. Each sweep computes every
    /// component from the previous iterate; the loop stops when the distance
    /// between two iterates falls below `error` (the earlier of the two is
    /// kept) or after `max_iter` sweeps. `ShapeMismatch` unless the matrix is
    /// square and as tall as `b`.
    pub fn jacobi_report<T: Scalar>(&self, matrix: &Matrix<T>, b: &Vector<T>, error: T, max_iter: usize) -> (r: Result<IterationOutcome<T>, LinalgError>)
        requires
            matrix.wf(),
        ensures
            (matrix.m() != matrix.n() || b@.len() != matrix.m()) <==> r is Err,
            r is Err ==> r == Err::<IterationOutcome<T>, _>(LinalgError::ShapeMismatch),
            r matches Ok(o) ==> o.solution@.len() == matrix.n() && outcome_matches(o, matrix@, b@, matrix.n(), false, error, max_iter),
    {
        let (m, n) = matrix.dimension();
        if m != n || b.components.len() != m {
            return Err(LinalgError::ShapeMismatch);
        }
        let mut x = Vector::zero(n);
        let mut iterations: usize = 0;
        assert(x@ =~= iterate(matrix@, b@, n as nat, false, 0));
        while iterations < max_iter
            invariant
                matrix.wf(),
                matrix.m() == n,
                matrix.n() == n,
                b@.len() == n,
                x@.len() == n,
                iterations <= max_iter,
                x@ == iterate(matrix@, b@, n as nat, false, iterations as int),
                forall|k: int| 1 <= k <= iterations ==> !#[trigger] close_at(matrix@, b@, n as nat, false, error, k),
            decreases max_iter - iterations,
        {
            let mut next: Vec<T> = Vec::new();
            let mut i: usize = 0;
            while i < n
                invariant
                    matrix.wf(),
                    matrix.m() == n,
                    matrix.n() == n,
                    b@.len() == n,
                    x@.len() == n,
                    i <= n,
                    next@.len() == i,
                    forall|k: int| 0 <= k < i ==> #[trigger] next@[k] == component(matrix@, b@, x@, k),
                decreases n - i,
            {
                next.push(self.jacobi_component(matrix, b, &x, i));
                i += 1;
            }
            let x_new = Vector::create_with_vec(next);
            assert(x_new@ =~= jacobi_sweep(matrix@, b@, x@));
            iterations += 1;
            if self.within(&x, &x_new, error) {
                return Ok(IterationOutcome { solution: x, iterations, converged: true });
            }
            x = x_new;
        }
        Ok(IterationOutcome { solution: x, iterations, converged: false })
    }

    /// The last iterate of `jacobi_report`.
    pub fn jacobi<T: Scalar>(&self, matrix: &Matrix<T>, b: &Vector<T>, error: T, max_iter: usize) -> (r: Result<Vector<T>, LinalgError>)
        requires
            matrix.wf(),
        ensures
            (matrix.m() != matrix.n() || b@.len() != matrix.m()) <==> r is Err,
            r is Err ==> r == Err::<Vector<T>, _>(LinalgError::ShapeMismatch),
            r matches Ok(x) ==> x@.len() == matrix.n() && exists|o: IterationOutcome<T>|
                #[trigger] outcome_matches(o, matrix@, b@, matrix.n(), false, error, max_iter) && o.solution@ == x@,
    {
        match self.jacobi_report(matrix, b, error, max_iter) {
            Ok(o) => Ok(o.solution),
            Err(e) => Err(e),
        }
    }

    /// Gauss-Seidel iteration from the zero vector: as Jacobi, except that
    /// each component update uses the components already updated in the
    /// same sweep.
    pub fn gauss_seidel_report<T: Scalar>(&self, matrix: &Matrix<T>, b: &Vector<T>, error: T, max_iter: usize) -> (r: Result<IterationOutcome<T>, LinalgError>)
        requires
            matrix.wf(),
        ensures
            (matrix.m() != matrix.n() || b@.len() != matrix.m()) <==> r is Err,
            r is Err ==> r == Err::<IterationOutcome<T>, _>(LinalgError::ShapeMismatch),
            r matches Ok(o) ==> o.solution@.len() == matrix.n() && outcome_matches(o, matrix@, b@, matrix.n(), true, error, max_iter),
    {
        let (m, n) = matrix.dimension();
        if m != n || b.components.len() != m {
            return Err(LinalgError::ShapeMismatch);
        }
        let mut x = Vector::zero(n);
        let mut x_new = x.duplicate();
        let mut iterations: usize = 0;
        assert(x@ =~= iterate(matrix@, b@, n as nat, true, 0));
        while iterations < max_iter
            invariant
                matrix.wf(),
                matrix.m() == n,
                matrix.n() == n,
                b@.len() == n,
                x@.len() == n,
                x_new@ == x@,
                iterations <= max_iter,
                x@ == iterate(matrix@, b@, n as nat, true, iterations as int),
                forall|k: int| 1 <= k <= iterations ==> !#[trigger] close_at(matrix@, b@, n as nat, true, error, k),
            decreases max_iter - iterations,
        {
            let mut i: usize = 0;
            while i < n
                invariant
                    matrix.wf(),
                    matrix.m() == n,
                    matrix.n() == n,
                    b@.len() == n,
                    x@.len() == n,
                    x_new@.len() == n,
                    i <= n,
                    x_new@ == seidel_partial(matrix@, b@, x@, i as int),
                decreases n - i,
            {
                let element = self.jacobi_component(matrix, b, &x_new, i);
                x_new.change_element(i + 1, element);
                i += 1;
            }
            iterations += 1;
            if self.within(&x, &x_new, error) {
                return Ok(IterationOutcome { solution: x, iterations, converged: true });
            }
            x = x_new.duplicate();
        }
        Ok(IterationOutcome { solution: x, iterations, converged: false })
    }

    /// The last iterate of `gauss_seidel_report`.
    pub fn gauss_seidel<T: Scalar>(&self, matrix: &Matrix<T>, b: &Vector<T>, error: T, max_iter: usize) -> (r: Result<Vector<T>, LinalgError>)
        requires
            matrix.wf(),
        ensures
            (matrix.m() != matrix.n() || b@.len() != matrix.m()) <==> r is Err,
            r is Err ==> r == Err::<Vector<T>, _>(LinalgError::ShapeMismatch),
            r matches Ok(x) ==> x@.len() == matrix.n() && exists|o: IterationOutcome<T>|
                #[trigger] outcome_matches(o, matrix@, b@, matrix.n(), true, error, max_iter) && o.solution@ == x@,
    {
        match self.gauss_seidel_report(matrix, b, error, max_iter) {
            Ok(o) => Ok(o.solution),
            Err(e) => Err(e),
        }
    }
}

} // verus!
