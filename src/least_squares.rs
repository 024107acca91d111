use vstd::prelude::*;
use crate::decompose::{cholesky_entry, qr_factors, Decomposer};
use crate::scalar::Scalar;
use crate::solver::{has_zero_diagonal, sum_range, Solver};
use crate::matrix::{column_of, gram, Matrix};
use crate::vector::{dot, Vector};
use crate::LinalgError;

verus! {

/// The transpose of a square grid of size `n`.
pub open spec fn transposed<T>(g: Seq<Seq<T>>, n: nat) -> Seq<Seq<T>> {
    Seq::new(n, |i: int| Seq::new(n, |j: int| g[j][i]))
}

/// Whether a square grid of size `n` is the same as its transpose.
pub open spec fn symmetric<T: Scalar>(g: Seq<Seq<T>>, n: nat) -> bool {
    forall|i: int, j: int| 0 <= i < n && 0 <= j < n ==> (#[trigger] g[i][j]).spec_same(g[j][i])
}

/// The steps of the normal equations: `l` is the Cholesky factor of `AᵗA`,
/// `w` solves `l w = Aᵗb` forward, and `x` solves `lᵗ x = w` backward.
pub open spec fn least_squares_steps<T: Scalar>(a: Seq<Seq<T>>, b: Seq<T>, l: Seq<Seq<T>>, w: Seq<T>, x: Seq<T>, n: nat) -> bool {
    let g = gram(a, n);
    let lt = transposed(l, n);
    &&& forall|i: int, j: int| 0 <= i < n && 0 <= j < n ==> #[trigger] cholesky_entry(g, l, i, j)
    &&& forall|i: int| 0 <= i < n ==> #[trigger] w[i] == dot(column_of(a, i), b).spec_minus(sum_range(l[i], w, 0, i)).spec_over(l[i][i])
    &&& forall|i: int| 0 <= i < n ==> #[trigger] x[i] == w[i].spec_minus(sum_range(lt[i], x, i + 1, n as int)).spec_over(lt[i][i])
}

/// Least-squares solutions of overdetermined systems.
pub struct LeastSquares {}

impl LeastSquares {
    pub fn new() -> (r: Self) {
        LeastSquares {}
    }

    /// Solves the normal equations `AᵗA x = Aᵗb` with the Cholesky factor of
    /// `AᵗA`, forward then backward. `ShapeMismatch` when `b` is not as tall
    /// as the matrix; otherwise the errors of `cholesky` and of the
    /// triangular solves.
    pub fn via_cholesky<T: Scalar>(&self, matrix: &Matrix<T>, b: &Vector<T>) -> (r: Result<Vector<T>, LinalgError>)
        requires
            matrix.wf(),
        ensures
            b@.len() != matrix.m() ==> r == Err::<Vector<T>, _>(LinalgError::ShapeMismatch),
            b@.len() == matrix.m() ==> (r == Err::<Vector<T>, _>(LinalgError::NotSymmetric) <==> !symmetric(
                gram(matrix@, matrix.n()),
                matrix.n(),
            )),
            r is Err ==> r == Err::<Vector<T>, _>(LinalgError::ShapeMismatch) || r == Err::<Vector<T>, _>(LinalgError::NotSymmetric)
                || r == Err::<Vector<T>, _>(LinalgError::ZeroDiagonal),
            r matches Ok(x) ==> x@.len() == matrix.n() && exists|l: Seq<Seq<T>>, w: Seq<T>|
                #[trigger] least_squares_steps(matrix@, b@, l, w, x@, matrix.n()),
    {
        if b.components.len() != matrix.rows.len() {
            return Err(LinalgError::ShapeMismatch);
        }
        let transpose = matrix.transpose();
        let a_t_a = transpose.mul_matrix(matrix);
        let a_t_b = transpose.mul_vector(b);
        let ghost n = matrix.n();
        assert forall|i: int| 0 <= i < n implies #[trigger] transpose@[i] == column_of(matrix@, i) by {
            assert forall|c: int| 0 <= c < matrix.m() implies transpose@[i][c] == column_of(matrix@, i)[c] by {
                assert(transpose@[i][c] == transpose.at(i, c));
                assert(matrix@[c][i] == matrix.at(c, i));
            }
            assert(transpose@[i] =~= column_of(matrix@, i));
        }
        assert forall|i: int| 0 <= i < n implies #[trigger] a_t_a@[i] =~= gram(matrix@, n)[i] by {
            assert forall|j: int| 0 <= j < n implies a_t_a@[i][j] == gram(matrix@, n)[i][j] by {
                assert(a_t_a@[i][j] == a_t_a.at(i, j));
            }
        }
        assert(a_t_a@ =~= gram(matrix@, n));
        let decomposer = Decomposer::new();
        let solver = Solver::new();
        let cholesky = match decomposer.cholesky(&a_t_a) {
            Ok(l) => l,
            Err(e) => {
                proof {
                    if symmetric(gram(matrix@, n), n) {
                        assert forall|i: int, j: int| 0 <= i < n && 0 <= j < n implies (#[trigger] a_t_a.at(i, j)).spec_same(a_t_a.at(j, i)) by {
                            assert(a_t_a@[i][j] == a_t_a.at(i, j));
                            assert(a_t_a@[j][i] == a_t_a.at(j, i));
                        }
                    }
                }
                return Err(e);
            },
        };
        proof {
            assert forall|i: int, j: int| 0 <= i < n && 0 <= j < n implies (#[trigger] gram(matrix@, n)[i][j]).spec_same(gram(matrix@, n)[j][i]) by {
                assert(a_t_a@[i][j] == a_t_a.at(i, j));
                assert(a_t_a@[j][i] == a_t_a.at(j, i));
            }
        }
        let w = match solver.foward_substitution(&cholesky, &a_t_b) {
            Ok(w) => w,
            Err(e) => return Err(e),
        };
        let l_t = cholesky.transpose();
        assert forall|i: int| 0 <= i < n implies #[trigger] l_t@[i] =~= transposed(cholesky@, n)[i] by {
            assert forall|j: int| 0 <= j < n implies l_t@[i][j] == transposed(cholesky@, n)[i][j] by {
                assert(l_t@[i][j] == l_t.at(i, j));
                assert(cholesky@[j][i] == cholesky.at(j, i));
            }
        }
        assert(l_t@ =~= transposed(cholesky@, n));
        let result = solver.backward_substitution(&l_t, &w);
        if let Ok(x) = &result {
            assert(least_squares_steps(matrix@, b@, cholesky@, w@, x@, n));
        }
        result
    }

    /// Solves `R x = Qᵗb` with the reduced QR factorization of classical
    /// Gram-Schmidt. `ShapeMismatch` when `b` is not as tall as the matrix;
    /// `ZeroDiagonal` when `R` has a zero on its diagonal.
    pub fn via_qr<T: Scalar>(&self, matrix: &Matrix<T>, b: &Vector<T>) -> (r: Result<Vector<T>, LinalgError>)
        requires
            matrix.wf(),
        ensures
            b@.len() != matrix.m() ==> r == Err::<Vector<T>, _>(LinalgError::ShapeMismatch),
            r is Err ==> r == Err::<Vector<T>, _>(LinalgError::ShapeMismatch) || r == Err::<Vector<T>, _>(LinalgError::ZeroDiagonal),
            r matches Ok(x) ==> x@.len() == matrix.n(),
            b@.len() == matrix.m() ==> exists|q: Seq<Seq<T>>, rr: Seq<Seq<T>>|
                #[trigger] qr_factors(matrix@, q, rr, matrix.n()) && q.len() == matrix.m() && rr.len() == matrix.n()
                    && (r == Err::<Vector<T>, _>(LinalgError::ZeroDiagonal) <==> has_zero_diagonal(rr, matrix.n() as int))
                    && (r matches Ok(x) ==> forall|i: int| 0 <= i < matrix.n() ==> #[trigger] x@[i] == dot(column_of(q, i), b@).spec_minus(
                        sum_range(rr[i], x@, i + 1, matrix.n() as int),
                    ).spec_over(rr[i][i])),
    {
        if b.components.len() != matrix.rows.len() {
            return Err(LinalgError::ShapeMismatch);
        }
        let decomposer = Decomposer::new();
        let solver = Solver::new();
        let (q, r) = decomposer.classical_gs_naive(matrix);
        let q_t = q.transpose();
        let q_t_b = q_t.mul_vector(b);
        assert forall|i: int| 0 <= i < matrix.n() implies #[trigger] q_t_b@[i] == dot(column_of(q@, i), b@) by {
            assert forall|c: int| 0 <= c < matrix.m() implies q_t@[i][c] == column_of(q@, i)[c] by {
                assert(q_t@[i][c] == q_t.at(i, c));
                assert(q@[c][i] == q.at(c, i));
            }
            assert(q_t@[i] =~= column_of(q@, i));
        }
        let result = solver.backward_substitution(&r, &q_t_b);
        assert(qr_factors(matrix@, q@, r@, matrix.n()));
        result
    }
}

} // verus!
