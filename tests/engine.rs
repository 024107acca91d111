use matrices::decompose::Decomposer;
use matrices::elimination::Eliminator;
use matrices::least_squares::LeastSquares;
use matrices::matrix::Matrix;
use matrices::scalar::Scalar;
use matrices::solver::Solver;
use matrices::spaces::Spaces;
use matrices::vector::Vector;
use matrices::LinalgError;

#[derive(Clone, Copy, Debug, PartialEq)]
struct Real(f64);

impl Scalar for Real {
    fn spec_zero() -> Self {
        Real(0.0)
    }
    fn spec_one() -> Self {
        Real(1.0)
    }
    fn spec_plus(self, o: Self) -> Self {
        Real(self.0 + o.0)
    }
    fn spec_minus(self, o: Self) -> Self {
        Real(self.0 - o.0)
    }
    fn spec_times(self, o: Self) -> Self {
        Real(self.0 * o.0)
    }
    fn spec_over(self, o: Self) -> Self {
        Real(self.0 / o.0)
    }
    fn spec_negated(self) -> Self {
        Real(-self.0)
    }
    fn spec_absolute(self) -> Self {
        Real(self.0.abs())
    }
    fn spec_square_root(self) -> Self {
        Real(self.0.sqrt())
    }
    fn spec_is_zero(self) -> bool {
        self.0 == 0.0
    }
    fn spec_is_negative(self) -> bool {
        self.0 < 0.0
    }
    fn spec_exceeds(self, o: Self) -> bool {
        self.0 > o.0
    }
    fn spec_same(self, o: Self) -> bool {
        self.0 == o.0
    }
    fn zero() -> Self {
        Real(0.0)
    }
    fn one() -> Self {
        Real(1.0)
    }
    fn plus(self, o: Self) -> Self {
        Real(self.0 + o.0)
    }
    fn minus(self, o: Self) -> Self {
        Real(self.0 - o.0)
    }
    fn times(self, o: Self) -> Self {
        Real(self.0 * o.0)
    }
    fn over(self, o: Self) -> Self {
        Real(self.0 / o.0)
    }
    fn negated(self) -> Self {
        Real(-self.0)
    }
    fn absolute(self) -> Self {
        Real(self.0.abs())
    }
    fn square_root(self) -> Self {
        Real(self.0.sqrt())
    }
    fn is_zero(self) -> bool {
        self.0 == 0.0
    }
    fn is_negative(self) -> bool {
        self.0 < 0.0
    }
    fn exceeds(self, o: Self) -> bool {
        self.0 > o.0
    }
    fn same_as(self, o: Self) -> bool {
        self.0 == o.0
    }
}

const TOL: f64 = 1e-9;

fn mat(rows: &[&[f64]]) -> Matrix<Real> {
    let rows: Vec<Vec<Real>> = rows.iter().map(|r| r.iter().map(|&x| Real(x)).collect()).collect();
    Matrix::new(&rows).unwrap()
}

fn vector(xs: &[f64]) -> Vector<Real> {
    Vector::create_with_vec(xs.iter().map(|&x| Real(x)).collect())
}

fn values(v: &Vector<Real>) -> Vec<f64> {
    v.components.iter().map(|x| x.0).collect()
}

fn entries(a: &Matrix<Real>) -> Vec<Vec<f64>> {
    a.rows.iter().map(|r| r.iter().map(|x| x.0).collect()).collect()
}

fn assert_close(a: &Matrix<Real>, b: &Matrix<Real>, tol: f64) {
    assert_eq!(a.dimension(), b.dimension());
    let (m, n) = a.dimension();
    for i in 1..=m {
        for j in 1..=n {
            let x = a.element(i, j).unwrap().0;
            let y = b.element(i, j).unwrap().0;
            assert!((x - y).abs() < tol, "entry ({}, {}): {} vs {}", i, j, x, y);
        }
    }
}

fn assert_vec_close(a: &[f64], b: &[f64], tol: f64) {
    assert_eq!(a.len(), b.len());
    for (x, y) in a.iter().zip(b) {
        assert!((x - y).abs() < tol, "{:?} vs {:?}", a, b);
    }
}

#[test]
fn inverse_times_matrix_is_identity() {
    let a = mat(&[&[4.0, 7.0, 2.0], &[3.0, 6.0, 1.0], &[2.0, 5.0, 3.0]]);
    let inv = a.inverse().unwrap();
    assert_close(&inv.mul_matrix(&a), &Matrix::identity(3), TOL);
    assert_close(&a.mul_matrix(&inv), &Matrix::identity(3), TOL);
}

#[test]
fn inverse_rejects_non_square_and_singular() {
    let wide = mat(&[&[1.0, 2.0, 3.0], &[4.0, 5.0, 6.0]]);
    assert!(matches!(wide.inverse(), Err(LinalgError::NotSquare)));
    let singular = mat(&[&[1.0, 2.0], &[2.0, 4.0]]);
    assert!(matches!(singular.inverse(), Err(LinalgError::Singular)));
}

#[test]
fn solve_result_satisfies_system() {
    let a = mat(&[&[2.0, 0.0, 0.0], &[0.0, 4.0, 0.0], &[1.0, 0.0, 1.0]]);
    let b = vector(&[2.0, 8.0, 4.0]);
    let x = Solver::new().solve(&a, &b).unwrap();
    assert_eq!(values(&a.mul_vector(&x)), values(&b));
    assert_eq!(values(&x), vec![1.0, 2.0, 3.0]);
}

#[test]
fn solve_two_by_two_scenario() {
    let a = mat(&[&[2.0, 1.0], &[1.0, 2.0]]);
    let x = Solver::new().solve(&a, &vector(&[3.0, 3.0])).unwrap();
    assert_vec_close(&values(&x), &[1.0, 1.0], TOL);
}

#[test]
fn solve_reports_shape_and_inconsistency() {
    let a = mat(&[&[1.0, 1.0], &[1.0, 1.0]]);
    let solver = Solver::new();
    assert!(matches!(solver.solve(&a, &vector(&[1.0, 2.0, 3.0])), Err(LinalgError::ShapeMismatch)));
    assert!(matches!(solver.solve(&a, &vector(&[1.0, 2.0])), Err(LinalgError::NoSolution)));
}

#[test]
fn generic_solve_stays_in_solution_set() {
    let a = mat(&[&[1.0, 1.0], &[1.0, 1.0]]);
    let b = vector(&[2.0, 2.0]);
    let solver = Solver::new();
    assert_eq!(Spaces::new().null_dimension(&a), 1);
    let x = solver.generic_solve(&a, &b, &vec![Real(0.5)]).unwrap();
    assert_vec_close(&values(&a.mul_vector(&x)), &[2.0, 2.0], TOL);
    assert_vec_close(&values(&x), &[1.5, 0.5], TOL);
    assert!(matches!(solver.generic_solve(&a, &b, &vec![]), Err(LinalgError::ShapeMismatch)));
}

#[test]
fn rank_plus_nullity_is_column_count() {
    let spaces = Spaces::new();
    let cases = [
        mat(&[&[1.0, 2.0, 3.0], &[2.0, 4.0, 6.0]]),
        mat(&[&[1.0, 0.0], &[0.0, 1.0], &[1.0, 1.0]]),
        mat(&[&[1.0, 2.0, 1.0, 0.0], &[0.0, 1.0, 1.0, 1.0], &[1.0, 3.0, 2.0, 1.0]]),
    ];
    for a in cases.iter() {
        let rank = spaces.column_dimension(a);
        let nullity = spaces.null_dimension(a);
        assert_eq!(rank + nullity, a.dimension().1);
        let basis = spaces.null_space(a);
        assert_eq!(basis.len(), nullity);
        for v in basis.iter() {
            for x in values(&a.mul_vector(v)) {
                assert!(x.abs() < TOL);
            }
        }
    }
}

#[test]
fn rank_one_subspaces_scenario() {
    let a = mat(&[&[1.0, 2.0], &[2.0, 4.0]]);
    let spaces = Spaces::new();
    let columns = spaces.column_space(&a);
    assert_eq!(columns.len(), 1);
    assert_eq!(values(&columns[0]), vec![1.0, 2.0]);
    let null = spaces.null_space(&a);
    assert_eq!(null.len(), 1);
    let v = values(&null[0]);
    assert!(v[1] != 0.0);
    assert!((v[0] / v[1] + 2.0).abs() < TOL);
}

#[test]
fn full_rank_has_empty_null_space() {
    let a = mat(&[&[1.0, 2.0], &[3.0, 4.0]]);
    assert!(Spaces::new().null_space(&a).is_empty());
    assert_eq!(Spaces::new().null_dimension(&a), 0);
}

fn check_qr(q: &Matrix<Real>, r: &Matrix<Real>, a: &Matrix<Real>, tol: f64) {
    assert_close(&q.mul_matrix(r), a, tol);
    let n = q.dimension().1;
    assert_close(&q.transpose().mul_matrix(q), &Matrix::identity(n), tol);
}

#[test]
fn qr_variants_round_trip() {
    let a = mat(&[&[12.0, -51.0, 4.0], &[6.0, 167.0, -68.0], &[-4.0, 24.0, -41.0]]);
    let d = Decomposer::new();
    let (q, r) = d.classical_gs_naive(&a);
    check_qr(&q, &r, &a, 1e-8);
    let (q, r) = d.modified_gs(&a);
    check_qr(&q, &r, &a, 1e-8);
    let h = d.householder(&a);
    let r = h.get_r();
    let q = h.get_q();
    check_qr(&q, &r, &a, 1e-8);
    let (q, r) = d.QR_nyoxon(&a);
    check_qr(&q, &r, &a, 1e-8);
}

#[test]
fn qr_of_tall_matrix() {
    let a = mat(&[&[1.0, 1.0], &[1.0, 2.0], &[1.0, 3.0]]);
    let d = Decomposer::new();
    let (q, r) = d.modified_gs(&a);
    assert_eq!(q.dimension(), (3, 2));
    assert_eq!(r.dimension(), (2, 2));
    check_qr(&q, &r, &a, 1e-9);
    let h = d.householder(&a);
    let r = h.get_r();
    let q = h.get_q();
    assert_eq!(q.dimension(), (3, 3));
    assert_close(&q.mul_matrix(&r), &a, 1e-9);
    assert!(r.element(2, 1).unwrap().0.abs() < 1e-9);
    assert!(r.element(3, 2).unwrap().0.abs() < 1e-9);
}

#[test]
fn lu_round_trip() {
    let a = mat(&[&[2.0, 1.0, 1.0], &[4.0, -6.0, 0.0], &[-2.0, 7.0, 2.0]]);
    let (l, u) = Decomposer::new().LU(&a).unwrap();
    assert_close(&l.mul_matrix(&u), &a, TOL);
    assert!(u.element(2, 1).unwrap().0.abs() < TOL);
    assert!(l.element(1, 2).unwrap().0.abs() < TOL);
}

#[test]
fn cholesky_round_trip() {
    let a = mat(&[&[4.0, 12.0, -16.0], &[12.0, 37.0, -43.0], &[-16.0, -43.0, 98.0]]);
    let l = Decomposer::new().cholesky(&a).unwrap();
    assert_eq!(entries(&l), vec![vec![2.0, 0.0, 0.0], vec![6.0, 1.0, 0.0], vec![-8.0, 5.0, 3.0]]);
    assert_close(&l.mul_matrix(&l.transpose()), &a, TOL);
}

#[test]
fn cholesky_two_by_two_scenario() {
    let a = mat(&[&[2.0, 1.0], &[1.0, 2.0]]);
    let l = Decomposer::new().cholesky(&a).unwrap();
    let expected = mat(&[&[2f64.sqrt(), 0.0], &[1.0 / 2f64.sqrt(), 1.5f64.sqrt()]]);
    assert_close(&l, &expected, TOL);
}

#[test]
fn cholesky_rejects_non_symmetric() {
    let d = Decomposer::new();
    assert!(matches!(d.cholesky(&mat(&[&[1.0, 2.0], &[3.0, 4.0]])), Err(LinalgError::NotSymmetric)));
    assert!(matches!(d.cholesky(&mat(&[&[1.0, 2.0, 3.0]])), Err(LinalgError::NotSymmetric)));
}

#[test]
fn cholesky_of_indefinite_gives_nan() {
    let a = mat(&[&[1.0, 2.0], &[2.0, 1.0]]);
    let l = Decomposer::new().cholesky(&a).unwrap();
    assert!(l.element(2, 2).unwrap().0.is_nan());
}

#[test]
fn iterative_solvers_agree_with_exact() {
    let a = mat(&[&[4.0, 1.0], &[2.0, 5.0]]);
    let b = vector(&[5.0, 7.0]);
    let solver = Solver::new();
    let exact = values(&solver.solve(&a, &b).unwrap());
    let j = solver.jacobi_report(&a, &b, Real(1e-10), 1000).unwrap();
    let g = solver.gauss_seidel_report(&a, &b, Real(1e-10), 1000).unwrap();
    assert!(j.converged && g.converged);
    assert!(g.iterations <= j.iterations);
    assert_vec_close(&values(&j.solution), &exact, 1e-8);
    assert_vec_close(&values(&g.solution), &exact, 1e-8);
    let plain = solver.jacobi(&a, &b, Real(1e-10), 1000).unwrap();
    assert_eq!(values(&plain), values(&j.solution));
}

#[test]
fn iterative_solver_stops_at_iteration_limit() {
    let a = mat(&[&[4.0, 1.0], &[1.0, 3.0]]);
    let b = vector(&[1.0, 2.0]);
    let outcome = Solver::new().gauss_seidel_report(&a, &b, Real(0.0), 5).unwrap();
    assert!(!outcome.converged);
    assert_eq!(outcome.iterations, 5);
    let wide = mat(&[&[1.0, 2.0, 3.0]]);
    assert!(matches!(Solver::new().jacobi(&wide, &vector(&[1.0]), Real(1e-6), 10), Err(LinalgError::ShapeMismatch)));
}

#[test]
fn rref_is_idempotent() {
    let e = Eliminator::new();
    let mut a = mat(&[&[1.0, 2.0, 3.0], &[4.0, 5.0, 6.0], &[7.0, 8.0, 10.0]]);
    e.rref(&mut a);
    let once = entries(&a);
    let (pivots, _) = e.rref(&mut a);
    assert_eq!(entries(&a), once);
    assert_eq!(pivots, vec![(1, 1), (2, 2), (3, 3)]);
}

#[test]
fn row_echelon_pivots_and_transform() {
    let e = Eliminator::new();
    let original = mat(&[&[0.0, 2.0, 1.0], &[1.0, 1.0, 1.0], &[2.0, 2.0, 2.0]]);
    let mut a = original.clone();
    let (pivots, t) = e.row_echelon_form(&mut a);
    assert_eq!(pivots, vec![(1, 1), (2, 2)]);
    assert_close(&t.mul_matrix(&original), &a, TOL);
    assert!(Spaces::new().is_staircase(&pivots));
    assert!(!Spaces::new().is_staircase(&vec![(1, 1), (2, 3)]));
}

#[test]
fn elementary_row_operations() {
    let e = Eliminator::new();
    let mut a = mat(&[&[1.0, 2.0], &[3.0, 4.0], &[5.0, 6.0]]);
    e.swap_rows(1, 3, &mut a);
    assert_eq!(entries(&a), vec![vec![5.0, 6.0], vec![3.0, 4.0], vec![1.0, 2.0]]);
    e.multiply_row_by_number(2, Real(2.0), &mut a);
    assert_eq!(entries(&a), vec![vec![5.0, 6.0], vec![6.0, 8.0], vec![1.0, 2.0]]);
    e.multiply_rows(1, 3, Real(5.0), &mut a);
    assert_eq!(entries(&a), vec![vec![0.0, -4.0], vec![6.0, 8.0], vec![1.0, 2.0]]);
}

#[test]
fn substitution_solves_triangular_systems() {
    let solver = Solver::new();
    let l = mat(&[&[2.0, 0.0], &[1.0, 4.0]]);
    assert_eq!(values(&solver.foward_substitution(&l, &vector(&[4.0, 10.0])).unwrap()), vec![2.0, 2.0]);
    let u = mat(&[&[2.0, 1.0], &[0.0, 4.0]]);
    assert_eq!(values(&solver.backward_substitution(&u, &vector(&[4.0, 8.0])).unwrap()), vec![1.0, 2.0]);
    let zero = mat(&[&[1.0, 0.0], &[1.0, 0.0]]);
    assert!(matches!(solver.foward_substitution(&zero, &vector(&[1.0, 1.0])), Err(LinalgError::ZeroDiagonal)));
    assert!(matches!(solver.backward_substitution(&zero, &vector(&[1.0, 1.0])), Err(LinalgError::ZeroDiagonal)));
    assert!(matches!(solver.backward_substitution(&u, &vector(&[1.0])), Err(LinalgError::ShapeMismatch)));
}

#[test]
fn least_squares_fit_line() {
    let a = mat(&[&[1.0, 1.0], &[1.0, 2.0], &[1.0, 3.0]]);
    let b = vector(&[1.0, 2.0, 2.0]);
    let ls = LeastSquares::new();
    let expected = [2.0 / 3.0, 0.5];
    assert_vec_close(&values(&ls.via_cholesky(&a, &b).unwrap()), &expected, 1e-9);
    assert_vec_close(&values(&ls.via_qr(&a, &b).unwrap()), &expected, 1e-9);
    assert!(matches!(ls.via_qr(&a, &vector(&[1.0])), Err(LinalgError::ShapeMismatch)));
    assert!(matches!(ls.via_cholesky(&a, &vector(&[1.0])), Err(LinalgError::ShapeMismatch)));
}

#[test]
fn matrix_construction_and_access() {
    let empty: Vec<Vec<Real>> = vec![];
    assert!(matches!(Matrix::new(&empty), Err(LinalgError::Empty)));
    let ragged = vec![vec![Real(1.0), Real(2.0)], vec![Real(3.0)]];
    assert!(matches!(Matrix::new(&ragged), Err(LinalgError::Ragged)));
    let a = mat(&[&[1.0, 2.0, 3.0], &[4.0, 5.0, 6.0]]);
    assert_eq!(a.dimension(), (2, 3));
    assert_eq!(a.element(2, 3), Some(Real(6.0)));
    assert_eq!(a.element(0, 1), None);
    assert_eq!(a.element(3, 1), None);
    assert_eq!(values(&a.get_line(2).unwrap()), vec![4.0, 5.0, 6.0]);
    assert_eq!(values(&a.get_column(2).unwrap()), vec![2.0, 5.0]);
    assert!(a.get_column(4).is_none());
    assert!(a.get_line(0).is_none());
    assert_eq!(entries(&a.transpose()), vec![vec![1.0, 4.0], vec![2.0, 5.0], vec![3.0, 6.0]]);
    assert_eq!(entries(&a.sub_matrix((1, 2), (2, 3))), vec![vec![2.0, 3.0], vec![5.0, 6.0]]);
    assert_eq!(values(&a.sub_vector((1, 2), 3)), vec![3.0, 6.0]);
    assert_eq!(values(&a.get_sub_column(2, 2, 1)), vec![4.0]);
}

#[test]
fn matrix_mutation_and_blocks() {
    let mut a = Matrix::<Real>::zero(2, 2);
    assert!(a.is_zero());
    a.change_element(1, 2, Real(7.0));
    assert_eq!(entries(&a), vec![vec![0.0, 7.0], vec![0.0, 0.0]]);
    a.change_column(1, &vector(&[1.0, 2.0]));
    assert_eq!(entries(&a), vec![vec![1.0, 7.0], vec![2.0, 0.0]]);
    let d = Matrix::create_with_diagonal(&[Matrix::identity(1), mat(&[&[2.0, 3.0], &[4.0, 5.0]])]);
    assert_eq!(entries(&d), vec![vec![1.0, 0.0, 0.0], vec![0.0, 2.0, 3.0], vec![0.0, 4.0, 5.0]]);
    let mut b = mat(&[&[1.0, 1.0, 1.0], &[1.0, 1.0, 1.0]]);
    b.subtract_by_sub((1, 2), (2, 3), &mat(&[&[1.0, 2.0], &[3.0, 4.0]]));
    assert_eq!(entries(&b), vec![vec![1.0, 0.0, -1.0], vec![1.0, -2.0, -3.0]]);
    let mut c = mat(&[&[1.0, 2.0], &[3.0, 4.0]]);
    c.multiply_by_sub((1, 2), (2, 2), &mat(&[&[0.0, 1.0], &[1.0, 0.0]]));
    assert_eq!(entries(&c), vec![vec![1.0, 4.0], vec![3.0, 2.0]]);
    assert_eq!(mat(&[&[-2.0, 0.0]]).sign(1, 1), Real(-1.0));
    assert_eq!(mat(&[&[-2.0, 0.0]]).sign(1, 2), Real(0.0));
}

#[test]
fn matrix_arithmetic() {
    let a = mat(&[&[1.0, 2.0], &[3.0, 4.0]]);
    let b = mat(&[&[5.0, 6.0], &[7.0, 8.0]]);
    assert_eq!(entries(&a.plus(&b)), vec![vec![6.0, 8.0], vec![10.0, 12.0]]);
    assert_eq!(entries(&b.minus(&a)), vec![vec![4.0, 4.0], vec![4.0, 4.0]]);
    assert_eq!(entries(&a.mul_matrix(&b)), vec![vec![19.0, 22.0], vec![43.0, 50.0]]);
    assert_eq!(entries(&a.scale(Real(2.0))), vec![vec![2.0, 4.0], vec![6.0, 8.0]]);
    assert_eq!(values(&a.mul_vector(&vector(&[1.0, 1.0]))), vec![3.0, 7.0]);
    assert!(a.same_as(&a.duplicate()));
    assert!(!a.same_as(&b));
    assert!(!a.same_as(&a.transpose().sub_matrix((1, 1), (1, 2))));
}

#[test]
fn orthogonal_projector() {
    let v = mat(&[&[3.0, 4.0]]);
    let p = v.ortogonal_projector(true).unwrap();
    assert_close(&p, &mat(&[&[9.0 / 25.0, 12.0 / 25.0], &[12.0 / 25.0, 16.0 / 25.0]]), TOL);
    let a = mat(&[&[1.0], &[1.0]]);
    let p = a.ortogonal_projector(false).unwrap();
    assert_close(&p, &mat(&[&[0.5, 0.5], &[0.5, 0.5]]), TOL);
    let dependent = mat(&[&[1.0, 2.0], &[2.0, 4.0]]);
    assert!(matches!(dependent.ortogonal_projector(false), Err(LinalgError::Singular)));
}

#[test]
fn vector_operations() {
    let empty: Vec<Real> = vec![];
    assert!(Vector::new(&empty).is_none());
    let v = Vector::new(&[Real(3.0), Real(-4.0)]).unwrap();
    assert_eq!(v.size(), 2);
    assert_eq!(v.dimension(), (1, 2));
    assert_eq!(v.element(2), Some(Real(-4.0)));
    assert_eq!(v.element(0), None);
    assert_eq!(v.element(3), None);
    assert_eq!(v.magnitude(), Real(5.0));
    assert_eq!(v.dot_product(&vector(&[1.0, 1.0])), Real(-1.0));
    assert_eq!(values(&v.normalize()), vec![0.6, -0.8]);
    assert_eq!(values(&v.inverse()), vec![-3.0, 4.0]);
    assert_eq!(v.sign(2), Real(-1.0));
    assert_eq!(v.sign(1), Real(1.0));
    assert_eq!(values(&Vector::<Real>::canonical(2, 3)), vec![0.0, 1.0, 0.0]);
    assert!(Vector::<Real>::zero(3).is_zero());
    assert_eq!(values(&vector(&[2.0, 0.0]).proj(&vector(&[1.0, 1.0]))), vec![1.0, 1.0]);
    assert_eq!(vector(&[1.0, -7.0, 3.0]).max_index(0, 3), 1);
    let mut w = vector(&[1.0, 2.0]);
    w.change_element(1, Real(9.0));
    assert_eq!(values(&w), vec![9.0, 2.0]);
    assert_eq!(values(&w.plus(&vector(&[1.0, 1.0]))), vec![10.0, 3.0]);
    assert_eq!(values(&w.minus(&vector(&[1.0, 1.0]))), vec![8.0, 1.0]);
}

#[test]
fn gram_schmidt_orthonormalizes() {
    let vs = vec![vector(&[1.0, 1.0, 0.0]), vector(&[1.0, 0.0, 1.0]), vector(&[0.0, 1.0, 1.0])];
    let q = Decomposer::new().gram_schmidt(vs);
    for i in 0..3 {
        for j in 0..3 {
            let d = q[i].dot_product(&q[j]).0;
            let expected = if i == j { 1.0 } else { 0.0 };
            assert!((d - expected).abs() < TOL);
        }
    }
}

#[test]
fn null_space_free_block_is_identity() {
    let a = mat(&[&[1.0, 2.0, 3.0], &[2.0, 4.0, 6.0]]);
    let basis = Spaces::new().null_space(&a);
    assert_eq!(basis.len(), 2);
    assert_eq!(values(&basis[0]), vec![-2.0, 1.0, 0.0]);
    assert_eq!(values(&basis[1]), vec![-3.0, 0.0, 1.0]);
}

#[test]
fn jacobi_keeps_iterating_when_distance_is_nan() {
    let a = mat(&[&[0.0, 1.0], &[1.0, 0.0]]);
    let b = vector(&[1.0, 1.0]);
    let outcome = Solver::new().jacobi_report(&a, &b, Real(1e-6), 7).unwrap();
    assert!(!outcome.converged);
    assert_eq!(outcome.iterations, 7);
}

#[test]
fn within_compares_distance_to_tolerance() {
    let solver = Solver::new();
    let x = vector(&[1.0, 2.0]);
    let y = vector(&[1.5, 1.0]);
    assert_eq!(solver.distance(&x, &y), Real(1.5));
    assert!(solver.within(&x, &y, Real(2.0)));
    assert!(!solver.within(&x, &y, Real(1.5)));
}
