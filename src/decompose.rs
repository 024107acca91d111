use vstd::prelude::*;
use crate::elimination::{echelon, echelon_pivots, identity_grid, reduced, Eliminator};
use crate::matrix::{block_of, column_of, Matrix};
use crate::scalar::Scalar;
use crate::vector::{dot, magnitude_of, Vector};
use crate::solver::sum_range;
use crate::LinalgError;

verus! {

/// The reflection vector of Householder step `k` (0-based) on a grid `r` of
/// `m` rows: the sub-column `x` below the diagonal plus `sign(x[0]) |x|` in
/// its first entry, normalized.
pub open spec fn house_vector<T: Scalar>(r: Seq<Seq<T>>, k: int, m: int) -> Seq<T> {
    let x = Seq::new((m - k) as nat, |a: int| r[k + a][k]);
    let s = if x[0].spec_is_negative() {
        T::spec_one().spec_negated()
    } else {
        T::spec_one()
    };
    let c = s.spec_times(magnitude_of(x));
    normalized(
        Seq::new(
            (m - k) as nat,
            |a: int|
                (if a == 0 {
                    T::spec_one()
                } else {
                    T::spec_zero()
                }).spec_times(c).spec_plus(x[a]),
        ),
    )
}

/// Entry (a, b) of `2 v vᵗ active`, in the order the step computes it.
pub open spec fn reflected_entry<T: Scalar>(v: Seq<T>, active: Seq<Seq<T>>, a: int, b: int) -> T {
    dot(seq![v[a]], seq![dot(v, column_of(active, b))]).spec_times(T::spec_one().spec_plus(T::spec_one()))
}

/// Householder step `k` on a grid of `m` rows and `n` columns: the block from
/// (k, k) on loses its reflection along the step's vector.
pub open spec fn house_step<T: Scalar>(r: Seq<Seq<T>>, k: int, m: int, n: int) -> Seq<Seq<T>> {
    let v = house_vector(r, k, m);
    let active = block_of(r, k, k, (m - k) as nat, (n - k) as nat);
    Seq::new(
        r.len(),
        |i: int|
            Seq::new(
                r[i].len(),
                |j: int|
                    if k <= i < m && k <= j < n {
                        r[i][j].spec_minus(reflected_entry(v, active, i - k, j - k))
                    } else {
                        r[i][j]
                    },
            ),
    )
}

/// The grid after the first `k` Householder steps.
pub open spec fn house_run<T: Scalar>(r: Seq<Seq<T>>, k: int, m: int, n: int) -> Seq<Seq<T>>
    decreases k,
{
    if k <= 0 {
        r
    } else {
        house_step(house_run(r, k - 1, m, n), k - 1, m, n)
    }
}

/// The full-size reflector of step `k` along `v`: the identity of size `m`
/// whose block from (k, k) on is `I - 2 v vᵗ / (vᵗ v)`, in the order the
/// step computes it.
pub open spec fn reflector<T: Scalar>(v: Seq<T>, k: int, m: nat) -> Seq<Seq<T>> {
    let two = T::spec_one().spec_plus(T::spec_one());
    Seq::new(
        m,
        |i: int|
            Seq::new(
                m,
                |j: int|
                    if k <= i && k <= j {
                        (if i == j {
                            T::spec_one()
                        } else {
                            T::spec_zero()
                        }).spec_minus(
                            dot(seq![v[i - k]], seq![v[j - k]]).spec_times(T::spec_one().spec_over(dot(v, v))).spec_times(two),
                        )
                    } else if i == j {
                        T::spec_one()
                    } else {
                        T::spec_zero()
                    },
            ),
    )
}

/// The product of two square grids of size `m`.
pub open spec fn product<T: Scalar>(a: Seq<Seq<T>>, b: Seq<Seq<T>>, m: nat) -> Seq<Seq<T>> {
    Seq::new(m, |i: int| Seq::new(m, |j: int| dot(a[i], column_of(b, j))))
}

/// The result of a Householder QR factorization: `R`, and the reflection
/// vector of each step, from which `Q` is assembled on demand.
pub struct Houlseholder<T> {
    r: Matrix<T>,
    vectors: Vec<Matrix<T>>,
}

impl<T: Scalar> Houlseholder<T> {
    /// `R` is `m` by `n`, and the k-th reflection vector (from 0) is a row of
    /// length `m - k`, one for each of the first `min(m, n)` steps.
    pub closed spec fn wf(&self) -> bool {
        &&& self.r.wf()
        &&& self.vectors@.len() == if self.r.m() <= self.r.n() { self.r.m() } else { self.r.n() }
        &&& forall|k: int| 0 <= k < self.vectors@.len() ==> (#[trigger] self.vectors@[k]).wf()
            && self.vectors@[k].m() == 1 && self.vectors@[k].n() == self.r.m() - k
    }

    pub closed spec fn m(&self) -> nat {
        self.r.m()
    }

    /// The factor `R`.
    pub closed spec fn r_grid(&self) -> Seq<Seq<T>> {
        self.r@
    }

    /// The reflection vector of step `k`.
    pub closed spec fn reflection(&self, k: int) -> Seq<T> {
        self.vectors@[k]@[0]
    }

    /// The product of the reflectors of the first `k` steps, the latest on
    /// the left.
    pub open spec fn reflectors_upto(&self, k: int) -> Seq<Seq<T>>
        decreases k,
    {
        if k <= 0 {
            identity_grid(self.m())
        } else {
            product(reflector(self.reflection(k - 1), k - 1, self.m()), self.reflectors_upto(k - 1), self.m())
        }
    }

    /// The number of steps: the smaller of the row and the column count.
    pub open spec fn steps(&self) -> int {
        if self.m() <= self.n() {
            self.m() as int
        } else {
            self.n() as int
        }
    }

    pub closed spec fn n(&self) -> nat {
        self.r.n()
    }

    /// `Q`, square of the row count: the transpose of the product of the
    /// reflectors, the k-th one acting on rows `k..m` and fixing the others.
    pub fn get_q(self) -> (r: Matrix<T>)
        requires
            self.wf(),
        ensures
            r.wf(),
            r.m() == self.m(),
            r.n() == self.m(),
            forall|i: int, j: int| 0 <= i < self.m() && 0 <= j < self.m() ==> #[trigger] r.at(i, j) == self.reflectors_upto(
                self.steps(),
            )[j][i],
    {
        let (m, n) = self.r.dimension();
        let steps = if m <= n { m } else { n };
        let mut q_transpose = Matrix::identity(m);
        assert forall|i: int| 0 <= i < m implies #[trigger] q_transpose@[i] =~= identity_grid::<T>(m as nat)[i] by {
            assert forall|j: int| 0 <= j < m implies q_transpose@[i][j] == identity_grid::<T>(m as nat)[i][j] by {
                assert(q_transpose@[i][j] == q_transpose.at(i, j));
            }
        }
        assert(q_transpose@ =~= identity_grid::<T>(m as nat));
        let mut k: usize = 0;
        while k < steps
            invariant
                self.wf(),
                m == self.r.m(),
                n == self.r.n(),
                steps == self.vectors@.len(),
                steps <= m,
                k <= steps,
                q_transpose.wf(),
                q_transpose.m() == m,
                q_transpose.n() == m,
                q_transpose@ == self.reflectors_upto(k as int),
            decreases steps - k,
        {
            let size = m - k;
            let ort_proj = match self.vectors[k].ortogonal_projector(true) {
                Ok(p) => p,
                Err(_) => Matrix::zero(size, size),
            };
            let identity = Matrix::identity(size);
            let reflection = identity.minus(&ort_proj.scale(T::one().plus(T::one())));
            let mut qk = Matrix::identity(m);
            qk.set_block(k, k, &reflection);
            proof {
                let v = self.reflection(k as int);
                let vm = self.vectors@[k as int];
                assert forall|i: int| 0 <= i < size implies #[trigger] column_of(vm@, i) =~= seq![v[i]] by {}
                assert forall|i: int| 0 <= i < m implies #[trigger] qk@[i] =~= reflector(v, k as int, m as nat)[i] by {
                    assert forall|j: int| 0 <= j < m implies qk@[i][j] == reflector(v, k as int, m as nat)[i][j] by {
                        assert(qk@[i][j] == qk.at(i, j));
                        if k <= i && k <= j {
                            assert(column_of(vm@, i - k) =~= seq![v[i - k]]);
                            assert(column_of(vm@, j - k) =~= seq![v[j - k]]);
                        }
                    }
                }
                assert(qk@ =~= reflector(v, k as int, m as nat));
            }
            let ghost before = q_transpose@;
            q_transpose = qk.mul_matrix(&q_transpose);
            proof {
                assert forall|i: int| 0 <= i < m implies #[trigger] q_transpose@[i] =~= product(qk@, before, m as nat)[i] by {
                    assert forall|j: int| 0 <= j < m implies q_transpose@[i][j] == product(qk@, before, m as nat)[i][j] by {
                        assert(q_transpose@[i][j] == q_transpose.at(i, j));
                    }
                }
                assert(q_transpose@ =~= product(qk@, before, m as nat));
            }
            k += 1;
        }
        let q = q_transpose.transpose();
        assert forall|i: int, j: int| 0 <= i < m && 0 <= j < m implies #[trigger] q.at(i, j) == self.reflectors_upto(self.steps())[j][i] by {
            assert(q_transpose@[j][i] == q_transpose.at(j, i));
        }
        q
    }

    pub fn get_r(&self) -> (r: Matrix<T>)
        requires
            self.wf(),
        ensures
            r.wf(),
            r.m() == self.m(),
            r.n() == self.n(),
            r@ == self.r_grid(),
    {
        self.r.duplicate()
    }
}

/// Entry (i, j) of the Cholesky factor `l` of `a`: zero above the diagonal;
/// on it, the square root of `a[i][i]` minus the squares of the earlier
/// entries of row `i`; below it, `a[i][j]` minus the products of rows `i` and
/// `j` over the earlier columns, divided by `l[j][j]`.
pub open spec fn cholesky_entry<T: Scalar>(a: Seq<Seq<T>>, l: Seq<Seq<T>>, i: int, j: int) -> bool {
    if j > i {
        l[i][j] == T::spec_zero()
    } else if i == j {
        l[i][i] == a[i][i].spec_minus(sum_range(l[i], l[i], 0, i)).spec_square_root()
    } else {
        l[i][j] == a[i][j].spec_minus(sum_range(l[i], l[j], 0, j)).spec_over(l[j][j])
    }
}

/// A sum over a range reads only that range of both sequences.
proof fn lemma_sum_frame<T: Scalar>(a: Seq<T>, x: Seq<T>, a2: Seq<T>, x2: Seq<T>, lo: int, hi: int)
    requires
        forall|j: int| lo <= j < hi ==> a[j] == a2[j] && x[j] == x2[j],
    ensures
        sum_range(a, x, lo, hi) == sum_range(a2, x2, lo, hi),
    decreases hi - lo,
{
    if hi > lo {
        lemma_sum_frame(a, x, a2, x2, lo, hi - 1);
    }
}

/// The values held by a sequence of vectors.
pub open spec fn views<T: Scalar>(s: Seq<Vector<T>>) -> Seq<Seq<T>> {
    Seq::new(s.len(), |k: int| s[k]@)
}

/// `vs[i]` after the projections onto `qs[0..j]` were taken away in order,
/// each coefficient being the dot product of `qs[l]` with the original `vs[i]`.
pub open spec fn remainder<T: Scalar>(vs: Seq<Seq<T>>, qs: Seq<Seq<T>>, i: int, j: int) -> Seq<T>
    decreases j,
{
    if j <= 0 {
        vs[i]
    } else {
        let prev = remainder(vs, qs, i, j - 1);
        let d = dot(qs[j - 1], vs[i]);
        Seq::new(prev.len(), |c: int| prev[c].spec_minus(qs[j - 1][c].spec_times(d)))
    }
}

/// `q` and `r` are the Gram-Schmidt factors of `a` (with `n` columns):
/// column k of `q` is the normalized remainder of column k of `a` against the
/// earlier columns of `q`, `r` holds the magnitudes of the remainders on its
/// diagonal, the dot products of the columns of `q` with those of `a` above
/// it, and zero below it.
pub open spec fn qr_factors<T: Scalar>(a: Seq<Seq<T>>, q: Seq<Seq<T>>, r: Seq<Seq<T>>, n: nat) -> bool {
    &&& forall|k: int| 0 <= k < n ==> #[trigger] column_of(q, k) == normalized(remainder(columns(a, n), columns(q, n), k, k))
    &&& forall|k: int| 0 <= k < n ==> #[trigger] r[k][k] == magnitude_of(remainder(columns(a, n), columns(q, n), k, k))
    &&& forall|i: int, k: int| 0 <= i < k < n ==> #[trigger] r[i][k] == dot(column_of(q, i), column_of(a, k))
    &&& forall|i: int, k: int| 0 <= k < i < n ==> #[trigger] r[i][k] == T::spec_zero()
}

/// The columns of a grid with `n` columns.
pub open spec fn columns<T>(g: Seq<Seq<T>>, n: nat) -> Seq<Seq<T>> {
    Seq::new(n, |j: int| column_of(g, j))
}

/// A remainder reads only the first `j` vectors of `qs`.
proof fn lemma_remainder_prefix<T: Scalar>(vs: Seq<Seq<T>>, qs: Seq<Seq<T>>, qs2: Seq<Seq<T>>, i: int, j: int)
    requires
        j <= qs.len(),
        j <= qs2.len(),
        forall|l: int| 0 <= l < j ==> qs[l] == qs2[l],
    ensures
        remainder(vs, qs, i, j) == remainder(vs, qs2, i, j),
    decreases j,
{
    if j > 0 {
        lemma_remainder_prefix(vs, qs, qs2, i, j - 1);
    }
}

/// A sequence divided by its magnitude, entry by entry.
pub open spec fn normalized<T: Scalar>(v: Seq<T>) -> Seq<T> {
    Seq::new(v.len(), |c: int| v[c].spec_over(magnitude_of(v)))
}

/// QR, LU and Cholesky factorizations.
pub struct Decomposer {}

impl Decomposer {
    pub fn new() -> (r: Self) {
        Decomposer {}
    }

    /// Classical Gram-Schmidt: each vector minus its projections onto the
    /// vectors already orthonormalized, then normalized.
    pub fn gram_schmidt<T: Scalar>(&self, vectors: Vec<Vector<T>>) -> (r: Vec<Vector<T>>)
        requires
            forall|k: int| 0 <= k < vectors@.len() ==> (#[trigger] vectors@[k])@.len() == vectors@[0]@.len(),
        ensures
            r@.len() == vectors@.len(),
            forall|k: int| 0 <= k < r@.len() ==> (#[trigger] r@[k])@.len() == vectors@[0]@.len(),
            forall|k: int| 0 <= k < r@.len() ==> (#[trigger] r@[k])@ == normalized(remainder(views(vectors@), views(r@), k, k)),
    {
        let ghost d = vectors@[0]@.len();
        let mut ort_vectors: Vec<Vector<T>> = Vec::new();
        let mut i: usize = 0;
        while i < vectors.len()
            invariant
                forall|k: int| 0 <= k < vectors@.len() ==> (#[trigger] vectors@[k])@.len() == d,
                d == vectors@[0]@.len(),
                i <= vectors@.len(),
                ort_vectors@.len() == i,
                forall|k: int| 0 <= k < i ==> (#[trigger] ort_vectors@[k])@.len() == d,
                forall|k: int| 0 <= k < i ==> (#[trigger] ort_vectors@[k])@ == normalized(remainder(views(vectors@), views(ort_vectors@), k, k)),
            decreases vectors@.len() - i,
        {
            let actual = &vectors[i];
            let mut ort_vec = actual.duplicate();
            let mut j: usize = 0;
            while j < i
                invariant
                    forall|k: int| 0 <= k < vectors@.len() ==> (#[trigger] vectors@[k])@.len() == d,
                    i < vectors@.len(),
                    ort_vectors@.len() == i,
                    forall|k: int| 0 <= k < i ==> (#[trigger] ort_vectors@[k])@.len() == d,
                    actual@ == vectors@[i as int]@,
                    ort_vec@.len() == d,
                    j <= i,
                    ort_vec@ == remainder(views(vectors@), views(ort_vectors@), i as int, j as int),
                decreases i - j,
            {
                let qj = &ort_vectors[j];
                let coefficient = qj.dot_product(actual);
                ort_vec = ort_vec.minus(&qj.scale(coefficient));
                assert(ort_vec@ =~= remainder(views(vectors@), views(ort_vectors@), i as int, j + 1));
                j += 1;
            }
            let ghost prefix = ort_vectors@;
            let q = ort_vec.normalize();
            assert(q@ =~= normalized(ort_vec@));
            ort_vectors.push(q);
            proof {
                assert forall|k: int, j2: int| 0 <= k <= i && 0 <= j2 <= k implies #[trigger] remainder(
                    views(vectors@),
                    views(ort_vectors@),
                    k,
                    j2,
                ) == remainder(views(vectors@), views(prefix), k, j2) by {
                    lemma_remainder_prefix(views(vectors@), views(prefix), views(ort_vectors@), k, j2);
                }
            }
            i += 1;
        }
        ort_vectors
    }

    /// QR by classical Gram-Schmidt: column j of `Q` is column j of the
    /// matrix minus its projections onto the earlier columns of `Q`,
    /// normalized; the coefficients fill the upper triangle of `R`, the
    /// magnitudes of the remainders its diagonal.
    pub fn classical_gs_naive<T: Scalar>(&self, matrix: &Matrix<T>) -> (r: (Matrix<T>, Matrix<T>))
        requires
            matrix.wf(),
        ensures
            r.0.wf(),
            r.0.m() == matrix.m(),
            r.0.n() == matrix.n(),
            r.1.wf(),
            r.1.m() == matrix.n(),
            r.1.n() == matrix.n(),
            qr_factors(matrix@, r.0@, r.1@, matrix.n()),
    {
        let (m, n) = matrix.dimension();
        let ghost cols_a = columns(matrix@, n as nat);
        let mut q = matrix.duplicate();
        let mut r = Matrix::zero(n, n);
        let mut j: usize = 0;
        while j < n
            invariant
                matrix.wf(),
                matrix.m() == m,
                matrix.n() == n,
                cols_a == columns(matrix@, n as nat),
                q.wf(),
                q.m() == m,
                q.n() == n,
                r.wf(),
                r.m() == n,
                r.n() == n,
                j <= n,
                forall|k: int| j <= k < n ==> #[trigger] column_of(q@, k) == column_of(matrix@, k),
                forall|k: int| 0 <= k < j ==> #[trigger] column_of(q@, k) == normalized(remainder(cols_a, columns(q@, n as nat), k, k)),
                forall|k: int| 0 <= k < j ==> #[trigger] r.at(k, k) == magnitude_of(remainder(cols_a, columns(q@, n as nat), k, k)),
                forall|i: int, k: int| 0 <= i < k < j ==> #[trigger] r.at(i, k) == dot(column_of(q@, i), column_of(matrix@, k)),
                forall|i: int, k: int| 0 <= k < n && 0 <= i < n && (k < i || k >= j) ==> #[trigger] r.at(i, k) == T::spec_zero(),
            decreases n - j,
        {
            let mut v = Self::column(&q, j + 1);
            let a_j = Self::column(matrix, j + 1);
            let mut i: usize = 0;
            assert(v@ == remainder(cols_a, columns(q@, n as nat), j as int, 0));
            while i < j
                invariant
                    matrix.wf(),
                    matrix.m() == m,
                    matrix.n() == n,
                    cols_a == columns(matrix@, n as nat),
                    q.wf(),
                    q.m() == m,
                    q.n() == n,
                    r.wf(),
                    r.m() == n,
                    r.n() == n,
                    i <= j < n,
                    v@.len() == m,
                    a_j@ == column_of(matrix@, j as int),
                    v@ == remainder(cols_a, columns(q@, n as nat), j as int, i as int),
                    forall|k: int| j <= k < n ==> #[trigger] column_of(q@, k) == column_of(matrix@, k),
                    forall|k: int| 0 <= k < j ==> #[trigger] column_of(q@, k) == normalized(remainder(cols_a, columns(q@, n as nat), k, k)),
                    forall|k: int| 0 <= k < j ==> #[trigger] r.at(k, k) == magnitude_of(remainder(cols_a, columns(q@, n as nat), k, k)),
                    forall|i2: int, k: int| 0 <= i2 < k < j ==> #[trigger] r.at(i2, k) == dot(column_of(q@, i2), column_of(matrix@, k)),
                    forall|i2: int| 0 <= i2 < i ==> #[trigger] r.at(i2, j as int) == dot(column_of(q@, i2), column_of(matrix@, j as int)),
                    forall|i2: int, k: int| 0 <= k < n && 0 <= i2 < n && (k < i2 || k > j || (k == j && i2 >= i)) ==> #[trigger] r.at(i2, k) == T::spec_zero(),
                decreases j - i,
            {
                let w = Self::column(&q, i + 1);
                let coefficient = w.dot_product(&a_j);
                r.change_element(i + 1, j + 1, coefficient);
                v = v.minus(&w.scale(coefficient));
                assert(v@ =~= remainder(cols_a, columns(q@, n as nat), j as int, i + 1));
                i += 1;
            }
            let ghost q_before = q@;
            let magnitude = v.magnitude();
            r.change_element(j + 1, j + 1, magnitude);
            let unit = v.normalize();
            q.change_column(j + 1, &unit);
            proof {
                assert forall|k: int| 0 <= k < n implies #[trigger] column_of(q@, k) == if k == j {
                    unit@
                } else {
                    column_of(q_before, k)
                } by {
                    assert forall|c: int| 0 <= c < m implies column_of(q@, k)[c] == (if k == j {
                        unit@
                    } else {
                        column_of(q_before, k)
                    })[c] by {
                        assert(q@[c][k] == q.at(c, k));
                    }
                    assert(column_of(q@, k) =~= if k == j {
                        unit@
                    } else {
                        column_of(q_before, k)
                    });
                }
                assert forall|k: int| 0 <= k <= j implies remainder(cols_a, columns(q@, n as nat), k, k) == remainder(
                    cols_a,
                    columns(q_before, n as nat),
                    k,
                    k,
                ) by {
                    lemma_remainder_prefix(cols_a, columns(q@, n as nat), columns(q_before, n as nat), k, k);
                }
                assert(unit@ =~= normalized(v@));
            }
            j += 1;
        }
        proof {
            assert forall|i: int, k: int| 0 <= i < n && 0 <= k < n implies #[trigger] r@[i][k] == r.at(i, k) by {}
            assert forall|k: int| 0 <= k < n implies #[trigger] r@[k][k] == magnitude_of(remainder(cols_a, columns(q@, n as nat), k, k)) by {
                assert(r@[k][k] == r.at(k, k));
            }
            assert forall|i: int, k: int| 0 <= i < k < n implies #[trigger] r@[i][k] == dot(column_of(q@, i), column_of(matrix@, k)) by {
                assert(r@[i][k] == r.at(i, k));
            }
            assert forall|i: int, k: int| 0 <= k < i < n implies #[trigger] r@[i][k] == T::spec_zero() by {
                assert(r@[i][k] == r.at(i, k));
            }
        }
        (q, r)
    }

    /// Column `j` (1-based) of a matrix.
    fn column<T: Scalar>(matrix: &Matrix<T>, j: usize) -> (r: Vector<T>)
        requires
            matrix.wf(),
            1 <= j <= matrix.n(),
        ensures
            r@.len() == matrix.m(),
            r@ == column_of(matrix@, j - 1),
    {
        let r = matrix.get_sub_column(1, matrix.rows.len(), j);
        assert forall|i: int| 0 <= i < matrix.m() implies r@[i] == column_of(matrix@, j - 1)[i] by {
            assert(matrix@[i][j - 1] == matrix.at(i, j - 1));
        }
        assert(r@ =~= column_of(matrix@, j - 1));
        r
    }

    /// QR by modified Gram-Schmidt: as soon as column j of `Q` is final,
    /// every later column is orthogonalized against it, with the coefficient
    /// taken against the original column. The factors are those of
    /// `classical_gs_naive`, reached in another order.
    pub fn modified_gs<T: Scalar>(&self, matrix: &Matrix<T>) -> (r: (Matrix<T>, Matrix<T>))
        requires
            matrix.wf(),
        ensures
            r.0.wf(),
            r.0.m() == matrix.m(),
            r.0.n() == matrix.n(),
            r.1.wf(),
            r.1.m() == matrix.n(),
            r.1.n() == matrix.n(),
            qr_factors(matrix@, r.0@, r.1@, matrix.n()),
    {
        let (m, n) = matrix.dimension();
        let ghost cols_a = columns(matrix@, n as nat);
        let mut q = matrix.duplicate();
        let mut r = Matrix::zero(n, n);
        let mut j: usize = 0;
        while j < n
            invariant
                matrix.wf(),
                matrix.m() == m,
                matrix.n() == n,
                cols_a == columns(matrix@, n as nat),
                q.wf(),
                q.m() == m,
                q.n() == n,
                r.wf(),
                r.m() == n,
                r.n() == n,
                j <= n,
                forall|k: int| j <= k < n ==> #[trigger] column_of(q@, k) == remainder(cols_a, columns(q@, n as nat), k, j as int),
                forall|k: int| 0 <= k < j ==> #[trigger] column_of(q@, k) == normalized(remainder(cols_a, columns(q@, n as nat), k, k)),
                forall|k: int| 0 <= k < j ==> #[trigger] r.at(k, k) == magnitude_of(remainder(cols_a, columns(q@, n as nat), k, k)),
                forall|i: int, k: int| 0 <= i < j && i < k < n ==> #[trigger] r.at(i, k) == dot(column_of(q@, i), column_of(matrix@, k)),
                forall|i: int, k: int| 0 <= k < n && 0 <= i < n && (k < i || i >= j) ==> #[trigger] r.at(i, k) == T::spec_zero(),
            decreases n - j,
        {
            let v = Self::column(&q, j + 1);
            let magnitude = v.magnitude();
            r.change_element(j + 1, j + 1, magnitude);
            let w = v.normalize();
            let ghost q0 = q@;
            q.change_column(j + 1, &w);
            proof {
                assert(w@ =~= normalized(v@));
                assert forall|k: int| 0 <= k < n implies remainder(cols_a, columns(q@, n as nat), k, j as int) == remainder(
                    cols_a,
                    columns(q0, n as nat),
                    k,
                    j as int,
                ) by {
                    lemma_remainder_prefix(cols_a, columns(q@, n as nat), columns(q0, n as nat), k, j as int);
                }
                assert forall|k: int| 0 <= k < j implies remainder(cols_a, columns(q@, n as nat), k, k) == remainder(
                    cols_a,
                    columns(q0, n as nat),
                    k,
                    k,
                ) by {
                    lemma_remainder_prefix(cols_a, columns(q@, n as nat), columns(q0, n as nat), k, k);
                }
            }
            let mut i: usize = j + 1;
            while i < n
                invariant
                    matrix.wf(),
                    matrix.m() == m,
                    matrix.n() == n,
                    cols_a == columns(matrix@, n as nat),
                    q.wf(),
                    q.m() == m,
                    q.n() == n,
                    r.wf(),
                    r.m() == n,
                    r.n() == n,
                    j < n,
                    j + 1 <= i <= n,
                    w@.len() == m,
                    column_of(q@, j as int) == w@,
                    w@ == normalized(remainder(cols_a, columns(q@, n as nat), j as int, j as int)),
                    r.at(j as int, j as int) == magnitude_of(remainder(cols_a, columns(q@, n as nat), j as int, j as int)),
                    forall|k: int| i <= k < n ==> #[trigger] column_of(q@, k) == remainder(cols_a, columns(q@, n as nat), k, j as int),
                    forall|k: int| j < k < i ==> #[trigger] column_of(q@, k) == remainder(cols_a, columns(q@, n as nat), k, j + 1),
                    forall|k: int| 0 <= k < j ==> #[trigger] column_of(q@, k) == normalized(remainder(cols_a, columns(q@, n as nat), k, k)),
                    forall|k: int| 0 <= k < j ==> #[trigger] r.at(k, k) == magnitude_of(remainder(cols_a, columns(q@, n as nat), k, k)),
                    forall|i2: int, k: int| 0 <= i2 < j && i2 < k < n ==> #[trigger] r.at(i2, k) == dot(column_of(q@, i2), column_of(matrix@, k)),
                    forall|k: int| j < k < i ==> #[trigger] r.at(j as int, k) == dot(column_of(q@, j as int), column_of(matrix@, k)),
                    forall|i2: int, k: int| 0 <= k < n && 0 <= i2 < n && (k < i2 || i2 > j || (i2 == j && k >= i)) ==> #[trigger] r.at(i2, k) == T::spec_zero(),
                decreases n - i,
            {
                let a_i = Self::column(matrix, i + 1);
                let coefficient = w.dot_product(&a_i);
                r.change_element(j + 1, i + 1, coefficient);
                let current = Self::column(&q, i + 1);
                let updated = current.minus(&w.scale(coefficient));
                let ghost q1 = q@;
                q.change_column(i + 1, &updated);
                proof {
                    assert forall|k: int| 0 <= k < n implies #[trigger] remainder(cols_a, columns(q@, n as nat), k, j + 1) == remainder(
                        cols_a,
                        columns(q1, n as nat),
                        k,
                        j + 1,
                    ) by {
                        lemma_remainder_prefix(cols_a, columns(q@, n as nat), columns(q1, n as nat), k, j + 1);
                    }
                    assert forall|k: int| 0 <= k < n implies #[trigger] remainder(cols_a, columns(q@, n as nat), k, j as int) == remainder(
                        cols_a,
                        columns(q1, n as nat),
                        k,
                        j as int,
                    ) by {
                        lemma_remainder_prefix(cols_a, columns(q@, n as nat), columns(q1, n as nat), k, j as int);
                    }
                    assert forall|k: int| 0 <= k <= j implies #[trigger] remainder(cols_a, columns(q@, n as nat), k, k) == remainder(
                        cols_a,
                        columns(q1, n as nat),
                        k,
                        k,
                    ) by {
                        lemma_remainder_prefix(cols_a, columns(q@, n as nat), columns(q1, n as nat), k, k);
                    }
                    assert(columns(q1, n as nat)[j as int] == w@);
                    assert(updated@ =~= remainder(cols_a, columns(q1, n as nat), i as int, j + 1));
                }
                i += 1;
            }
            j += 1;
        }
        proof {
            assert forall|k: int| 0 <= k < n implies #[trigger] r@[k][k] == magnitude_of(remainder(cols_a, columns(q@, n as nat), k, k)) by {
                assert(r@[k][k] == r.at(k, k));
            }
            assert forall|i: int, k: int| 0 <= i < k < n implies #[trigger] r@[i][k] == dot(column_of(q@, i), column_of(matrix@, k)) by {
                assert(r@[i][k] == r.at(i, k));
            }
            assert forall|i: int, k: int| 0 <= k < i < n implies #[trigger] r@[i][k] == T::spec_zero() by {
                assert(r@[i][k] == r.at(i, k));
            }
        }
        (q, r)
    }

    /// Householder QR: for each of the first `min(m, n)` columns, reflects the
    /// active part of `R` so that the entries below the diagonal vanish. The
    /// reflection vector takes the sign of the sub-column's leading entry.
    pub fn householder<T: Scalar>(&self, matrix: &Matrix<T>) -> (r: Houlseholder<T>)
        requires
            matrix.wf(),
        ensures
            r.wf(),
            r.m() == matrix.m(),
            r.n() == matrix.n(),
            r.r_grid() == house_run(matrix@, if matrix.m() <= matrix.n() { matrix.m() as int } else { matrix.n() as int }, matrix.m() as int, matrix.n() as int),
            forall|k: int| 0 <= k < (if matrix.m() <= matrix.n() { matrix.m() } else { matrix.n() }) ==> #[trigger] r.reflection(k) == house_vector(
                house_run(matrix@, k, matrix.m() as int, matrix.n() as int),
                k,
                matrix.m() as int,
            ),
    {
        let (m, n) = matrix.dimension();
        let steps = if m <= n { m } else { n };
        let mut r = matrix.duplicate();
        let mut vectors: Vec<Matrix<T>> = Vec::new();
        let mut k: usize = 0;
        while k < steps
            invariant
                r.wf(),
                r.m() == m,
                r.n() == n,
                steps == if m <= n { m } else { n },
                k <= steps,
                steps <= m,
                steps <= n,
                vectors@.len() == k,
                forall|l: int| 0 <= l < vectors@.len() ==> (#[trigger] vectors@[l]).wf()
                    && vectors@[l].m() == 1 && vectors@[l].n() == m - l,
                r@ == house_run(matrix@, k as int, m as int, n as int),
                forall|l: int| 0 <= l < k ==> #[trigger] vectors@[l]@[0] == house_vector(
                    house_run(matrix@, l, m as int, n as int),
                    l,
                    m as int,
                ),
            decreases steps - k,
        {
            let ghost g = r@;
            let x = r.sub_vector((k + 1, m), k + 1);
            let c = x.sign(1).times(x.magnitude());
            let e1 = Vector::canonical(1, m - k);
            proof {
                assert forall|a: int| 0 <= a < m - k implies x@[a] == g[k + a][k as int] by {
                    assert(g[k + a][k as int] == r.at(k + a, k as int));
                }
                assert(x@ =~= Seq::new((m - k) as nat, |a: int| g[k + a][k as int]));
            }
            let u = e1.scale(c).plus(&x);
            assert(u@ =~= Seq::new(
                (m - k) as nat,
                |a: int|
                    (if a == 0 {
                        T::spec_one()
                    } else {
                        T::spec_zero()
                    }).spec_times(c).spec_plus(x@[a]),
            ));
            let vk = u.normalize();
            let active = r.sub_matrix((k + 1, m), (k + 1, n));
            proof {
                assert forall|a: int| 0 <= a < m - k implies #[trigger] active@[a] =~= block_of(g, k as int, k as int, (m - k) as nat, (n - k) as nat)[a] by {
                    assert forall|b: int| 0 <= b < n - k implies active@[a][b] == g[k + a][k + b] by {
                        assert(active@[a][b] == active.at(a, b));
                        assert(g[k + a][k + b] == r.at(k + a, k + b));
                    }
                }
                assert(active@ =~= block_of(g, k as int, k as int, (m - k) as nat, (n - k) as nat));
            }
            let vk_matrix = Matrix::create_with_vectors(&[vk]);
            let vk_t = vk_matrix.transpose();
            let row = vk_matrix.mul_matrix(&active);
            let reflected = vk_t.mul_matrix(&row);
            let proj = reflected.scale(T::one().plus(T::one()));
            proof {
                let v = house_vector(g, k as int, m as int);
                assert(vk@ =~= v);
                assert(vk_matrix@[0] == v);
                assert forall|a: int, b: int| 0 <= a < m - k && 0 <= b < n - k implies #[trigger] proj.at(a, b) == reflected_entry(
                    v,
                    active@,
                    a,
                    b,
                ) by {
                    assert(vk_t@[a] =~= seq![v[a]]) by {
                        assert(vk_t@[a][0] == vk_t.at(a, 0));
                        assert(vk_matrix.at(0, a) == vk_matrix@[0][a]);
                    }
                    assert(column_of(row@, b) =~= seq![dot(v, column_of(active@, b))]) by {
                        assert(row@[0][b] == row.at(0, b));
                    }
                }
            }
            r.subtract_by_sub((k + 1, m), (k + 1, n), &proj);
            proof {
                let v = house_vector(g, k as int, m as int);
                assert forall|i: int| 0 <= i < m implies #[trigger] r@[i] =~= house_step(g, k as int, m as int, n as int)[i] by {
                    assert forall|j: int| 0 <= j < n implies r@[i][j] == house_step(g, k as int, m as int, n as int)[i][j] by {
                        assert(r@[i][j] == r.at(i, j));
                    }
                }
                assert(r@ =~= house_step(g, k as int, m as int, n as int));
            }
            vectors.push(vk_matrix);
            k += 1;
        }
        Houlseholder { r, vectors }
    }

    /// QR through `gram_schmidt` on the columns: `Q` has the orthonormalized
    /// columns and `R` is `Qᵗ` times the matrix.
    #[allow(non_snake_case)]
    pub fn QR_nyoxon<T: Scalar>(&self, matrix: &Matrix<T>) -> (r: (Matrix<T>, Matrix<T>))
        requires
            matrix.wf(),
        ensures
            r.0.wf(),
            r.0.m() == matrix.m(),
            r.0.n() == matrix.n(),
            r.1.wf(),
            r.1.m() == matrix.n(),
            r.1.n() == matrix.n(),
            forall|k: int| 0 <= k < matrix.n() ==> #[trigger] column_of(r.0@, k) == normalized(
                remainder(columns(matrix@, matrix.n()), columns(r.0@, matrix.n()), k, k),
            ),
            forall|i: int, j: int| 0 <= i < matrix.n() && 0 <= j < matrix.n() ==> #[trigger] r.1.at(i, j) == dot(
                column_of(r.0@, i),
                column_of(matrix@, j),
            ),
    {
        let (m, n) = matrix.dimension();
        let mut cols: Vec<Vector<T>> = Vec::new();
        let mut j: usize = 0;
        while j < n
            invariant
                matrix.wf(),
                matrix.m() == m,
                matrix.n() == n,
                j <= n,
                cols@.len() == j,
                forall|k: int| 0 <= k < j ==> (#[trigger] cols@[k])@.len() == m,
                forall|k: int| 0 <= k < j ==> (#[trigger] cols@[k])@ == column_of(matrix@, k),
            decreases n - j,
        {
            cols.push(Self::column(matrix, j + 1));
            j += 1;
        }
        assert(views(cols@) =~= columns(matrix@, n as nat));
        let orthonormal = self.gram_schmidt(cols);
        let q_rows = Matrix::create_with_vectors(orthonormal.as_slice());
        let r = q_rows.mul_matrix(matrix);
        let q = q_rows.transpose();
        assert forall|k: int| 0 <= k < n implies #[trigger] column_of(q@, k) == orthonormal@[k]@ by {
            assert forall|i: int| 0 <= i < m implies column_of(q@, k)[i] == orthonormal@[k]@[i] by {
                assert(q@[i][k] == q.at(i, k));
                assert(q_rows@[k][i] == q_rows.at(k, i));
            }
            assert(column_of(q@, k) =~= orthonormal@[k]@);
        }
        assert(columns(q@, n as nat) =~= views(orthonormal@));
        assert forall|i: int| 0 <= i < n implies q_rows@[i] == #[trigger] column_of(q@, i) by {}
        (q, r)
    }

    /// LU without pivoting: `U` is the row echelon form and `L` the inverse
    /// of the transform that produced it. Fails as `inverse` does when that
    /// transform has a nontrivial null space.
    #[allow(non_snake_case)]
    pub fn LU<T: Scalar>(&self, matrix: &Matrix<T>) -> (r: Result<(Matrix<T>, Matrix<T>), LinalgError>)
        requires
            matrix.wf(),
        ensures
            r is Err ==> r == Err::<(Matrix<T>, Matrix<T>), _>(LinalgError::Singular),
            r is Err <==> echelon_pivots(echelon(matrix@, matrix.n()).1, matrix.m()).len() != matrix.m(),
            r matches Ok(p) ==> p.0.wf() && p.0.m() == matrix.m() && p.0.n() == matrix.m() && p.1.wf()
                && p.1.m() == matrix.m() && p.1.n() == matrix.n() && p.1@ == echelon(matrix@, matrix.n()).0
                && p.0@ == reduced(echelon(matrix@, matrix.n()).1, matrix.m()).1,
    {
        let eliminator = Eliminator::new();
        let mut echelon = matrix.duplicate();
        let (_, transform) = eliminator.row_echelon_form(&mut echelon);
        match transform.inverse() {
            Ok(l) => Ok((l, echelon)),
            Err(_) => Err(LinalgError::Singular),
        }
    }

    /// The lower triangular Cholesky factor, column by column. `NotSymmetric`
    /// when the matrix differs from its transpose; positive definiteness is
    /// not checked, and a negative value under a square root propagates
    /// whatever the scalar's square root gives.
    pub fn cholesky<T: Scalar>(&self, matrix: &Matrix<T>) -> (r: Result<Matrix<T>, LinalgError>)
        requires
            matrix.wf(),
        ensures
            r == Err::<Matrix<T>, _>(LinalgError::NotSymmetric) <==> !(matrix.m() == matrix.n() && forall|i: int, j: int|
                0 <= i < matrix.n() && 0 <= j < matrix.n() ==> (#[trigger] matrix.at(i, j)).spec_same(matrix.at(j, i))),
            r is Err ==> r == Err::<Matrix<T>, _>(LinalgError::NotSymmetric),
            r matches Ok(l) ==> l.wf() && l.m() == matrix.n() && l.n() == matrix.n() && forall|i: int, j: int|
                0 <= i < matrix.n() && 0 <= j < matrix.n() ==> #[trigger] cholesky_entry(matrix@, l@, i, j),
    {
        if !matrix.same_as(&matrix.transpose()) {
            return Err(LinalgError::NotSymmetric);
        }
        let n = matrix.cols;
        let mut l: Matrix<T> = Matrix::zero(n, n);
        assert forall|i2: int, j2: int| 0 <= i2 < n && 0 <= j2 < n implies #[trigger] l@[i2][j2] == T::spec_zero() by {
            assert(l@[i2][j2] == l.at(i2, j2));
        }
        let mut i: usize = 0;
        while i < n
            invariant
                matrix.wf(),
                matrix.m() == n,
                matrix.n() == n,
                l.wf(),
                l.m() == n,
                l.n() == n,
                i <= n,
                forall|i2: int, j2: int| 0 <= i2 < i && 0 <= j2 < n ==> #[trigger] cholesky_entry(matrix@, l@, i2, j2),
                forall|i2: int, j2: int| i <= i2 < n && 0 <= j2 < n ==> #[trigger] l@[i2][j2] == T::spec_zero(),
            decreases n - i,
        {
            let mut j: usize = 0;
            while j <= i
                invariant
                    matrix.wf(),
                    matrix.m() == n,
                    matrix.n() == n,
                    l.wf(),
                    l.m() == n,
                    l.n() == n,
                    i < n,
                    j <= i + 1,
                    forall|i2: int, j2: int| 0 <= i2 < i && 0 <= j2 < n ==> #[trigger] cholesky_entry(matrix@, l@, i2, j2),
                    forall|j2: int| 0 <= j2 < j ==> #[trigger] cholesky_entry(matrix@, l@, i as int, j2),
                    forall|j2: int| j <= j2 < n ==> #[trigger] l@[i as int][j2] == T::spec_zero(),
                    forall|i2: int, j2: int| i < i2 < n && 0 <= j2 < n ==> #[trigger] l@[i2][j2] == T::spec_zero(),
                decreases i + 1 - j,
            {
                let mut sum = T::zero();
                let ghost before = l@;
                assert forall|r: int| 0 <= r < n implies #[trigger] before[r].len() == n by {
                    assert(l.rows@[r]@.len() == l.cols);
                }
                let value: T;
                if i == j {
                    let mut k: usize = 0;
                    while k < i
                        invariant
                            l.wf(),
                            l.m() == n,
                            l.n() == n,
                            i < n,
                            k <= i,
                            l@ == before,
                            sum == sum_range(l@[i as int], l@[i as int], 0, k as int),
                        decreases i - k,
                    {
                        assert(l@[i as int][k as int] == l.at(i as int, k as int));
                        let lik: T = l.get(i, k);
                        sum = sum.plus(lik.times(lik));
                        k += 1;
                    }
                    assert(matrix@[i as int][i as int] == matrix.at(i as int, i as int));
                    value = matrix.get(i, i).minus(sum).square_root();
                    assert(value == matrix@[i as int][i as int].spec_minus(sum_range(before[i as int], before[i as int], 0, i as int)).spec_square_root());
                } else {
                    assert(l@[j as int][j as int] == l.at(j as int, j as int));
                    let ljj = l.get(j, j);
                    let mut k: usize = 0;
                    while k < j
                        invariant
                            l.wf(),
                            l.m() == n,
                            l.n() == n,
                            j < i < n,
                            k <= j,
                            l@ == before,
                            sum == sum_range(l@[i as int], l@[j as int], 0, k as int),
                        decreases j - k,
                    {
                        assert(l@[i as int][k as int] == l.at(i as int, k as int));
                        assert(l@[j as int][k as int] == l.at(j as int, k as int));
                        sum = sum.plus(l.get(i, k).times(l.get(j, k)));
                        k += 1;
                    }
                    assert(matrix@[i as int][j as int] == matrix.at(i as int, j as int));
                    value = matrix.get(i, j).minus(sum).over(ljj);
                    assert(value == matrix@[i as int][j as int].spec_minus(sum_range(before[i as int], before[j as int], 0, j as int)).spec_over(
                        before[j as int][j as int],
                    ));
                }
                l.change_element(i + 1, j + 1, value);
                proof {
                    assert forall|i2: int, j2: int| 0 <= i2 < n && 0 <= j2 < n implies #[trigger] l@[i2][j2] == if i2 == i && j2 == j {
                        value
                    } else {
                        before[i2][j2]
                    } by {
                        assert(l@[i2][j2] == l.at(i2, j2));
                    }
                    assert forall|r: int| 0 <= r < n implies #[trigger] l@[r].len() == n by {
                        assert(l.rows@[r]@.len() == l.cols);
                    }
                    assert forall|j2: int| 0 <= j2 <= j implies #[trigger] cholesky_entry(matrix@, l@, i as int, j2) by {
                        assert(l@[i as int][j2] == if j2 == j { value } else { before[i as int][j2] });
                        if j2 < i {
                            assert(l@[j2] =~= before[j2]);
                            lemma_sum_frame(before[i as int], before[j2], l@[i as int], l@[j2], 0, j2);
                            if j2 < j {
                                assert(cholesky_entry(matrix@, before, i as int, j2));
                            }
                        } else {
                            lemma_sum_frame(before[i as int], before[i as int], l@[i as int], l@[i as int], 0, j2);
                        }
                    }
                    assert forall|i2: int, j2: int| 0 <= i2 < i && 0 <= j2 < n implies #[trigger] cholesky_entry(matrix@, l@, i2, j2) by {
                        assert(cholesky_entry(matrix@, before, i2, j2));
                        assert(l@[i2] =~= before[i2]);
                        if j2 <= i2 {
                            assert(l@[j2] =~= before[j2]);
                        }
                    }
                }
                j += 1;
            }
            assert forall|j2: int| 0 <= j2 < n implies #[trigger] cholesky_entry(matrix@, l@, i as int, j2) by {
                if j2 > i {
                    assert(l@[i as int][j2] == T::spec_zero());
                }
            }
            i += 1;
        }
        Ok(l)
    }
}

} // verus!
