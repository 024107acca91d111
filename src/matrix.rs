use vstd::prelude::*;
use crate::scalar::Scalar;
use crate::vector::{dot, dot_upto, Vector};
use crate::elimination::{echelon_pivots, reduced, Eliminator};
use crate::spaces::Spaces;
use crate::LinalgError;

verus! {

/// The grid of values held by a sequence of rows.
pub open spec fn rows_view<T>(rows: Seq<Vec<T>>) -> Seq<Seq<T>> {
    Seq::new(rows.len(), |i: int| rows[i]@)
}

/// Column `j` (0-based) of a grid.
pub open spec fn column_of<T>(g: Seq<Seq<T>>, j: int) -> Seq<T> {
    Seq::new(g.len(), |i: int| g[i][j])
}

/// `AᵗA` for a grid `a` with `n` columns: the dot products of its columns.
pub open spec fn gram<T: Scalar>(a: Seq<Seq<T>>, n: nat) -> Seq<Seq<T>> {
    Seq::new(n, |i: int| Seq::new(n, |j: int| dot(column_of(a, i), column_of(a, j))))
}

/// `(AᵗA)⁻¹ Aᵗ` for a grid `a` of `m` rows and `n` columns, with the inverse
/// read off the reduction of `AᵗA`.
pub open spec fn projector_inner<T: Scalar>(a: Seq<Seq<T>>, m: nat, n: nat) -> Seq<Seq<T>> {
    let inv = reduced(gram(a, n), n).1;
    Seq::new(n, |i: int| Seq::new(m, |j: int| dot(inv[i], a[j])))
}

/// The block of `g` of `h` rows and `w` columns whose top left entry is
/// (`r0`, `c0`), all 0-based.
pub open spec fn block_of<T>(g: Seq<Seq<T>>, r0: int, c0: int, h: nat, w: nat) -> Seq<Seq<T>> {
    Seq::new(h, |a: int| Seq::new(w, |b: int| g[r0 + a][c0 + b]))
}

/// The number of rows of the first `k` matrices of `s`.
pub open spec fn rows_total<T>(s: Seq<Matrix<T>>, k: int) -> int
    decreases k,
{
    if k <= 0 {
        0
    } else {
        rows_total(s, k - 1) + s[k - 1].rows@.len()
    }
}

/// The number of columns of the first `k` matrices of `s`.
pub open spec fn cols_total<T>(s: Seq<Matrix<T>>, k: int) -> int
    decreases k,
{
    if k <= 0 {
        0
    } else {
        cols_total(s, k - 1) + s[k - 1].cols
    }
}

/// Entry (i, j) of the block diagonal matrix of the first `k` matrices of
/// `s`: the matching entry of the block that covers it, zero elsewhere.
pub open spec fn diagonal_entry<T: Scalar>(s: Seq<Matrix<T>>, k: int, i: int, j: int) -> T
    decreases k,
{
    if k <= 0 {
        T::spec_zero()
    } else if rows_total(s, k - 1) <= i < rows_total(s, k) && cols_total(s, k - 1) <= j < cols_total(s, k) {
        s[k - 1].at(i - rows_total(s, k - 1), j - cols_total(s, k - 1))
    } else {
        diagonal_entry(s, k - 1, i, j)
    }
}

/// Totals over a prefix never exceed totals over a longer prefix.
pub proof fn lemma_totals_grow<T>(s: Seq<Matrix<T>>, k: int, l: int)
    requires
        0 <= k <= l,
    ensures
        rows_total(s, k) <= rows_total(s, l),
        cols_total(s, k) <= cols_total(s, l),
    decreases l - k,
{
    if k < l {
        lemma_totals_grow(s, k, l - 1);
    }
}

/// A dense real matrix of `m` rows and `n` columns, addressed from (1, 1).
#[derive(Clone)]
pub struct Matrix<T> {
    pub rows: Vec<Vec<T>>,
    pub cols: usize,
}

impl<T: Scalar> View for Matrix<T> {
    type V = Seq<Seq<T>>;

    open spec fn view(&self) -> Seq<Seq<T>> {
        rows_view(self.rows@)
    }
}

impl<T: Scalar> Matrix<T> {
    /// At least one row and one column, every row as long as `cols`.
    pub open spec fn wf(&self) -> bool {
        &&& self.rows@.len() >= 1
        &&& self.cols >= 1
        &&& forall|i: int| 0 <= i < self.rows@.len() ==> #[trigger] self.rows@[i]@.len() == self.cols
    }

    pub open spec fn m(&self) -> nat {
        self.rows@.len()
    }

    pub open spec fn n(&self) -> nat {
        self.cols as nat
    }

    /// The 0-based entry (i, j).
    pub open spec fn at(&self, i: int, j: int) -> T {
        self.rows@[i]@[j]
    }

    /// Copies a sequence of values.
    fn copy_row(row: &Vec<T>) -> (r: Vec<T>)
        ensures
            r@ == row@,
    {
        let mut out: Vec<T> = Vec::new();
        let mut j: usize = 0;
        while j < row.len()
            invariant
                j <= row@.len(),
                out@ == row@.subrange(0, j as int),
            decreases row@.len() - j,
        {
            out.push(row[j]);
            j += 1;
        }
        assert(out@ == row@);
        out
    }

    /// A copy holding the same entries.
    pub fn duplicate(&self) -> (r: Self)
        requires
            self.wf(),
        ensures
            r.wf(),
            r@ == self@,
            r.m() == self.m(),
            r.n() == self.n(),
            forall|i: int, j: int| 0 <= i < self.m() && 0 <= j < self.n() ==> #[trigger] r.at(i, j) == self.at(i, j),
    {
        let mut rows: Vec<Vec<T>> = Vec::new();
        let mut i: usize = 0;
        while i < self.rows.len()
            invariant
                self.wf(),
                i <= self.m(),
                rows@.len() == i,
                forall|k: int| 0 <= k < i ==> #[trigger] rows@[k]@ == self.rows@[k]@,
            decreases self.m() - i,
        {
            rows.push(Self::copy_row(&self.rows[i]));
            i += 1;
        }
        let r = Matrix { rows, cols: self.cols };
        assert(r@ =~= self@);
        r
    }

    /// The matrix whose rows are `numbers`; `Empty` without rows or with an
    /// empty first row, `Ragged` when a row's length differs from the first's.
    pub fn new(numbers: &[Vec<T>]) -> (r: Result<Self, crate::LinalgError>)
        ensures
            (numbers@.len() == 0 || numbers@[0]@.len() == 0) ==> r == Err::<Self, _>(
                crate::LinalgError::Empty,
            ),
            (numbers@.len() > 0 && numbers@[0]@.len() > 0) ==> (r is Err <==> exists|i: int|
                0 <= i < numbers@.len() && #[trigger] numbers@[i]@.len() != numbers@[0]@.len()),
            r is Err ==> r == Err::<Self, _>(crate::LinalgError::Empty) || r == Err::<Self, _>(
                crate::LinalgError::Ragged,
            ),
            r matches Ok(a) ==> a.wf() && a@ == rows_view(numbers@),
    {
        if numbers.len() == 0 || numbers[0].len() == 0 {
            return Err(crate::LinalgError::Empty);
        }
        let n = numbers[0].len();
        let mut rows: Vec<Vec<T>> = Vec::new();
        let mut i: usize = 0;
        while i < numbers.len()
            invariant
                i <= numbers@.len(),
                n == numbers@[0]@.len(),
                n > 0,
                numbers@.len() > 0,
                rows@.len() == i,
                forall|k: int| 0 <= k < i ==> #[trigger] numbers@[k]@.len() == n,
                forall|k: int| 0 <= k < i ==> #[trigger] rows@[k]@ == numbers@[k]@,
            decreases numbers@.len() - i,
        {
            if numbers[i].len() != n {
                return Err(crate::LinalgError::Ragged);
            }
            rows.push(Self::copy_row(&numbers[i]));
            i += 1;
        }
        let a = Matrix { rows, cols: n };
        assert(a@ =~= rows_view(numbers@));
        Ok(a)
    }

    /// An `m` by `n` matrix with every entry `value`.
    pub fn filled(m: usize, n: usize, value: T) -> (r: Self)
        requires
            m >= 1,
            n >= 1,
        ensures
            r.wf(),
            r.m() == m,
            r.n() == n,
            forall|i: int, j: int| 0 <= i < m && 0 <= j < n ==> #[trigger] r.at(i, j) == value,
    {
        let mut rows: Vec<Vec<T>> = Vec::new();
        let mut i: usize = 0;
        while i < m
            invariant
                i <= m,
                rows@.len() == i,
                forall|k: int| 0 <= k < i ==> #[trigger] rows@[k]@ == Seq::new(n as nat, |j: int| value),
            decreases m - i,
        {
            rows.push(Vector::filled(n, value).components);
            i += 1;
        }
        Matrix { rows, cols: n }
    }

    pub fn zero(rows: usize, columns: usize) -> (r: Self)
        requires
            rows >= 1,
            columns >= 1,
        ensures
            r.wf(),
            r.m() == rows,
            r.n() == columns,
            forall|i: int, j: int| 0 <= i < rows && 0 <= j < columns ==> #[trigger] r.at(i, j) == T::spec_zero(),
    {
        Self::filled(rows, columns, T::zero())
    }

    pub fn is_zero(&self) -> (r: bool)
        requires
            self.wf(),
        ensures
            r == forall|i: int, j: int| 0 <= i < self.m() && 0 <= j < self.n() ==> (#[trigger] self.at(i, j)).spec_is_zero(),
    {
        let mut i: usize = 0;
        while i < self.rows.len()
            invariant
                self.wf(),
                i <= self.m(),
                forall|a: int, b: int| 0 <= a < i && 0 <= b < self.n() ==> (#[trigger] self.at(a, b)).spec_is_zero(),
            decreases self.m() - i,
        {
            let mut j: usize = 0;
            while j < self.cols
                invariant
                    self.wf(),
                    i < self.m(),
                    j <= self.n(),
                    forall|a: int, b: int| 0 <= a < i && 0 <= b < self.n() ==> (#[trigger] self.at(a, b)).spec_is_zero(),
                    forall|b: int| 0 <= b < j ==> (#[trigger] self.at(i as int, b)).spec_is_zero(),
                decreases self.n() - j,
            {
                if !self.rows[i][j].is_zero() {
                    assert(!self.at(i as int, j as int).spec_is_zero());
                    return false;
                }
                j += 1;
            }
            i += 1;
        }
        true
    }

    /// The square matrix with `one` on its diagonal and `zero` elsewhere.
    pub fn diagonal_pattern(size: usize, one: T, zero: T) -> (r: Self)
        requires
            size >= 1,
        ensures
            r.wf(),
            r.m() == size,
            r.n() == size,
            forall|i: int, j: int| 0 <= i < size && 0 <= j < size ==> #[trigger] r.at(i, j) == if i == j {
                one
            } else {
                zero
            },
    {
        let mut rows: Vec<Vec<T>> = Vec::new();
        let mut i: usize = 0;
        while i < size
            invariant
                i <= size,
                rows@.len() == i,
                forall|k: int| 0 <= k < i ==> #[trigger] rows@[k]@.len() == size,
                forall|k: int, j: int| 0 <= k < i && 0 <= j < size ==> #[trigger] rows@[k]@[j] == if k == j {
                    one
                } else {
                    zero
                },
            decreases size - i,
        {
            let mut row: Vec<T> = Vec::new();
            let mut j: usize = 0;
            while j < size
                invariant
                    j <= size,
                    i < size,
                    row@.len() == j,
                    forall|l: int| 0 <= l < j ==> #[trigger] row@[l] == if i == l {
                        one
                    } else {
                        zero
                    },
                decreases size - j,
            {
                if i == j {
                    row.push(one);
                } else {
                    row.push(zero);
                }
                j += 1;
            }
            rows.push(row);
            i += 1;
        }
        Matrix { rows, cols: size }
    }

    /// The identity: one value on the diagonal, another everywhere else.
    pub fn identity(size: usize) -> (r: Self)
        requires
            size >= 1,
        ensures
            r.wf(),
            r.m() == size,
            r.n() == size,
            forall|i: int, j: int| 0 <= i < size && 0 <= j < size ==> #[trigger] r.at(i, j) == if i == j {
                T::spec_one()
            } else {
                T::spec_zero()
            },
    {
        Self::diagonal_pattern(size, T::one(), T::zero())
    }

    pub fn dimension(&self) -> (r: (usize, usize))
        requires
            self.wf(),
        ensures
            r.0 == self.m(),
            r.1 == self.n(),
    {
        (self.rows.len(), self.cols)
    }

    /// The entry at 1-based (`row`, `column`); `None` outside the matrix.
    pub fn element(&self, row: usize, column: usize) -> (r: Option<T>)
        requires
            self.wf(),
        ensures
            r == (if 1 <= row <= self.m() && 1 <= column <= self.n() {
                Some(self.at(row - 1, column - 1))
            } else {
                None::<T>
            }),
    {
        if row == 0 || column == 0 || row > self.rows.len() || column > self.cols {
            None
        } else {
            Some(self.rows[row - 1][column - 1])
        }
    }

    /// The entry at 0-based (`i`, `j`).
    pub fn get(&self, i: usize, j: usize) -> (r: T)
        requires
            self.wf(),
            i < self.m(),
            j < self.n(),
        ensures
            r == self.at(i as int, j as int),
    {
        self.rows[i][j]
    }

    /// Replaces the entry at 1-based (`row`, `column`).
    pub fn change_element(&mut self, row: usize, column: usize, element: T)
        requires
            old(self).wf(),
            1 <= row <= old(self).m(),
            1 <= column <= old(self).n(),
        ensures
            final(self).wf(),
            final(self).m() == old(self).m(),
            final(self).n() == old(self).n(),
            forall|i: int, j: int| 0 <= i < old(self).m() && 0 <= j < old(self).n() ==> #[trigger] final(self).at(i, j) == if i == row - 1 && j == column - 1 {
                element
            } else {
                old(self).at(i, j)
            },
    {
        let mut new_row = Self::copy_row(&self.rows[row - 1]);
        new_row.set(column - 1, element);
        self.rows.set(row - 1, new_row);
    }

    /// Row `position` (1-based) as a vector; `None` outside `1..=m`.
    pub fn get_line(&self, position: usize) -> (r: Option<Vector<T>>)
        requires
            self.wf(),
        ensures
            1 <= position <= self.m() ==> (r matches Some(v) && v@ == self@[position - 1]),
            !(1 <= position <= self.m()) ==> r is None,
    {
        if position == 0 || position > self.rows.len() {
            None
        } else {
            Some(Vector::create_with_vec(Self::copy_row(&self.rows[position - 1])))
        }
    }

    /// Column `position` (1-based) as a vector; `None` outside `1..=n`.
    pub fn get_column(&self, position: usize) -> (r: Option<Vector<T>>)
        requires
            self.wf(),
        ensures
            1 <= position <= self.n() ==> (r matches Some(v) && v@ == column_of(self@, position - 1)),
            !(1 <= position <= self.n()) ==> r is None,
    {
        if position == 0 || position > self.cols {
            return None;
        }
        let mut out: Vec<T> = Vec::new();
        let mut i: usize = 0;
        while i < self.rows.len()
            invariant
                self.wf(),
                1 <= position <= self.n(),
                i <= self.m(),
                out@.len() == i,
                forall|k: int| 0 <= k < i ==> #[trigger] out@[k] == self.at(k, position - 1),
            decreases self.m() - i,
        {
            out.push(self.rows[i][position - 1]);
            i += 1;
        }
        let v = Vector::create_with_vec(out);
        assert(v@ =~= column_of(self@, position - 1));
        Some(v)
    }

    /// Replaces column `position` (1-based) by `column`.
    pub fn change_column(&mut self, position: usize, column: &Vector<T>)
        requires
            old(self).wf(),
            1 <= position <= old(self).n(),
            column@.len() == old(self).m(),
        ensures
            final(self).wf(),
            final(self).m() == old(self).m(),
            final(self).n() == old(self).n(),
            forall|i: int, j: int| 0 <= i < old(self).m() && 0 <= j < old(self).n() ==> #[trigger] final(self).at(i, j) == if j == position - 1 {
                column@[i]
            } else {
                old(self).at(i, j)
            },
            forall|j: int| 0 <= j < old(self).n() ==> #[trigger] column_of(final(self)@, j) == if j == position - 1 {
                column@
            } else {
                column_of(old(self)@, j)
            },
    {
        let ghost start = *self;
        let mut i: usize = 0;
        while i < self.rows.len()
            invariant
                self.wf(),
                self.m() == start.m(),
                self.n() == start.n(),
                1 <= position <= self.n(),
                column@.len() == self.m(),
                i <= self.m(),
                forall|k: int, j: int| 0 <= k < start.m() && 0 <= j < start.n() ==> #[trigger] self.at(k, j) == if j == position - 1 && k < i {
                    column@[k]
                } else {
                    start.at(k, j)
                },
            decreases self.m() - i,
        {
            self.change_element(i + 1, position, column.components[i]);
            i += 1;
        }
        proof {
            assert forall|j: int| 0 <= j < start.n() implies #[trigger] column_of(self@, j) == if j == position - 1 {
                column@
            } else {
                column_of(start@, j)
            } by {
                assert forall|c: int| 0 <= c < start.m() implies column_of(self@, j)[c] == (if j == position - 1 {
                    column@
                } else {
                    column_of(start@, j)
                })[c] by {
                    assert(self@[c][j] == self.at(c, j));
                    assert(start@[c][j] == start.at(c, j));
                }
                assert(column_of(self@, j) =~= if j == position - 1 {
                    column@
                } else {
                    column_of(start@, j)
                });
            }
        }
    }

    /// The transpose.
    pub fn transpose(&self) -> (r: Self)
        requires
            self.wf(),
        ensures
            r.wf(),
            r.m() == self.n(),
            r.n() == self.m(),
            forall|i: int, j: int| 0 <= i < self.n() && 0 <= j < self.m() ==> #[trigger] r.at(i, j) == self.at(j, i),
    {
        let mut rows: Vec<Vec<T>> = Vec::new();
        let mut j: usize = 0;
        while j < self.cols
            invariant
                self.wf(),
                j <= self.n(),
                rows@.len() == j,
                forall|k: int| 0 <= k < j ==> #[trigger] rows@[k]@.len() == self.m(),
                forall|k: int, l: int| 0 <= k < j && 0 <= l < self.m() ==> #[trigger] rows@[k]@[l] == self.at(l, k),
            decreases self.n() - j,
        {
            let mut row: Vec<T> = Vec::new();
            let mut i: usize = 0;
            while i < self.rows.len()
                invariant
                    self.wf(),
                    j < self.n(),
                    i <= self.m(),
                    row@.len() == i,
                    forall|l: int| 0 <= l < i ==> #[trigger] row@[l] == self.at(l, j as int),
                decreases self.m() - i,
            {
                row.push(self.rows[i][j]);
                i += 1;
            }
            rows.push(row);
            j += 1;
        }
        Matrix { rows, cols: self.rows.len() }
    }

    /// Whether every entry of `self` is the same value as the entry of `other` at
    /// the same position; `false` for matrices of different shapes.
    pub fn same_as(&self, other: &Self) -> (r: bool)
        requires
            self.wf(),
            other.wf(),
        ensures
            r == (self.m() == other.m() && self.n() == other.n() && forall|i: int, j: int|
                0 <= i < self.m() && 0 <= j < self.n() ==> (#[trigger] self.at(i, j)).spec_same(other.at(i, j))),
    {
        if self.rows.len() != other.rows.len() || self.cols != other.cols {
            return false;
        }
        let mut i: usize = 0;
        while i < self.rows.len()
            invariant
                self.wf(),
                other.wf(),
                self.m() == other.m(),
                self.n() == other.n(),
                i <= self.m(),
                forall|a: int, b: int| 0 <= a < i && 0 <= b < self.n() ==> (#[trigger] self.at(a, b)).spec_same(other.at(a, b)),
            decreases self.m() - i,
        {
            let mut j: usize = 0;
            while j < self.cols
                invariant
                    self.wf(),
                    other.wf(),
                    self.m() == other.m(),
                    self.n() == other.n(),
                    i < self.m(),
                    j <= self.n(),
                    forall|a: int, b: int| 0 <= a < i && 0 <= b < self.n() ==> (#[trigger] self.at(a, b)).spec_same(other.at(a, b)),
                    forall|b: int| 0 <= b < j ==> (#[trigger] self.at(i as int, b)).spec_same(other.at(i as int, b)),
                decreases self.n() - j,
            {
                if !self.rows[i][j].same_as(other.rows[i][j]) {
                    assert(!self.at(i as int, j as int).spec_same(other.at(i as int, j as int)));
                    return false;
                }
                j += 1;
            }
            i += 1;
        }
        true
    }

    /// Minus one for a negative entry at 1-based (`i`, `j`), zero for a zero
    /// entry, one otherwise.
    pub fn sign(&self, i: usize, j: usize) -> (r: T)
        requires
            self.wf(),
            1 <= i <= self.m(),
            1 <= j <= self.n(),
        ensures
            r == if self.at(i - 1, j - 1).spec_is_zero() {
                T::spec_zero()
            } else if self.at(i - 1, j - 1).spec_is_negative() {
                T::spec_one().spec_negated()
            } else {
                T::spec_one()
            },
    {
        let element = self.rows[i - 1][j - 1];
        if element.is_zero() {
            T::zero()
        } else if element.is_negative() {
            T::one().negated()
        } else {
            T::one()
        }
    }

    /// The matrix whose rows are the given vectors.
    pub fn create_with_vectors(rows: &[Vector<T>]) -> (r: Self)
        requires
            rows@.len() >= 1,
            rows@[0]@.len() >= 1,
            forall|i: int| 0 <= i < rows@.len() ==> #[trigger] rows@[i]@.len() == rows@[0]@.len(),
        ensures
            r.wf(),
            r.m() == rows@.len(),
            r.n() == rows@[0]@.len(),
            forall|i: int| 0 <= i < rows@.len() ==> #[trigger] r@[i] == rows@[i]@,
    {
        let mut out: Vec<Vec<T>> = Vec::new();
        let mut i: usize = 0;
        while i < rows.len()
            invariant
                i <= rows@.len(),
                out@.len() == i,
                forall|k: int| 0 <= k < i ==> #[trigger] out@[k]@ == rows@[k]@,
            decreases rows@.len() - i,
        {
            out.push(rows[i].duplicate().components);
            i += 1;
        }
        Matrix { rows: out, cols: rows[0].components.len() }
    }

    /// The block of rows `i_i..=i_e` and columns `j_i..=j_e` (1-based).
    pub fn sub_matrix(&self, rows: (usize, usize), columns: (usize, usize)) -> (r: Self)
        requires
            self.wf(),
            1 <= rows.0 <= rows.1 <= self.m(),
            1 <= columns.0 <= columns.1 <= self.n(),
        ensures
            r.wf(),
            r.m() == rows.1 - rows.0 + 1,
            r.n() == columns.1 - columns.0 + 1,
            forall|a: int, b: int| 0 <= a < r.m() && 0 <= b < r.n() ==> #[trigger] r.at(a, b) == self.at(rows.0 - 1 + a, columns.0 - 1 + b),
    {
        let (i_i, i_e) = rows;
        let (j_i, j_e) = columns;
        let h = i_e - i_i + 1;
        let w = j_e - j_i + 1;
        let mut out: Vec<Vec<T>> = Vec::new();
        let mut a: usize = 0;
        while a < h
            invariant
                self.wf(),
                1 <= i_i <= i_e <= self.m(),
                1 <= j_i <= j_e <= self.n(),
                h == i_e - i_i + 1,
                w == j_e - j_i + 1,
                a <= h,
                out@.len() == a,
                forall|k: int| 0 <= k < out@.len() ==> #[trigger] out@[k]@.len() == w,
                forall|x: int, y: int| 0 <= x < out@.len() && 0 <= y < w ==> #[trigger] out@[x]@[y] == self.at(i_i - 1 + x, j_i - 1 + y),
            decreases h - a,
        {
            let mut row: Vec<T> = Vec::new();
            let mut b: usize = 0;
            while b < w
                invariant
                    self.wf(),
                    1 <= i_i <= i_e <= self.m(),
                    1 <= j_i <= j_e <= self.n(),
                    h == i_e - i_i + 1,
                    w == j_e - j_i + 1,
                    a < h,
                    b <= w,
                    row@.len() == b,
                    forall|y: int| 0 <= y < row@.len() ==> #[trigger] row@[y] == self.at(i_i - 1 + a, j_i - 1 + y),
                decreases w - b,
            {
                row.push(self.rows[i_i - 1 + a][j_i - 1 + b]);
                b += 1;
            }
            out.push(row);
            a += 1;
        }
        Matrix { rows: out, cols: j_e - j_i + 1 }
    }

    /// Rows `i_i..=i_e` of column `k` (all 1-based) as a vector.
    pub fn sub_vector(&self, rows: (usize, usize), k: usize) -> (r: Vector<T>)
        requires
            self.wf(),
            1 <= rows.0 <= rows.1 <= self.m(),
            1 <= k <= self.n(),
        ensures
            r@.len() == rows.1 - rows.0 + 1,
            forall|a: int| 0 <= a < r@.len() ==> #[trigger] r@[a] == self.at(rows.0 - 1 + a, k - 1),
    {
        self.get_sub_column(rows.0, rows.1, k)
    }

    /// Rows `init..=end` of column `column` (all 1-based) as a vector.
    pub fn get_sub_column(&self, init: usize, end: usize, column: usize) -> (r: Vector<T>)
        requires
            self.wf(),
            1 <= init <= end <= self.m(),
            1 <= column <= self.n(),
        ensures
            r@.len() == end - init + 1,
            forall|a: int| 0 <= a < r@.len() ==> #[trigger] r@[a] == self.at(init - 1 + a, column - 1),
    {
        let h = end - init + 1;
        let mut out: Vec<T> = Vec::new();
        let mut a: usize = 0;
        while a < h
            invariant
                self.wf(),
                1 <= init <= end <= self.m(),
                1 <= column <= self.n(),
                h == end - init + 1,
                a <= h,
                out@.len() == a,
                forall|x: int| 0 <= x < out@.len() ==> #[trigger] out@[x] == self.at(init - 1 + x, column - 1),
            decreases h - a,
        {
            out.push(self.rows[init - 1 + a][column - 1]);
            a += 1;
        }
        Vector::create_with_vec(out)
    }

    /// Copies `block` into `self` with its top left entry at 0-based
    /// (`r0`, `c0`).
    pub fn set_block(&mut self, r0: usize, c0: usize, block: &Self)
        requires
            old(self).wf(),
            block.wf(),
            r0 + block.m() <= old(self).m(),
            c0 + block.n() <= old(self).n(),
        ensures
            final(self).wf(),
            final(self).m() == old(self).m(),
            final(self).n() == old(self).n(),
            forall|i: int, j: int| 0 <= i < old(self).m() && 0 <= j < old(self).n() ==> #[trigger] final(self).at(i, j) == if r0 <= i < r0 + block.m() && c0 <= j < c0 + block.n() {
                block.at(i - r0, j - c0)
            } else {
                old(self).at(i, j)
            },
    {
        let ghost start = *self;
        let m = self.rows.len();
        let mut a: usize = 0;
        while a < block.rows.len()
            invariant
                self.wf(),
                m == self.m(),
                block.wf(),
                self.m() == start.m(),
                self.n() == start.n(),
                r0 + block.m() <= self.m(),
                c0 + block.n() <= self.n(),
                a <= block.m(),
                forall|i: int, j: int| 0 <= i < start.m() && 0 <= j < start.n() ==> #[trigger] self.at(i, j) == if r0 <= i < r0 + a && c0 <= j < c0 + block.n() {
                    block.at(i - r0, j - c0)
                } else {
                    start.at(i, j)
                },
            decreases block.m() - a,
        {
            let mut b: usize = 0;
            while b < block.cols
                invariant
                    self.wf(),
                    m == self.m(),
                    block.wf(),
                    self.m() == start.m(),
                    self.n() == start.n(),
                    r0 + block.m() <= self.m(),
                    c0 + block.n() <= self.n(),
                    a < block.m(),
                    b <= block.n(),
                    forall|i: int, j: int| 0 <= i < start.m() && 0 <= j < start.n() ==> #[trigger] self.at(i, j) == if (r0 <= i < r0 + a && c0 <= j < c0 + block.n()) || (i == r0 + a && c0 <= j < c0 + b) {
                        block.at(i - r0, j - c0)
                    } else {
                        start.at(i, j)
                    },
                decreases block.n() - b,
            {
                let v = block.rows[a][b];
                self.change_element(r0 + a + 1, c0 + b + 1, v);
                b += 1;
            }
            a += 1;
        }
    }

    /// Replaces the block of rows `i_i..=i_e` and columns `j_i..=j_e`
    /// (1-based) by `other` times that block.
    pub fn multiply_by_sub(&mut self, rows: (usize, usize), columns: (usize, usize), other: &Self)
        requires
            old(self).wf(),
            other.wf(),
            1 <= rows.0 <= rows.1 <= old(self).m(),
            1 <= columns.0 <= columns.1 <= old(self).n(),
            other.m() == rows.1 - rows.0 + 1,
            other.n() == rows.1 - rows.0 + 1,
        ensures
            final(self).wf(),
            final(self).m() == old(self).m(),
            final(self).n() == old(self).n(),
            forall|i: int, j: int|
                0 <= i < old(self).m() && 0 <= j < old(self).n() && !(rows.0 - 1 <= i < rows.1 && columns.0 - 1 <= j < columns.1) ==> #[trigger] final(self).at(i, j) == old(self).at(i, j),
            forall|i: int, j: int|
                rows.0 - 1 <= i < rows.1 && columns.0 - 1 <= j < columns.1 ==> #[trigger] final(self).at(i, j) == dot(
                    other@[i - (rows.0 - 1)],
                    column_of(
                        block_of(
                            old(self)@,
                            rows.0 - 1,
                            columns.0 - 1,
                            (rows.1 - rows.0 + 1) as nat,
                            (columns.1 - columns.0 + 1) as nat,
                        ),
                        j - (columns.0 - 1),
                    ),
                ),
    {
        let block = self.sub_matrix(rows, columns);
        assert forall|a: int| 0 <= a < block.m() implies #[trigger] block@[a] =~= block_of(
            self@,
            rows.0 - 1,
            columns.0 - 1,
            (rows.1 - rows.0 + 1) as nat,
            (columns.1 - columns.0 + 1) as nat,
        )[a] by {
            assert forall|b: int| 0 <= b < block.n() implies block@[a][b] == self@[rows.0 - 1 + a][columns.0 - 1 + b] by {
                assert(block@[a][b] == block.at(a, b));
                assert(self@[rows.0 - 1 + a][columns.0 - 1 + b] == self.at(rows.0 - 1 + a, columns.0 - 1 + b));
            }
        }
        assert(block@ =~= block_of(
            self@,
            rows.0 - 1,
            columns.0 - 1,
            (rows.1 - rows.0 + 1) as nat,
            (columns.1 - columns.0 + 1) as nat,
        ));
        let result = other.mul_matrix(&block);
        self.set_block(rows.0 - 1, columns.0 - 1, &result);
    }

    /// Subtracts `other` from the block of rows `i_i..=i_e` and columns
    /// `j_i..=j_e` (1-based).
    pub fn subtract_by_sub(&mut self, rows: (usize, usize), columns: (usize, usize), other: &Self)
        requires
            old(self).wf(),
            other.wf(),
            1 <= rows.0 <= rows.1 <= old(self).m(),
            1 <= columns.0 <= columns.1 <= old(self).n(),
            other.m() == rows.1 - rows.0 + 1,
            other.n() == columns.1 - columns.0 + 1,
        ensures
            final(self).wf(),
            final(self).m() == old(self).m(),
            final(self).n() == old(self).n(),
            forall|i: int, j: int|
                0 <= i < old(self).m() && 0 <= j < old(self).n() && !(rows.0 - 1 <= i < rows.1 && columns.0 - 1 <= j < columns.1) ==> #[trigger] final(self).at(i, j) == old(self).at(i, j),
            forall|i: int, j: int|
                rows.0 - 1 <= i < rows.1 && columns.0 - 1 <= j < columns.1 ==> #[trigger] final(self).at(i, j) == old(self).at(i, j).spec_minus(
                    other.at(i - (rows.0 - 1), j - (columns.0 - 1)),
                ),
    {
        let block = self.sub_matrix(rows, columns);
        let result = block.minus(other);
        self.set_block(rows.0 - 1, columns.0 - 1, &result);
    }

    /// The entrywise sum.
    pub fn plus(&self, other: &Self) -> (r: Self)
        requires
            self.wf(),
            other.wf(),
            self.m() == other.m(),
            self.n() == other.n(),
        ensures
            r.wf(),
            r.m() == self.m(),
            r.n() == self.n(),
            forall|i: int, j: int| 0 <= i < self.m() && 0 <= j < self.n() ==> #[trigger] r.at(i, j) == self.at(i, j).spec_plus(other.at(i, j)),
    {
        self.combine(other, true)
    }

    /// The entrywise difference.
    pub fn minus(&self, other: &Self) -> (r: Self)
        requires
            self.wf(),
            other.wf(),
            self.m() == other.m(),
            self.n() == other.n(),
        ensures
            r.wf(),
            r.m() == self.m(),
            r.n() == self.n(),
            forall|i: int, j: int| 0 <= i < self.m() && 0 <= j < self.n() ==> #[trigger] r.at(i, j) == self.at(i, j).spec_minus(other.at(i, j)),
    {
        self.combine(other, false)
    }

    /// The entrywise sum, or with `add` false the entrywise difference.
    fn combine(&self, other: &Self, add: bool) -> (r: Self)
        requires
            self.wf(),
            other.wf(),
            self.m() == other.m(),
            self.n() == other.n(),
        ensures
            r.wf(),
            r.m() == self.m(),
            r.n() == self.n(),
            forall|i: int, j: int| 0 <= i < self.m() && 0 <= j < self.n() ==> #[trigger] r.at(i, j) == if add {
                self.at(i, j).spec_plus(other.at(i, j))
            } else {
                self.at(i, j).spec_minus(other.at(i, j))
            },
    {
        let mut out: Vec<Vec<T>> = Vec::new();
        let mut i: usize = 0;
        while i < self.rows.len()
            invariant
                self.wf(),
                other.wf(),
                self.m() == other.m(),
                self.n() == other.n(),
                i <= self.m(),
                out@.len() == i,
                forall|k: int| 0 <= k < i ==> #[trigger] out@[k]@.len() == self.n(),
                forall|a: int, b: int| 0 <= a < i && 0 <= b < self.n() ==> #[trigger] out@[a]@[b] == if add {
                    self.at(a, b).spec_plus(other.at(a, b))
                } else {
                    self.at(a, b).spec_minus(other.at(a, b))
                },
            decreases self.m() - i,
        {
            let mut row: Vec<T> = Vec::new();
            let mut j: usize = 0;
            while j < self.cols
                invariant
                    self.wf(),
                    other.wf(),
                    self.m() == other.m(),
                    self.n() == other.n(),
                    i < self.m(),
                    j <= self.n(),
                    row@.len() == j,
                    forall|b: int| 0 <= b < j ==> #[trigger] row@[b] == if add {
                        self.at(i as int, b).spec_plus(other.at(i as int, b))
                    } else {
                        self.at(i as int, b).spec_minus(other.at(i as int, b))
                    },
                decreases self.n() - j,
            {
                let x = self.rows[i][j];
                let y = other.rows[i][j];
                row.push(if add { x.plus(y) } else { x.minus(y) });
                j += 1;
            }
            out.push(row);
            i += 1;
        }
        Matrix { rows: out, cols: self.cols }
    }

    /// Every entry multiplied by `factor`.
    pub fn scale(&self, factor: T) -> (r: Self)
        requires
            self.wf(),
        ensures
            r.wf(),
            r.m() == self.m(),
            r.n() == self.n(),
            forall|i: int, j: int| 0 <= i < self.m() && 0 <= j < self.n() ==> #[trigger] r.at(i, j) == self.at(i, j).spec_times(factor),
    {
        let mut out: Vec<Vec<T>> = Vec::new();
        let mut i: usize = 0;
        while i < self.rows.len()
            invariant
                self.wf(),
                i <= self.m(),
                out@.len() == i,
                forall|k: int| 0 <= k < i ==> #[trigger] out@[k]@.len() == self.n(),
                forall|a: int, b: int| 0 <= a < i && 0 <= b < self.n() ==> #[trigger] out@[a]@[b] == self.at(a, b).spec_times(factor),
            decreases self.m() - i,
        {
            let mut row: Vec<T> = Vec::new();
            let mut j: usize = 0;
            while j < self.cols
                invariant
                    self.wf(),
                    i < self.m(),
                    j <= self.n(),
                    row@.len() == j,
                    forall|b: int| 0 <= b < j ==> #[trigger] row@[b] == self.at(i as int, b).spec_times(factor),
                decreases self.n() - j,
            {
                row.push(self.rows[i][j].times(factor));
                j += 1;
            }
            out.push(row);
            i += 1;
        }
        Matrix { rows: out, cols: self.cols }
    }

    /// The product of the matrix with a column vector.
    pub fn mul_vector(&self, v: &Vector<T>) -> (r: Vector<T>)
        requires
            self.wf(),
            v@.len() == self.n(),
        ensures
            r@.len() == self.m(),
            forall|i: int| 0 <= i < self.m() ==> #[trigger] r@[i] == dot(self@[i], v@),
    {
        let mut out: Vec<T> = Vec::new();
        let mut i: usize = 0;
        while i < self.rows.len()
            invariant
                self.wf(),
                v@.len() == self.n(),
                i <= self.m(),
                out@.len() == i,
                forall|k: int| 0 <= k < i ==> #[trigger] out@[k] == dot(self@[k], v@),
            decreases self.m() - i,
        {
            let mut sum = T::zero();
            let mut j: usize = 0;
            while j < self.cols
                invariant
                    self.wf(),
                    v@.len() == self.n(),
                    i < self.m(),
                    j <= self.n(),
                    sum == dot_upto(self@[i as int], v@, j as int),
                decreases self.n() - j,
            {
                sum = sum.plus(self.rows[i][j].times(v.components[j]));
                j += 1;
            }
            out.push(sum);
            i += 1;
        }
        Vector::create_with_vec(out)
    }

    /// The matrix product `self * other`.
    pub fn mul_matrix(&self, other: &Self) -> (r: Self)
        requires
            self.wf(),
            other.wf(),
            self.n() == other.m(),
        ensures
            r.wf(),
            r.m() == self.m(),
            r.n() == other.n(),
            forall|i: int, j: int| 0 <= i < self.m() && 0 <= j < other.n() ==> #[trigger] r.at(i, j) == dot(self@[i], column_of(other@, j)),
    {
        let mut out: Vec<Vec<T>> = Vec::new();
        let mut i: usize = 0;
        while i < self.rows.len()
            invariant
                self.wf(),
                other.wf(),
                self.n() == other.m(),
                i <= self.m(),
                out@.len() == i,
                forall|k: int| 0 <= k < i ==> #[trigger] out@[k]@.len() == other.n(),
                forall|a: int, b: int| 0 <= a < i && 0 <= b < other.n() ==> #[trigger] out@[a]@[b] == dot(self@[a], column_of(other@, b)),
            decreases self.m() - i,
        {
            let mut row: Vec<T> = Vec::new();
            let mut j: usize = 0;
            while j < other.cols
                invariant
                    self.wf(),
                    other.wf(),
                    self.n() == other.m(),
                    i < self.m(),
                    j <= other.n(),
                    row@.len() == j,
                    forall|b: int| 0 <= b < j ==> #[trigger] row@[b] == dot(self@[i as int], column_of(other@, b)),
                decreases other.n() - j,
            {
                let mut sum = T::zero();
                let mut k: usize = 0;
                while k < self.cols
                    invariant
                        self.wf(),
                        other.wf(),
                        self.n() == other.m(),
                        i < self.m(),
                        j < other.n(),
                        k <= self.n(),
                        sum == dot_upto(self@[i as int], column_of(other@, j as int), k as int),
                    decreases self.n() - k,
                {
                    sum = sum.plus(self.rows[i][k].times(other.rows[k][j]));
                    k += 1;
                }
                row.push(sum);
                j += 1;
            }
            out.push(row);
            i += 1;
        }
        Matrix { rows: out, cols: other.cols }
    }

    /// Row `i` (0-based) as a sequence of values.
    pub fn row_copy(&self, i: usize) -> (r: Vec<T>)
        requires
            self.wf(),
            i < self.m(),
        ensures
            r@ == self@[i as int],
            r@.len() == self.n(),
    {
        Self::copy_row(&self.rows[i])
    }

    /// Replaces row `i` (0-based).
    pub fn replace_row(&mut self, i: usize, row: Vec<T>)
        requires
            old(self).wf(),
            i < old(self).m(),
            row@.len() == old(self).n(),
        ensures
            final(self).wf(),
            final(self).m() == old(self).m(),
            final(self).n() == old(self).n(),
            final(self)@ == old(self)@.update(i as int, row@),
    {
        self.rows.set(i, row);
        assert(self@ =~= old(self)@.update(i as int, row@));
    }

    /// The block diagonal matrix with the given matrices along its diagonal
    /// and zeros elsewhere.
    pub fn create_with_diagonal(matrices: &[Matrix<T>]) -> (r: Self)
        requires
            matrices@.len() >= 1,
            forall|k: int| 0 <= k < matrices@.len() ==> (#[trigger] matrices@[k]).wf(),
            rows_total(matrices@, matrices@.len() as int) <= usize::MAX,
            cols_total(matrices@, matrices@.len() as int) <= usize::MAX,
        ensures
            r.wf(),
            r.m() == rows_total(matrices@, matrices@.len() as int),
            r.n() == cols_total(matrices@, matrices@.len() as int),
            forall|i: int, j: int| 0 <= i < r.m() && 0 <= j < r.n() ==> #[trigger] r.at(i, j) == diagonal_entry(
                matrices@,
                matrices@.len() as int,
                i,
                j,
            ),
    {
        let ghost len = matrices@.len() as int;
        let mut m: usize = 0;
        let mut n: usize = 0;
        let mut k: usize = 0;
        while k < matrices.len()
            invariant
                k <= len,
                len == matrices@.len(),
                m == rows_total(matrices@, k as int),
                n == cols_total(matrices@, k as int),
                rows_total(matrices@, len) <= usize::MAX,
                cols_total(matrices@, len) <= usize::MAX,
            decreases len - k,
        {
            proof {
                lemma_totals_grow(matrices@, k + 1, len);
            }
            m = m + matrices[k].rows.len();
            n = n + matrices[k].cols;
            k += 1;
        }
        proof {
            lemma_totals_grow(matrices@, 1, len);
            assert(matrices@[0].wf());
            assert(rows_total(matrices@, 1) == rows_total(matrices@, 0) + matrices@[0].rows@.len());
            assert(cols_total(matrices@, 1) == cols_total(matrices@, 0) + matrices@[0].cols);
        }
        let mut result = Self::zero(m, n);
        assert forall|i: int, j: int| 0 <= i < m && 0 <= j < n implies #[trigger] result.at(i, j) == diagonal_entry(matrices@, 0, i, j) by {}
        let mut x: usize = 0;
        let mut y: usize = 0;
        let mut k: usize = 0;
        while k < matrices.len()
            invariant
                k <= len,
                len == matrices@.len(),
                forall|l: int| 0 <= l < len ==> (#[trigger] matrices@[l]).wf(),
                x == rows_total(matrices@, k as int),
                y == cols_total(matrices@, k as int),
                m == rows_total(matrices@, len),
                n == cols_total(matrices@, len),
                result.wf(),
                result.m() == m,
                result.n() == n,
                forall|i: int, j: int| 0 <= i < m && 0 <= j < n ==> #[trigger] result.at(i, j) == diagonal_entry(matrices@, k as int, i, j),
            decreases len - k,
        {
            proof {
                lemma_totals_grow(matrices@, k + 1, len);
            }
            result.set_block(x, y, &matrices[k]);
            x = x + matrices[k].rows.len();
            y = y + matrices[k].cols;
            k += 1;
        }
        result
    }

    /// The inverse, read off the transform of the reduction to the identity.
    /// `NotSquare` for a matrix that is not square, `Singular` for one with a
    /// nontrivial null space.
    pub fn inverse(&self) -> (r: Result<Self, LinalgError>)
        requires
            self.wf(),
        ensures
            (self.m() != self.n()) <==> r == Err::<Self, _>(LinalgError::NotSquare),
            (self.m() == self.n() && echelon_pivots(self@, self.n()).len() != self.n()) <==> r == Err::<Self, _>(LinalgError::Singular),
            r is Err ==> r == Err::<Self, _>(LinalgError::NotSquare) || r == Err::<Self, _>(LinalgError::Singular),
            r matches Ok(a) ==> a.wf() && a.m() == self.m() && a.n() == self.n() && a@ == reduced(self@, self.n()).1,
    {
        if self.rows.len() != self.cols {
            return Err(LinalgError::NotSquare);
        }
        let spaces = Spaces::new();
        if spaces.null_dimension(self) != 0 {
            return Err(LinalgError::Singular);
        }
        let eliminator = Eliminator::new();
        let mut cloned = self.duplicate();
        let (_, inverse) = eliminator.rref(&mut cloned);
        Ok(inverse)
    }

    /// The orthogonal projector onto the column space. With `vector`, the
    /// matrix is taken as one row `v` and the result is `vᵗv / (v vᵗ)`.
    /// Otherwise the columns must be independent (`Singular` if not) and the
    /// result is `A (AᵗA)⁻¹ Aᵗ`.
    pub fn ortogonal_projector(&self, vector: bool) -> (r: Result<Self, LinalgError>)
        requires
            self.wf(),
        ensures
            vector ==> (r matches Ok(p) && p.wf() && p.m() == self.n() && p.n() == self.n() && forall|i: int, j: int|
                0 <= i < self.n() && 0 <= j < self.n() ==> #[trigger] p.at(i, j) == dot(column_of(self@, i), column_of(self@, j)).spec_times(
                    T::spec_one().spec_over(dot(self@[0], self@[0])),
                )),
            !vector ==> (r matches Ok(p) ==> p.wf() && p.m() == self.m() && p.n() == self.m() && forall|i: int, j: int|
                0 <= i < self.m() && 0 <= j < self.m() ==> #[trigger] p.at(i, j) == dot(
                    self@[i],
                    column_of(projector_inner(self@, self.m(), self.n()), j),
                )),
            !vector ==> (r is Err <==> (echelon_pivots(self@, self.n()).len() != self.n() || echelon_pivots(
                gram(self@, self.n()),
                self.n(),
            ).len() != self.n())),
            r is Err ==> r == Err::<Self, _>(LinalgError::Singular),
    {
        let transpose = self.transpose();
        assert forall|i: int| 0 <= i < self.n() implies #[trigger] transpose@[i] == column_of(self@, i) by {
            assert forall|c: int| 0 <= c < self.m() implies transpose@[i][c] == column_of(self@, i)[c] by {
                assert(transpose@[i][c] == transpose.at(i, c));
                assert(self@[c][i] == self.at(c, i));
            }
            assert(transpose@[i] =~= column_of(self@, i));
        }
        assert forall|c: int| 0 <= c < self.n() implies column_of(transpose@, 0)[c] == self@[0][c] by {
            assert(transpose@[c][0] == transpose.at(c, 0));
            assert(self@[0][c] == self.at(0, c));
        }
        assert(column_of(transpose@, 0) =~= self@[0]);
        if vector {
            let outer = transpose.mul_matrix(self);
            let inner = self.mul_matrix(&transpose);
            assert(inner.at(0, 0) == dot(self@[0], self@[0]));
            return Ok(outer.scale(T::one().over(inner.get(0, 0))));
        }
        let spaces = Spaces::new();
        if spaces.column_dimension(self) != self.cols {
            return Err(LinalgError::Singular);
        }
        let t_m = transpose.mul_matrix(self);
        let ghost n = self.n();
        assert forall|i: int| 0 <= i < n implies #[trigger] t_m@[i] =~= gram(self@, n)[i] by {
            assert forall|j: int| 0 <= j < n implies t_m@[i][j] == gram(self@, n)[i][j] by {
                assert(t_m@[i][j] == t_m.at(i, j));
            }
        }
        assert(t_m@ =~= gram(self@, n));
        let t_m_inverse = match t_m.inverse() {
            Ok(a) => a,
            Err(_) => return Err(LinalgError::Singular),
        };
        let inner = t_m_inverse.mul_matrix(&transpose);
        assert forall|i: int| 0 <= i < n implies #[trigger] inner@[i] =~= projector_inner(self@, self.m(), n)[i] by {
            assert forall|j: int| 0 <= j < self.m() implies inner@[i][j] == projector_inner(self@, self.m(), n)[i][j] by {
                assert(inner@[i][j] == inner.at(i, j));
                assert forall|c: int| 0 <= c < n implies column_of(transpose@, j)[c] == self@[j][c] by {
                    assert(transpose@[c][j] == transpose.at(c, j));
                    assert(self@[j][c] == self.at(j, c));
                }
                assert(column_of(transpose@, j) =~= self@[j]);
                assert(t_m_inverse@[i] == reduced(gram(self@, n), n).1[i]);
            }
        }
        assert(inner@ =~= projector_inner(self@, self.m(), n));
        Ok(self.mul_matrix(&inner))
    }
}

} // verus!
