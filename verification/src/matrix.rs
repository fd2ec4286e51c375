//! Dense matrices: construction, row exchange, sums, multiples, products and
//! transposes.

use crate::scalar::{total_arithmetic, Scalar};
use crate::vector::{
    dot, dot_ok, dot_prefix, dot_prefix_ok, lemma_dot_prefix_ok_shorter, lemma_total_dot_ok,
    scaled, scaled_ok, sum, sum_ok,
};
use vstd::prelude::*;

verus! {

/// Failure of a matrix operation.
#[derive(Debug, PartialEq)]
pub enum MatrixError {
    /// The rows handed to the constructor do not all have the same length.
    InconsistentColumnSizes,
    /// The left factor has not as many columns as the right factor has rows.
    MultiplicationDimensionMismatch,
    /// The two operands of an elementwise operation differ in shape.
    DimensionMismatch,
    /// A row index is not below the number of rows.
    RowOutOfBound,
    /// A pivot of the elimination is exactly zero: the matrix has no inverse.
    Singular,
}

/// A dense matrix, stored row by row.
#[derive(Debug, PartialEq)]
pub struct Matrix<T> {
    data: Vec<Vec<T>>,
    rows: u64,
    cols: u64,
}

/// The rows of `data`, each as a sequence of its cells.
pub open spec fn rows_of<T>(data: Seq<Vec<T>>) -> Seq<Seq<T>> {
    Seq::new(data.len(), |i: int| data[i]@)
}

/// Every row of `m` is as long as its first row.
pub open spec fn rectangular<T>(m: Seq<Seq<T>>) -> bool {
    forall|i: int| 0 <= i < m.len() ==> (#[trigger] m[i]).len() == m[0].len()
}

/// The number of columns of a rectangular `m`: the length of its rows, and 0
/// where it has none.
pub open spec fn width<T>(m: Seq<Seq<T>>) -> nat {
    if m.len() == 0 {
        0
    } else {
        m[0].len()
    }
}

/// Column `j` of `m`, from the first row to the last.
pub open spec fn column<T>(m: Seq<Seq<T>>, j: int) -> Seq<T> {
    Seq::new(m.len(), |k: int| m[k][j])
}

/// `a` with rows and columns exchanged.
pub open spec fn transposed<T>(a: Seq<Seq<T>>) -> Seq<Seq<T>> {
    Seq::new(width(a), |j: int| column(a, j))
}

/// `m` has `rows` rows of `cols` cells each.
pub open spec fn shaped<T>(m: Seq<Seq<T>>, rows: nat, cols: nat) -> bool {
    &&& m.len() == rows
    &&& forall|i: int| 0 <= i < rows ==> (#[trigger] m[i]).len() == cols
}

impl<T> Matrix<T> {
    /// The recorded shape is the shape of the stored rows: there are `rows`
    /// of them, each `cols` long, and a matrix without rows has no columns.
    pub closed spec fn well_formed(&self) -> bool {
        &&& self.rows == self.data@.len()
        &&& forall|i: int| 0 <= i < self.data@.len() ==> (#[trigger] self.data@[i])@.len() == self.cols
        &&& self.rows == 0 ==> self.cols == 0
    }

    /// The cells, row by row.
    pub closed spec fn view(&self) -> Seq<Seq<T>> {
        rows_of(self.data@)
    }

    /// Builds a matrix from its rows. Rows of unequal length are rejected; no
    /// rows at all give the empty matrix.
    pub fn new(data: Vec<Vec<T>>) -> (r: Result<Self, MatrixError>)
        ensures
            match r {
                Ok(m) => rectangular(rows_of(data@)) && m.well_formed() && m@ == rows_of(data@),
                Err(e) => !rectangular(rows_of(data@)) && e == MatrixError::InconsistentColumnSizes,
            },
    {
        let rows = data.len();
        if rows == 0 {
            return Ok(Self { data, rows: 0, cols: 0 });
        }
        let cols = data[0].len();
        let mut i: usize = 1;
        while i < rows
            invariant
                1 <= i <= rows,
                rows == data@.len(),
                cols == data@[0]@.len(),
                forall|k: int| 0 <= k < i ==> (#[trigger] data@[k])@.len() == cols,
            decreases rows - i,
        {
            if data[i].len() != cols {
                proof {
                    assert(rows_of(data@)[i as int].len() != rows_of(data@)[0].len());
                }
                return Err(MatrixError::InconsistentColumnSizes);
            }
            i += 1;
        }
        Ok(Self { data, rows: rows as u64, cols: cols as u64 })
    }

    /// The matrix with the rows `data`, which are known to be of one length.
    pub(crate) fn from_rows(data: Vec<Vec<T>>) -> (m: Self)
        requires
            rectangular(rows_of(data@)),
        ensures
            m.well_formed(),
            m@ == rows_of(data@),
    {
        let rows = data.len();
        let cols = if rows == 0 {
            0
        } else {
            data[0].len()
        };
        assert forall|i: int| 0 <= i < data@.len() implies (#[trigger] data@[i])@.len() == cols by {
            assert(rows_of(data@)[i].len() == rows_of(data@)[0].len());
        }
        Self { data, rows: rows as u64, cols: cols as u64 }
    }

    /// Number of rows.
    pub fn rows(&self) -> (n: u64)
        requires
            self.well_formed(),
        ensures
            n == self@.len(),
            n <= usize::MAX,
    {
        assert(self.rows == self.data.len());
        self.rows
    }

    /// Number of columns.
    pub fn cols(&self) -> (n: u64)
        requires
            self.well_formed(),
        ensures
            n == width(self@),
    {
        self.cols
    }

    /// Row `i`.
    pub fn row(&self, i: usize) -> (r: &Vec<T>)
        requires
            self.well_formed(),
            i < self@.len(),
        ensures
            r@ == self@[i as int],
    {
        &self.data[i]
    }

    /// The rows of a well-formed matrix all have the same length.
    pub proof fn lemma_rectangular(&self)
        requires
            self.well_formed(),
        ensures
            rectangular(self@),
            self@.len() <= u64::MAX,
            width(self@) <= u64::MAX,
    {
    }
}

/// A fresh vector with the cells of `row`.
pub(crate) fn copy_of<T: Copy>(row: &Vec<T>) -> (r: Vec<T>)
    ensures
        r@ == row@,
{
    let n = row.len();
    let mut r: Vec<T> = Vec::with_capacity(n);
    let mut i: usize = 0;
    while i < n
        invariant
            i <= n,
            n == row@.len(),
            r@ == row@.take(i as int),
        decreases n - i,
    {
        r.push(row[i]);
        i += 1;
    }
    r
}

impl<T: Copy> Clone for Matrix<T> {
    /// A matrix of the same shape with the same cells.
    fn clone(&self) -> (copy: Self)
        ensures
            copy@ == self@,
            self.well_formed() ==> copy.well_formed(),
    {
        let n = self.data.len();
        let mut data: Vec<Vec<T>> = Vec::with_capacity(n);
        let mut i: usize = 0;
        while i < n
            invariant
                i <= n,
                n == self.data@.len(),
                data@.len() == i,
                forall|k: int| 0 <= k < i ==> (#[trigger] data@[k])@ == self.data@[k]@,
            decreases n - i,
        {
            data.push(copy_of(&self.data[i]));
            i += 1;
        }
        let copy = Matrix { data, rows: self.rows, cols: self.cols };
        copy
    }
}

impl<T: Copy> Matrix<T> {
    /// Column `j`, from the first row to the last.
    pub fn column(&self, j: usize) -> (c: Vec<T>)
        requires
            self.well_formed(),
            j < width(self@),
        ensures
            c@ == column(self@, j as int),
    {
        let n = self.data.len();
        let mut c: Vec<T> = Vec::with_capacity(n);
        let mut k: usize = 0;
        while k < n
            invariant
                k <= n,
                n == self@.len(),
                self.well_formed(),
                j < width(self@),
                c@ == column(self@, j as int).take(k as int),
            decreases n - k,
        {
            c.push(self.data[k][j]);
            k += 1;
        }
        c
    }

    /// This matrix with rows and columns exchanged, as a new matrix.
    pub fn transpose(&self) -> (t: Matrix<T>)
        requires
            self.well_formed(),
        ensures
            t.well_formed(),
            t@ == transposed(self@),
    {
        let cols = if self.data.len() == 0 {
            0
        } else {
            self.data[0].len()
        };
        let mut data: Vec<Vec<T>> = Vec::with_capacity(cols);
        let mut j: usize = 0;
        while j < cols
            invariant
                j <= cols,
                cols == width(self@),
                self.well_formed(),
                data@.len() == j,
                rows_of(data@) == transposed(self@).take(j as int),
                forall|k: int| 0 <= k < j ==> (#[trigger] data@[k])@.len() == self@.len(),
            decreases cols - j,
        {
            data.push(self.column(j));
            j += 1;
        }
        let t = Matrix {
            data,
            rows: self.cols,
            cols: if self.cols == 0 {
                0
            } else {
                self.rows
            },
        };
        t
    }

    /// Exchanges rows `f_row` and `s_row`. An index that is not below the number
    /// of rows is rejected, and the matrix stays as it is.
    pub fn swap_row(&mut self, f_row: u64, s_row: u64) -> (r: Result<(), MatrixError>)
        requires
            old(self).well_formed(),
        ensures
            final(self).well_formed(),
            match r {
                Ok(_) => f_row < old(self)@.len() && s_row < old(self)@.len() && final(self)@
                    == old(self)@.update(f_row as int, old(self)@[s_row as int]).update(
                    s_row as int,
                    old(self)@[f_row as int],
                ),
                Err(e) => !(f_row < old(self)@.len() && s_row < old(self)@.len()) && e
                    == MatrixError::RowOutOfBound && final(self)@ == old(self)@,
            },
    {
        if f_row >= self.rows || s_row >= self.rows {
            return Err(MatrixError::RowOutOfBound);
        }
        assert(self.rows == self.data.len());
        let f = f_row as usize;
        let s = s_row as usize;
        let first = copy_of(&self.data[f]);
        let second = copy_of(&self.data[s]);
        self.data[f] = second;
        self.data[s] = first;
        Ok(())
    }
}

/// The identity matrix with `n` rows.
pub open spec fn identity<T: Scalar>(n: nat) -> Seq<Seq<T>> {
    Seq::new(
        n,
        |i: int|
            Seq::new(
                n,
                |j: int|
                    if i == j {
                        T::one_spec()
                    } else {
                        T::zero_spec()
                    },
            ),
    )
}

/// The matrix of `rows` rows and `cols` columns whose cells are all zero.
pub open spec fn zero_matrix<T: Scalar>(rows: nat, cols: nat) -> Seq<Seq<T>> {
    Seq::new(rows, |i: int| Seq::new(cols, |j: int| T::zero_spec()))
}

/// Every cellwise sum of `a` and `b` can be represented.
pub open spec fn matrix_sum_ok<T: Scalar>(a: Seq<Seq<T>>, b: Seq<Seq<T>>) -> bool {
    forall|i: int| 0 <= i < a.len() ==> sum_ok(#[trigger] a[i], b[i])
}

/// The cellwise sum of `a` and `b`.
pub open spec fn matrix_sum<T: Scalar>(a: Seq<Seq<T>>, b: Seq<Seq<T>>) -> Seq<Seq<T>> {
    Seq::new(a.len(), |i: int| sum(a[i], b[i]))
}

/// Every cell of `a` can be multiplied by `factor`.
pub open spec fn matrix_scaled_ok<T: Scalar>(a: Seq<Seq<T>>, factor: T) -> bool {
    forall|i: int| 0 <= i < a.len() ==> scaled_ok(#[trigger] a[i], factor)
}

/// `a` with every cell multiplied by `factor`.
pub open spec fn matrix_scaled<T: Scalar>(a: Seq<Seq<T>>, factor: T) -> Seq<Seq<T>> {
    Seq::new(a.len(), |i: int| scaled(a[i], factor))
}

/// Every cell of the product of `a` and `b` can be computed without leaving `T`.
pub open spec fn product_ok<T: Scalar>(a: Seq<Seq<T>>, b: Seq<Seq<T>>) -> bool {
    forall|i: int, j: int|
        0 <= i < a.len() && 0 <= j < width(b) ==> dot_ok(#[trigger] a[i], #[trigger] column(b, j))
}

/// The product of the row `row` and the matrix `b`: cell `j` is the dot
/// product of `row` and column `j` of `b`.
pub open spec fn row_product<T: Scalar>(row: Seq<T>, b: Seq<Seq<T>>) -> Seq<T> {
    Seq::new(width(b), |j: int| dot(row, column(b, j)))
}

/// The product of `a` and `b`: cell `(i, j)` is the dot product of row `i` of
/// `a` and column `j` of `b`.
pub open spec fn product<T: Scalar>(a: Seq<Seq<T>>, b: Seq<Seq<T>>) -> Seq<Seq<T>> {
    Seq::new(a.len(), |i: int| row_product(a[i], b))
}

/// Where the arithmetic of `T` is total, every product of matrices can be
/// computed.
pub proof fn lemma_total_product_ok<T: Scalar>(a: Seq<Seq<T>>, b: Seq<Seq<T>>)
    requires
        total_arithmetic::<T>(),
    ensures
        product_ok(a, b),
{
    assert forall|i: int, j: int| 0 <= i < a.len() && 0 <= j < width(b) implies dot_ok(
        #[trigger] a[i],
        #[trigger] column(b, j),
    ) by {
        lemma_total_dot_ok(a[i], column(b, j));
    }
}

/// Adds `summands` to `target`, cell by cell.
fn add_to_row<T: Scalar>(target: &mut Vec<T>, summands: &Vec<T>)
    requires
        old(target)@.len() == summands@.len(),
        sum_ok(old(target)@, summands@),
    ensures
        final(target)@ == sum(old(target)@, summands@),
{
    let n = target.len();
    let mut i: usize = 0;
    while i < n
        invariant
            i <= n,
            n == old(target)@.len(),
            n == summands@.len(),
            target@.len() == n,
            sum_ok(old(target)@, summands@),
            forall|k: int| 0 <= k < i ==> target@[k] == (#[trigger] old(target)@[k]).plus_spec(summands@[k]),
            forall|k: int| i <= k < n ==> target@[k] == old(target)@[k],
        decreases n - i,
    {
        let s = target[i].plus(summands[i]);
        target[i] = s;
        i += 1;
    }
}

/// Multiplies every cell of `target` by `factor`.
fn scale_row<T: Scalar>(target: &mut Vec<T>, factor: T)
    requires
        scaled_ok(old(target)@, factor),
    ensures
        final(target)@ == scaled(old(target)@, factor),
{
    let n = target.len();
    let mut i: usize = 0;
    while i < n
        invariant
            i <= n,
            n == old(target)@.len(),
            target@.len() == n,
            scaled_ok(old(target)@, factor),
            forall|k: int| 0 <= k < i ==> target@[k] == (#[trigger] old(target)@[k]).times_spec(factor),
            forall|k: int| i <= k < n ==> target@[k] == old(target)@[k],
        decreases n - i,
    {
        let s = target[i].times(factor);
        target[i] = s;
        i += 1;
    }
}

impl<T: Scalar> Matrix<T> {
    /// The dot product of `row` and column `j` of this matrix.
    fn dot_with_column(&self, row: &Vec<T>, j: usize) -> (r: T)
        requires
            self.well_formed(),
            row@.len() == self@.len(),
            j < width(self@),
            dot_ok(row@, column(self@, j as int)),
        ensures
            r == dot(row@, column(self@, j as int)),
    {
        let n = row.len();
        let ghost col = column(self@, j as int);
        let mut acc = T::zero();
        let mut k: usize = 0;
        while k < n
            invariant
                k <= n,
                n == row@.len(),
                n == self@.len(),
                self.well_formed(),
                j < width(self@),
                col == column(self@, j as int),
                dot_prefix_ok(row@, col, n as nat),
                acc == dot_prefix(row@, col, k as nat),
            decreases n - k,
        {
            proof {
                lemma_dot_prefix_ok_shorter(row@, col, n as nat, (k + 1) as nat);
            }
            let p = row[k].times(self.data[k][j]);
            acc = acc.plus(p);
            k += 1;
        }
        acc
    }

    /// The product of `row` and this matrix.
    fn times_row(&self, row: &Vec<T>) -> (r: Vec<T>)
        requires
            self.well_formed(),
            row@.len() == self@.len(),
            forall|j: int| 0 <= j < width(self@) ==> dot_ok(row@, #[trigger] column(self@, j)),
        ensures
            r@ == row_product(row@, self@),
    {
        let cols = if self.data.len() == 0 {
            0
        } else {
            self.data[0].len()
        };
        let mut r: Vec<T> = Vec::with_capacity(cols);
        let mut j: usize = 0;
        while j < cols
            invariant
                j <= cols,
                cols == width(self@),
                self.well_formed(),
                row@.len() == self@.len(),
                forall|c: int| 0 <= c < width(self@) ==> dot_ok(row@, #[trigger] column(self@, c)),
                r@ == row_product(row@, self@).take(j as int),
            decreases cols - j,
        {
            r.push(self.dot_with_column(row, j));
            j += 1;
        }
        r
    }

    /// The product of this matrix and `matrix`, which has as many rows as this
    /// matrix has columns.
    pub(crate) fn times(&self, matrix: &Matrix<T>) -> (p: Matrix<T>)
        requires
            self.well_formed(),
            matrix.well_formed(),
            width(self@) == matrix@.len(),
            product_ok(self@, matrix@),
        ensures
            p.well_formed(),
            p@ == product(self@, matrix@),
    {
        let n = self.data.len();
        let mut data: Vec<Vec<T>> = Vec::with_capacity(n);
        let mut i: usize = 0;
        while i < n
            invariant
                i <= n,
                n == self@.len(),
                self.well_formed(),
                matrix.well_formed(),
                width(self@) == matrix@.len(),
                product_ok(self@, matrix@),
                rows_of(data@) == product(self@, matrix@).take(i as int),
                data@.len() == i,
                forall|k: int| 0 <= k < i ==> (#[trigger] data@[k])@.len() == width(matrix@),
            decreases n - i,
        {
            assert forall|j: int| 0 <= j < width(matrix@) implies dot_ok(
                self.data@[i as int]@,
                #[trigger] column(matrix@, j),
            ) by {
                assert(self@[i as int] == self.data@[i as int]@);
            }
            let row = matrix.times_row(&self.data[i]);
            data.push(row);
            i += 1;
        }
        let p = Matrix { data, rows: self.rows, cols: matrix.cols };
        p
    }

    /// The product of this matrix and `matrix`, as a new matrix. A right factor
    /// that has not as many rows as this matrix has columns is rejected.
    pub fn matrix_multiplication(self, matrix: &Matrix<T>) -> (r: Result<Matrix<T>, MatrixError>)
        requires
            self.well_formed(),
            matrix.well_formed(),
            width(self@) == matrix@.len() ==> product_ok(self@, matrix@),
        ensures
            match r {
                Ok(p) => width(self@) == matrix@.len() && p.well_formed() && p@ == product(
                    self@,
                    matrix@,
                ),
                Err(e) => width(self@) != matrix@.len() && e
                    == MatrixError::MultiplicationDimensionMismatch,
            },
    {
        if self.cols != matrix.rows {
            return Err(MatrixError::MultiplicationDimensionMismatch);
        }
        Ok(self.times(matrix))
    }

    /// Adds `matrix` to this matrix, cell by cell. A matrix of another shape
    /// is rejected, and this matrix stays as it is.
    pub fn add(&mut self, matrix: &Matrix<T>) -> (r: Result<(), MatrixError>)
        requires
            old(self).well_formed(),
            matrix.well_formed(),
            old(self)@.len() == matrix@.len() && width(old(self)@) == width(matrix@)
                ==> matrix_sum_ok(old(self)@, matrix@),
        ensures
            final(self).well_formed(),
            match r {
                Ok(_) => old(self)@.len() == matrix@.len() && width(old(self)@) == width(matrix@)
                    && final(self)@ == matrix_sum(old(self)@, matrix@),
                Err(e) => !(old(self)@.len() == matrix@.len() && width(old(self)@) == width(
                    matrix@,
                )) && e == MatrixError::DimensionMismatch && final(self)@ == old(self)@,
            },
    {
        if self.cols != matrix.cols || self.rows != matrix.rows {
            return Err(MatrixError::DimensionMismatch);
        }
        let n = self.data.len();
        let mut i: usize = 0;
        while i < n
            invariant
                i <= n,
                n == old(self)@.len(),
                n == matrix@.len(),
                old(self).well_formed(),
                matrix.well_formed(),
                self.well_formed(),
                self.rows == old(self).rows,
                self.cols == old(self).cols,
                self.cols == matrix.cols,
                matrix_sum_ok(old(self)@, matrix@),
                forall|k: int| 0 <= k < i ==> self@[k] == sum(#[trigger] old(self)@[k], matrix@[k]),
                forall|k: int| i <= k < n ==> self@[k] == old(self)@[k],
            decreases n - i,
        {
            assert(sum_ok(old(self)@[i as int], matrix@[i as int]));
            add_to_row(&mut self.data[i], &matrix.data[i]);
            i += 1;
        }
        Ok(())
    }

    /// Multiplies every cell by `scalar`.
    pub fn scalar_multiplication(&mut self, scalar: T)
        requires
            old(self).well_formed(),
            matrix_scaled_ok(old(self)@, scalar),
        ensures
            final(self).well_formed(),
            final(self)@ == matrix_scaled(old(self)@, scalar),
    {
        let n = self.data.len();
        let mut i: usize = 0;
        while i < n
            invariant
                i <= n,
                n == old(self)@.len(),
                old(self).well_formed(),
                self.well_formed(),
                self.rows == old(self).rows,
                self.cols == old(self).cols,
                matrix_scaled_ok(old(self)@, scalar),
                forall|k: int| 0 <= k < i ==> self@[k] == scaled(#[trigger] old(self)@[k], scalar),
                forall|k: int| i <= k < n ==> self@[k] == old(self)@[k],
            decreases n - i,
        {
            assert(scaled_ok(old(self)@[i as int], scalar));
            scale_row(&mut self.data[i], scalar);
            i += 1;
        }
    }
}

} // verus!
