//! Matrix inversion by Gauss-Jordan elimination with partial pivoting.

use crate::matrix::{copy_of, identity, rows_of, shaped, width, Matrix, MatrixError};
use crate::scalar::{total_arithmetic, Scalar};
use vstd::prelude::*;

verus! {

/// `a` with the identity matrix appended to its right: `[a | I]`.
pub open spec fn augmented<T: Scalar>(a: Seq<Seq<T>>) -> Seq<Seq<T>> {
    Seq::new(a.len(), |i: int| a[i] + identity::<T>(a.len())[i])
}

/// The row that a scan from row `col` up to, not including, row `upto` picks
/// as pivot for column `col`: it starts with row `col` and moves on to a later
/// row whenever that row's cell in the column exceeds the cell of the row it
/// holds.
pub open spec fn pivot_row<T: Scalar>(m: Seq<Seq<T>>, col: int, upto: int) -> int
    decreases upto - col,
{
    if upto <= col + 1 {
        col
    } else {
        let best = pivot_row(m, col, upto - 1);
        if m[upto - 1][col].exceeds_spec(m[best][col]) {
            upto - 1
        } else {
            best
        }
    }
}

/// `m` with rows `i` and `j` exchanged.
pub open spec fn rows_swapped<T>(m: Seq<Seq<T>>, i: int, j: int) -> Seq<Seq<T>> {
    m.update(i, m[j]).update(j, m[i])
}

/// `row` with every cell divided by `divisor`.
pub open spec fn row_divided<T: Scalar>(row: Seq<T>, divisor: T) -> Seq<T> {
    Seq::new(row.len(), |j: int| row[j].over_spec(divisor))
}

/// `row` minus `factor` times `pivot`, cell by cell.
pub open spec fn row_reduced<T: Scalar>(row: Seq<T>, factor: T, pivot: Seq<T>) -> Seq<T> {
    Seq::new(row.len(), |j: int| row[j].minus_spec(factor.times_spec(pivot[j])))
}

/// Every cell of `row` can be divided by `divisor`.
pub open spec fn row_divided_ok<T: Scalar>(row: Seq<T>, divisor: T) -> bool {
    forall|j: int| 0 <= j < row.len() ==> (#[trigger] row[j]).over_ok(divisor)
}

/// Every cell of `row_reduced(row, factor, pivot)` can be computed without
/// leaving `T`.
pub open spec fn row_reduced_ok<T: Scalar>(row: Seq<T>, factor: T, pivot: Seq<T>) -> bool {
    forall|j: int|
        0 <= j < row.len() ==> factor.times_ok(#[trigger] pivot[j]) && row[j].minus_ok(
            factor.times_spec(pivot[j]),
        )
}

/// `m` after row `i`, scaled by the other row's cell in column `i`, has been
/// subtracted from every other row.
pub open spec fn column_cleared<T: Scalar>(m: Seq<Seq<T>>, i: int) -> Seq<Seq<T>> {
    Seq::new(
        m.len(),
        |r: int|
            if r == i {
                m[i]
            } else {
                row_reduced(m[r], m[r][i], m[i])
            },
    )
}

/// Every cell of `column_cleared(m, i)` can be computed without leaving `T`.
pub open spec fn column_cleared_ok<T: Scalar>(m: Seq<Seq<T>>, i: int) -> bool {
    forall|r: int| 0 <= r < m.len() && r != i ==> row_reduced_ok(#[trigger] m[r], m[r][i], m[i])
}

/// One step of the elimination, on column `i`: the pivot row is moved to
/// position `i` and divided by the pivot, then column `i` is cleared in all
/// other rows. There is no result where the pivot is exactly zero.
pub open spec fn eliminated<T: Scalar>(m: Seq<Seq<T>>, i: int) -> Option<Seq<Seq<T>>> {
    let swapped = rows_swapped(m, i, pivot_row(m, i, m.len() as int));
    let pivot = swapped[i][i];
    if pivot.is_zero_spec() {
        None
    } else {
        Some(column_cleared(swapped.update(i, row_divided(swapped[i], pivot)), i))
    }
}

/// The step of the elimination on column `i` can be carried out without
/// leaving `T`, as far as it goes.
pub open spec fn eliminated_ok<T: Scalar>(m: Seq<Seq<T>>, i: int) -> bool {
    let swapped = rows_swapped(m, i, pivot_row(m, i, m.len() as int));
    let pivot = swapped[i][i];
    pivot.is_zero_spec() || {
        &&& row_divided_ok(swapped[i], pivot)
        &&& column_cleared_ok(swapped.update(i, row_divided(swapped[i], pivot)), i)
    }
}

/// `m` after the elimination has run on its first `steps` columns, and `None`
/// where one of the pivots was exactly zero.
pub open spec fn reduced<T: Scalar>(m: Seq<Seq<T>>, steps: nat) -> Option<Seq<Seq<T>>>
    decreases steps,
{
    if steps == 0 {
        Some(m)
    } else {
        match reduced(m, (steps - 1) as nat) {
            Some(before) => eliminated(before, steps - 1),
            None => None,
        }
    }
}

/// The elimination on the first `steps` columns of `m` can be carried out
/// without leaving `T`, as far as it goes.
pub open spec fn reduced_ok<T: Scalar>(m: Seq<Seq<T>>, steps: nat) -> bool
    decreases steps,
{
    steps == 0 || {
        &&& reduced_ok(m, (steps - 1) as nat)
        &&& match reduced(m, (steps - 1) as nat) {
            Some(before) => eliminated_ok(before, steps - 1),
            None => true,
        }
    }
}

/// The right half of a matrix that is twice as wide as it is high.
pub open spec fn right_half<T>(m: Seq<Seq<T>>) -> Seq<Seq<T>> {
    Seq::new(m.len(), |i: int| m[i].subrange(m.len() as int, 2 * m.len() as int))
}

/// What Gauss-Jordan elimination with partial pivoting makes of the square
/// matrix `a`: the right half of `[a | I]` after the elimination has run on
/// every column, and `None` where a pivot was exactly zero.
pub open spec fn inverse_of<T: Scalar>(a: Seq<Seq<T>>) -> Option<Seq<Seq<T>>> {
    match reduced(augmented(a), a.len()) {
        Some(m) => Some(right_half(m)),
        None => None,
    }
}

/// The inversion of `a` can be carried out without leaving `T`, as far as it
/// goes.
pub open spec fn inverse_ok<T: Scalar>(a: Seq<Seq<T>>) -> bool {
    reduced_ok(augmented(a), a.len())
}

/// Where the arithmetic of `T` is total, every inversion can be carried out.
pub proof fn lemma_total_inverse_ok<T: Scalar>(a: Seq<Seq<T>>)
    requires
        total_arithmetic::<T>(),
    ensures
        inverse_ok(a),
{
    lemma_total_reduced_ok(augmented(a), a.len());
}

proof fn lemma_total_reduced_ok<T: Scalar>(m: Seq<Seq<T>>, steps: nat)
    requires
        total_arithmetic::<T>(),
    ensures
        reduced_ok(m, steps),
    decreases steps,
{
    if steps > 0 {
        lemma_total_reduced_ok(m, (steps - 1) as nat);
    }
}

/// Where an elimination can be carried out, its first steps can.
proof fn lemma_reduced_ok_shorter<T: Scalar>(m: Seq<Seq<T>>, steps: nat, fewer: nat)
    requires
        reduced_ok(m, steps),
        fewer <= steps,
    ensures
        reduced_ok(m, fewer),
    decreases steps,
{
    if fewer < steps {
        lemma_reduced_ok_shorter(m, (steps - 1) as nat, fewer);
    }
}

/// An elimination that has failed stays failed.
proof fn lemma_reduced_stays_none<T: Scalar>(m: Seq<Seq<T>>, failed: nat, steps: nat)
    requires
        reduced(m, failed) is None,
        failed <= steps,
    ensures
        reduced(m, steps) is None,
    decreases steps,
{
    if failed < steps {
        lemma_reduced_stays_none(m, failed, (steps - 1) as nat);
    }
}

/// `row` followed by row `i` of the identity matrix with `n` rows.
fn augmented_row<T: Scalar>(row: &Vec<T>, i: usize, n: usize) -> (r: Vec<T>)
    requires
        i < n,
    ensures
        r@ == row@ + identity::<T>(n as nat)[i as int],
{
    let mut r = copy_of(row);
    let mut j: usize = 0;
    while j < n
        invariant
            j <= n,
            i < n,
            r@ == row@ + identity::<T>(n as nat)[i as int].take(j as int),
        decreases n - j,
    {
        if i == j {
            r.push(T::one());
        } else {
            r.push(T::zero());
        }
        j += 1;
    }
    r
}

/// `row` with every cell divided by `divisor`.
fn divided_row<T: Scalar>(row: &Vec<T>, divisor: T) -> (r: Vec<T>)
    requires
        row_divided_ok(row@, divisor),
    ensures
        r@ == row_divided(row@, divisor),
{
    let n = row.len();
    let mut r: Vec<T> = Vec::with_capacity(n);
    let mut j: usize = 0;
    while j < n
        invariant
            j <= n,
            n == row@.len(),
            row_divided_ok(row@, divisor),
            r@ == row_divided(row@, divisor).take(j as int),
        decreases n - j,
    {
        r.push(row[j].over(divisor));
        j += 1;
    }
    r
}

/// `row` minus `factor` times `pivot`, cell by cell.
fn reduced_row<T: Scalar>(row: &Vec<T>, factor: T, pivot: &Vec<T>) -> (r: Vec<T>)
    requires
        row@.len() == pivot@.len(),
        row_reduced_ok(row@, factor, pivot@),
    ensures
        r@ == row_reduced(row@, factor, pivot@),
{
    let n = row.len();
    let mut r: Vec<T> = Vec::with_capacity(n);
    let mut j: usize = 0;
    while j < n
        invariant
            j <= n,
            n == row@.len(),
            n == pivot@.len(),
            row_reduced_ok(row@, factor, pivot@),
            r@ == row_reduced(row@, factor, pivot@).take(j as int),
        decreases n - j,
    {
        let part = factor.times(pivot[j]);
        r.push(row[j].minus(part));
        j += 1;
    }
    r
}

/// The pivot row for column `col`, found by a scan over the rows from `col` on.
fn find_pivot<T: Scalar>(m: &Vec<Vec<T>>, col: usize) -> (p: usize)
    requires
        col < m@.len(),
        forall|i: int| 0 <= i < m@.len() ==> col < (#[trigger] m@[i])@.len(),
    ensures
        p == pivot_row(rows_of(m@), col as int, m@.len() as int),
        col <= p < m@.len(),
{
    let n = m.len();
    let mut best = col;
    let mut k: usize = col + 1;
    while k < n
        invariant
            col < k <= n,
            n == m@.len(),
            col <= best < k,
            forall|i: int| 0 <= i < m@.len() ==> col < (#[trigger] m@[i])@.len(),
            best == pivot_row(rows_of(m@), col as int, k as int),
        decreases n - k,
    {
        if m[k][col].exceeds(m[best][col]) {
            best = k;
        }
        k += 1;
    }
    best
}

/// One step of the elimination, on column `i` of `aug`. Where the pivot is
/// exactly zero the step is given up, and `false` is returned.
fn eliminate<T: Scalar>(aug: &mut Vec<Vec<T>>, i: usize) -> (done: bool)
    requires
        i < old(aug)@.len(),
        shaped(rows_of(old(aug)@), old(aug)@.len(), 2 * old(aug)@.len()),
        eliminated_ok(rows_of(old(aug)@), i as int),
    ensures
        done ==> eliminated(rows_of(old(aug)@), i as int) == Some(rows_of(final(aug)@)),
        done ==> shaped(rows_of(final(aug)@), old(aug)@.len(), 2 * old(aug)@.len()),
        !done ==> eliminated(rows_of(old(aug)@), i as int) is None,
{
    let n = aug.len();
    let ghost before = rows_of(aug@);
    assert forall|k: int| 0 <= k < aug@.len() implies i < (#[trigger] aug@[k])@.len() by {
        assert(before[k].len() == 2 * n);
    }
    let p = find_pivot(aug, i);
    let upper = copy_of(&aug[i]);
    let lower = copy_of(&aug[p]);
    aug[i] = lower;
    aug[p] = upper;
    let ghost swapped = rows_swapped(before, i as int, p as int);
    let pivot = aug[i][i];
    if pivot.is_zero() {
        return false;
    }
    let unit = divided_row(&aug[i], pivot);
    aug[i] = copy_of(&unit);
    let ghost normalized = swapped.update(i as int, row_divided(swapped[i as int], pivot));
    let mut r: usize = 0;
    while r < n
        invariant
            r <= n,
            i < n,
            aug@.len() == n,
            column_cleared_ok(normalized, i as int),
            shaped(normalized, n as nat, (2 * n) as nat),
            unit@ == normalized[i as int],
            forall|k: int|
                0 <= k < r ==> (#[trigger] aug@[k])@ == column_cleared(normalized, i as int)[k],
            forall|k: int| r <= k < n ==> (#[trigger] aug@[k])@ == normalized[k],
        decreases n - r,
    {
        if r != i {
            let factor = aug[r][i];
            let cleared = reduced_row(&aug[r], factor, &unit);
            aug[r] = cleared;
        }
        r += 1;
    }
    true
}

/// The right halves of the rows of `aug`.
fn right_halves<T: Scalar>(aug: &Vec<Vec<T>>) -> (halves: Vec<Vec<T>>)
    requires
        shaped(rows_of(aug@), aug@.len(), 2 * aug@.len()),
    ensures
        rows_of(halves@) == right_half(rows_of(aug@)),
{
    let n = aug.len();
    let mut halves: Vec<Vec<T>> = Vec::with_capacity(n);
    let mut i: usize = 0;
    while i < n
        invariant
            i <= n,
            aug@.len() == n,
            shaped(rows_of(aug@), n as nat, (2 * n) as nat),
            halves@.len() == i,
            rows_of(halves@) == right_half(rows_of(aug@)).take(i as int),
        decreases n - i,
    {
        assert(rows_of(aug@)[i as int].len() == 2 * n);
        let end = aug[i].len();
        let mut half: Vec<T> = Vec::with_capacity(n);
        let mut j: usize = n;
        while j < end
            invariant
                n <= j <= end,
                i < n,
                end == 2 * n,
                aug@.len() == n,
                aug@[i as int]@.len() == end,
                half@ == aug@[i as int]@.subrange(n as int, j as int),
            decreases end - j,
        {
            half.push(aug[i][j]);
            j += 1;
        }
        halves.push(half);
        i += 1;
    }
    halves
}

impl<T: Scalar> Matrix<T> {
    /// The rows of `[self | I]`.
    fn augment(&self) -> (aug: Vec<Vec<T>>)
        requires
            self.well_formed(),
        ensures
            aug@.len() == self@.len(),
            rows_of(aug@) == augmented(self@),
    {
        let n = self.rows() as usize;
        let mut aug: Vec<Vec<T>> = Vec::with_capacity(n);
        let mut i: usize = 0;
        while i < n
            invariant
                i <= n,
                n == self@.len(),
                self.well_formed(),
                aug@.len() == i,
                rows_of(aug@) == augmented(self@).take(i as int),
            decreases n - i,
        {
            let row = augmented_row(self.row(i), i, n);
            aug.push(row);
            i += 1;
        }
        aug
    }

    /// The inverse of this square matrix, by Gauss-Jordan elimination with
    /// partial pivoting on `[self | I]`. The pivot of a column is the largest
    /// cell of that column in the rows not yet used, compared by value; a pivot
    /// that is exactly zero ends the elimination with `Singular`.
    pub fn inverse(&self) -> (r: Result<Matrix<T>, MatrixError>)
        requires
            self.well_formed(),
            self@.len() == width(self@),
            inverse_ok(self@),
        ensures
            match r {
                Ok(inverse) => inverse.well_formed() && inverse_of(self@) == Some(inverse@)
                    && shaped(inverse@, self@.len(), self@.len()),
                Err(e) => e == MatrixError::Singular && inverse_of(self@) is None,
            },
    {
        proof {
            self.lemma_rectangular();
        }
        let mut aug = self.augment();
        let n = aug.len();
        let ghost start = augmented(self@);
        let mut i: usize = 0;
        while i < n
            invariant
                i <= n,
                n == self@.len(),
                aug@.len() == n,
                start == augmented(self@),
                reduced_ok(start, n as nat),
                shaped(rows_of(aug@), n as nat, (2 * n) as nat),
                reduced(start, i as nat) == Some(rows_of(aug@)),
            decreases n - i,
        {
            proof {
                lemma_reduced_ok_shorter(start, n as nat, (i + 1) as nat);
            }
            if !eliminate(&mut aug, i) {
                proof {
                    lemma_reduced_stays_none(start, (i + 1) as nat, n as nat);
                }
                return Err(MatrixError::Singular);
            }
            i += 1;
        }
        let halves = right_halves(&aug);
        Ok(Matrix::from_rows(halves))
    }
}

} // verus!
