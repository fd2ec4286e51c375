//! Linear regression by the normal equation.

use crate::inversion::{inverse_of, inverse_ok, lemma_total_inverse_ok};
use crate::matrix::{
    column, lemma_total_product_ok, product, product_ok, rectangular, rows_of, transposed,
    width, Matrix,
};
use crate::scalar::{total_arithmetic, Scalar};
use crate::vector::{dot, dot_of, dot_ok, lemma_total_dot_ok};
use vstd::prelude::*;

verus! {

/// Failure of fitting a model or of predicting with it.
#[derive(Debug, PartialEq)]
pub enum RegressionError {
    /// The training set is empty, its rows are empty or of unequal length, or
    /// there are not as many targets as rows; or a row handed to `predict` has
    /// not as many features as the model was fitted on.
    InvalidInputDimensions,
    /// The normal equation has no solution that the elimination can find.
    Singular,
    /// The model has not been fitted yet.
    ModelNotFitted,
}

/// A linear model `y = c[0] + c[1] * x[0] + ... + c[k] * x[k - 1]`, fitted by
/// least squares.
#[derive(Debug)]
pub struct LinearRegression<T> {
    coefficients: Vec<T>,
}

/// `x` with a leading one in every row: the design matrix of the features `x`.
pub open spec fn with_intercept<T: Scalar>(x: Seq<Seq<T>>) -> Seq<Seq<T>> {
    Seq::new(x.len(), |i: int| seq![T::one_spec()] + x[i])
}

/// The matrix whose only column is `y`.
pub open spec fn as_column<T>(y: Seq<T>) -> Seq<Seq<T>> {
    Seq::new(y.len(), |i: int| seq![y[i]])
}

/// A model can be fitted on the features `x` and the targets `y`: there is at
/// least one row, every row has the same, positive, number of features, and
/// there is one target for each row.
pub open spec fn trainable<T>(x: Seq<Seq<T>>, y: Seq<T>) -> bool {
    &&& x.len() > 0
    &&& x.len() == y.len()
    &&& rectangular(x)
    &&& x[0].len() > 0
}

/// The solution of the normal equation for the features `x` and the targets
/// `y`: with `d` the design matrix and `t` its transpose, the only column of
/// `inverse(t * d) * (t * y)`. There is none where the inversion fails.
pub open spec fn least_squares<T: Scalar>(x: Seq<Seq<T>>, y: Seq<T>) -> Option<Seq<T>> {
    let d = with_intercept(x);
    let t = transposed(d);
    match inverse_of(product(t, d)) {
        Some(inverse) => Some(column(product(inverse, product(t, as_column(y))), 0)),
        None => None,
    }
}

/// The normal equation for the features `x` and the targets `y` can be solved
/// without leaving `T`, as far as the inversion goes.
pub open spec fn least_squares_ok<T: Scalar>(x: Seq<Seq<T>>, y: Seq<T>) -> bool {
    let d = with_intercept(x);
    let t = transposed(d);
    &&& product_ok(t, d)
    &&& product_ok(t, as_column(y))
    &&& inverse_ok(product(t, d))
    &&& match inverse_of(product(t, d)) {
        Some(inverse) => product_ok(inverse, product(t, as_column(y))),
        None => true,
    }
}

/// Where the arithmetic of `T` is total, every normal equation can be solved
/// as far as the inversion goes.
pub proof fn lemma_total_least_squares_ok<T: Scalar>(x: Seq<Seq<T>>, y: Seq<T>)
    requires
        total_arithmetic::<T>(),
    ensures
        least_squares_ok(x, y),
{
    let d = with_intercept(x);
    let t = transposed(d);
    lemma_total_product_ok(t, d);
    lemma_total_product_ok(t, as_column(y));
    lemma_total_inverse_ok(product(t, d));
    if let Some(inverse) = inverse_of(product(t, d)) {
        lemma_total_product_ok(inverse, product(t, as_column(y)));
    }
}

/// Every row of `x` has one feature for each coefficient but the first.
pub open spec fn fits_model<T>(coefficients: Seq<T>, x: Seq<Seq<T>>) -> bool {
    forall|i: int| 0 <= i < x.len() ==> (#[trigger] x[i]).len() + 1 == coefficients.len()
}

/// Every prediction for the rows of `x` can be computed without leaving `T`.
pub open spec fn predicted_ok<T: Scalar>(coefficients: Seq<T>, x: Seq<Seq<T>>) -> bool {
    forall|i: int|
        0 <= i < x.len() ==> dot_ok(seq![T::one_spec()] + #[trigger] x[i], coefficients)
}

/// The predictions of the model with these coefficients for the rows of `x`:
/// for each row, the dot product of the row, with a leading one, and the
/// coefficients.
pub open spec fn predicted<T: Scalar>(coefficients: Seq<T>, x: Seq<Seq<T>>) -> Seq<T> {
    Seq::new(x.len(), |i: int| dot(seq![T::one_spec()] + x[i], coefficients))
}

/// The predictions are the only column of the product of the design matrix of
/// `x` and the column of the coefficients.
pub proof fn lemma_predicted_is_product<T: Scalar>(coefficients: Seq<T>, x: Seq<Seq<T>>)
    requires
        coefficients.len() > 0,
    ensures
        predicted(coefficients, x) == column(
            product(with_intercept(x), as_column(coefficients)),
            0,
        ),
{
    let weights = as_column(coefficients);
    assert(column(weights, 0) =~= coefficients);
}

/// Where the arithmetic of `T` is total, every prediction can be computed.
pub proof fn lemma_total_predicted_ok<T: Scalar>(coefficients: Seq<T>, x: Seq<Seq<T>>)
    requires
        total_arithmetic::<T>(),
    ensures
        predicted_ok(coefficients, x),
{
    assert forall|i: int| 0 <= i < x.len() implies dot_ok(
        seq![T::one_spec()] + #[trigger] x[i],
        coefficients,
    ) by {
        lemma_total_dot_ok(seq![T::one_spec()] + x[i], coefficients);
    }
}

/// `row` with a leading one.
fn with_leading_one<T: Scalar>(row: &Vec<T>) -> (r: Vec<T>)
    ensures
        r@ == seq![T::one_spec()] + row@,
{
    let n = row.len();
    let mut r: Vec<T> = Vec::new();
    r.push(T::one());
    let mut j: usize = 0;
    while j < n
        invariant
            j <= n,
            n == row@.len(),
            r@ == seq![T::one_spec()] + row@.take(j as int),
        decreases n - j,
    {
        r.push(row[j]);
        j += 1;
    }
    r
}

/// The design matrix of the features `x`.
fn design_matrix<T: Scalar>(x: &Vec<Vec<T>>) -> (design: Matrix<T>)
    requires
        rectangular(rows_of(x@)),
    ensures
        design.well_formed(),
        design@ == with_intercept(rows_of(x@)),
{
    let n = x.len();
    let ghost d = with_intercept(rows_of(x@));
    let mut rows: Vec<Vec<T>> = Vec::with_capacity(n);
    let mut i: usize = 0;
    while i < n
        invariant
            i <= n,
            n == x@.len(),
            d == with_intercept(rows_of(x@)),
            rows@.len() == i,
            rows_of(rows@) == d.take(i as int),
        decreases n - i,
    {
        rows.push(with_leading_one(&x[i]));
        i += 1;
    }
    Matrix::from_rows(rows)
}

/// The matrix whose only column is `y`.
fn column_matrix<T: Scalar>(y: &Vec<T>) -> (targets: Matrix<T>)
    ensures
        targets.well_formed(),
        targets@ == as_column(y@),
{
    let n = y.len();
    let mut rows: Vec<Vec<T>> = Vec::with_capacity(n);
    let mut i: usize = 0;
    while i < n
        invariant
            i <= n,
            n == y@.len(),
            rows@.len() == i,
            rows_of(rows@) == as_column(y@).take(i as int),
        decreases n - i,
    {
        let mut row: Vec<T> = Vec::with_capacity(1);
        row.push(y[i]);
        rows.push(row);
        i += 1;
    }
    Matrix::from_rows(rows)
}

/// Whether a model can be fitted on `x` and `y`.
fn is_trainable<T>(x: &Vec<Vec<T>>, y: &Vec<T>) -> (b: bool)
    ensures
        b == trainable(rows_of(x@), y@),
{
    let n = x.len();
    if n == 0 || n != y.len() {
        return false;
    }
    let features = x[0].len();
    if features == 0 {
        return false;
    }
    let mut i: usize = 1;
    while i < n
        invariant
            1 <= i <= n,
            n == x@.len(),
            features == x@[0]@.len(),
            forall|k: int| 0 <= k < i ==> (#[trigger] x@[k])@.len() == features,
        decreases n - i,
    {
        if x[i].len() != features {
            assert(rows_of(x@)[i as int].len() != rows_of(x@)[0].len());
            return false;
        }
        i += 1;
    }
    true
}

impl<T: Scalar> LinearRegression<T> {
    /// The fitted coefficients, the intercept first; empty before the first
    /// successful fit.
    pub closed spec fn view(&self) -> Seq<T> {
        self.coefficients@
    }

    /// Whether the model has been fitted.
    pub open spec fn fitted(&self) -> bool {
        self@.len() > 0
    }

    /// A model that has not been fitted.
    pub fn new() -> (model: Self)
        ensures
            !model.fitted(),
    {
        LinearRegression { coefficients: Vec::new() }
    }

    /// Whether the model has been fitted.
    pub fn is_fitted(&self) -> (b: bool)
        ensures
            b == self.fitted(),
    {
        self.coefficients.len() > 0
    }

    /// The fitted coefficients, the intercept first.
    pub fn coefficients(&self) -> (c: &Vec<T>)
        ensures
            c@ == self@,
    {
        &self.coefficients
    }

    /// Fits the model on the rows `x` and their targets `y` by solving the
    /// normal equation. On failure the model stays as it was.
    pub fn fit(&mut self, x: &Vec<Vec<T>>, y: &Vec<T>) -> (r: Result<(), RegressionError>)
        requires
            trainable(rows_of(x@), y@) ==> least_squares_ok(rows_of(x@), y@),
        ensures
            match r {
                Ok(_) => trainable(rows_of(x@), y@) && least_squares(rows_of(x@), y@) == Some(
                    final(self)@,
                ) && final(self).fitted(),
                Err(e) => final(self)@ == old(self)@ && match e {
                    RegressionError::InvalidInputDimensions => !trainable(rows_of(x@), y@),
                    RegressionError::Singular => trainable(rows_of(x@), y@) && least_squares(
                        rows_of(x@),
                        y@,
                    ) is None,
                    RegressionError::ModelNotFitted => false,
                },
            },
    {
        if !is_trainable(x, y) {
            return Err(RegressionError::InvalidInputDimensions);
        }
        let design = design_matrix(x);
        let targets = column_matrix(y);
        let transpose = design.transpose();
        let gram = transpose.times(&design);
        let moment = transpose.times(&targets);
        let inverse = match gram.inverse() {
            Ok(m) => m,
            Err(_) => {
                return Err(RegressionError::Singular);
            },
        };
        let solution = inverse.times(&moment);
        self.coefficients = solution.column(0);
        Ok(())
    }

    /// The predictions of the fitted model for the rows `x`, one for each row
    /// and in their order.
    pub fn predict(&self, x: &Vec<Vec<T>>) -> (r: Result<Vec<T>, RegressionError>)
        requires
            self.fitted() && fits_model(self@, rows_of(x@)) ==> predicted_ok(self@, rows_of(x@)),
        ensures
            match r {
                Ok(predictions) => self.fitted() && fits_model(self@, rows_of(x@))
                    && predictions@ == predicted(self@, rows_of(x@)),
                Err(e) => match e {
                    RegressionError::ModelNotFitted => !self.fitted(),
                    RegressionError::InvalidInputDimensions => self.fitted() && !fits_model(
                        self@,
                        rows_of(x@),
                    ),
                    RegressionError::Singular => false,
                },
            },
    {
        if self.coefficients.len() == 0 {
            return Err(RegressionError::ModelNotFitted);
        }
        let n = x.len();
        let width = self.coefficients.len() - 1;
        let mut i: usize = 0;
        while i < n
            invariant
                i <= n,
                n == x@.len(),
                width + 1 == self@.len(),
                forall|k: int| 0 <= k < i ==> (#[trigger] x@[k])@.len() == width,
            decreases n - i,
        {
            if x[i].len() != width {
                assert(rows_of(x@)[i as int].len() + 1 != self@.len());
                return Err(RegressionError::InvalidInputDimensions);
            }
            i += 1;
        }
        let mut predictions: Vec<T> = Vec::with_capacity(n);
        let mut i: usize = 0;
        while i < n
            invariant
                i <= n,
                n == x@.len(),
                fits_model(self@, rows_of(x@)),
                predicted_ok(self@, rows_of(x@)),
                predictions@ == predicted(self@, rows_of(x@)).take(i as int),
            decreases n - i,
        {
            let row = with_leading_one(&x[i]);
            assert(rows_of(x@)[i as int].len() + 1 == self@.len());
            predictions.push(dot_of(&row, &self.coefficients));
            i += 1;
        }
        Ok(predictions)
    }
}

} // verus!
