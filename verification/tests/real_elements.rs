use numkit::matrix::{Matrix, MatrixError};
use numkit::regression::{LinearRegression, RegressionError};
use numkit::scalar::Scalar;
use numkit::vector::{Vector, VectorError};

/// Double-precision numbers as elements of vectors and matrices.
#[derive(Debug, Clone, Copy, PartialEq)]
struct Real(f64);

impl Scalar for Real {
    fn zero_spec() -> Real {
        Real(0.0)
    }

    fn one_spec() -> Real {
        Real(1.0)
    }

    fn from_int_spec(value: i64) -> Real {
        Real(value as f64)
    }

    fn plus_spec(self, rhs: Real) -> Real {
        Real(self.0 + rhs.0)
    }

    fn plus_ok(self, _rhs: Real) -> bool {
        true
    }

    fn minus_spec(self, rhs: Real) -> Real {
        Real(self.0 - rhs.0)
    }

    fn minus_ok(self, _rhs: Real) -> bool {
        true
    }

    fn times_spec(self, rhs: Real) -> Real {
        Real(self.0 * rhs.0)
    }

    fn times_ok(self, _rhs: Real) -> bool {
        true
    }

    fn over_spec(self, rhs: Real) -> Real {
        Real(self.0 / rhs.0)
    }

    fn over_ok(self, _rhs: Real) -> bool {
        true
    }

    fn is_zero_spec(self) -> bool {
        self.0 == 0.0
    }

    fn exceeds_spec(self, rhs: Real) -> bool {
        self.0 > rhs.0
    }

    fn times_commutes(_a: Real, _b: Real) {}

    fn zero() -> Real {
        Real(0.0)
    }

    fn one() -> Real {
        Real(1.0)
    }

    fn from_int(value: i64) -> Real {
        Real(value as f64)
    }

    fn plus(self, rhs: Real) -> Real {
        Real(self.0 + rhs.0)
    }

    fn minus(self, rhs: Real) -> Real {
        Real(self.0 - rhs.0)
    }

    fn times(self, rhs: Real) -> Real {
        Real(self.0 * rhs.0)
    }

    fn over(self, rhs: Real) -> Real {
        Real(self.0 / rhs.0)
    }

    fn is_zero(self) -> bool {
        self.0 == 0.0
    }

    fn exceeds(self, rhs: Real) -> bool {
        self.0 > rhs.0
    }
}

fn reals(values: &[f64]) -> Vec<Real> {
    values.iter().map(|v| Real(*v)).collect()
}

fn real_rows(rows: &[&[f64]]) -> Vec<Vec<Real>> {
    rows.iter().map(|r| reals(r)).collect()
}

fn real_matrix(rows: &[&[f64]]) -> Matrix<Real> {
    match Matrix::<Real>::new(real_rows(rows)) {
        Ok(m) => m,
        Err(e) => panic!("{:?}", e),
    }
}

fn assert_close(actual: &Matrix<Real>, expected: &[&[f64]], tolerance: f64) {
    assert_eq!(actual.rows() as usize, expected.len());
    for (i, row) in expected.iter().enumerate() {
        let cells = actual.row(i);
        assert_eq!(cells.len(), row.len());
        for (j, value) in row.iter().enumerate() {
            assert!(
                (cells[j].0 - value).abs() < tolerance,
                "cell ({}, {}): {} is not {}",
                i,
                j,
                cells[j].0,
                value
            );
        }
    }
}

fn assert_all_close(actual: &[Real], expected: &[f64], tolerance: f64) {
    assert_eq!(actual.len(), expected.len());
    for (a, e) in actual.iter().zip(expected) {
        assert!((a.0 - e).abs() < tolerance, "{} is not {}", a.0, e);
    }
}

#[test]
fn fvec_and_fvec_addition() {
    let mut f_vector = Vector::<Real>::new(reals(&[3.5, 4.2]));
    let f_vector_2 = Vector::<Real>::new(reals(&[3.2, 4.1]));
    let _ = f_vector.add_f(&f_vector_2).expect("mismatched dimensions");
    assert_eq!(f_vector.components(), &reals(&[6.7, 8.3]));
    assert_eq!(f_vector.dimensions(), 2);
}

#[test]
fn fvec_and_ivec_addition() {
    let mut f_vector = Vector::<Real>::new(reals(&[3.5, 4.2]));
    let i_vector = Vector::<i64>::new(vec![3, 4]);
    let _ = f_vector.add_i(&i_vector).expect("mismatched dimensions");
    assert_eq!(f_vector.components(), &reals(&[6.5, 8.2]));
    assert_eq!(f_vector.dimensions(), 2);
}

#[test]
fn fvec_and_fvec_addition_failure() {
    let mut f_vector = Vector::<Real>::new(reals(&[3.3, 4.1]));
    let f_vector_2 = Vector::<Real>::new(reals(&[3.2, 4.34, 5.2]));
    let res = f_vector.add_f(&f_vector_2).err();
    assert_eq!(res, Some(VectorError::DimensionMismatch));
}

#[test]
fn fvec_and_ivec_addition_failure() {
    let mut f_vector = Vector::<Real>::new(reals(&[3.3, 4.1]));
    let i_vector = Vector::<i64>::new(vec![3, 4, 52]);
    let res = f_vector.add_i(&i_vector).err();
    assert_eq!(res, Some(VectorError::DimensionMismatch));
}

#[test]
fn test_dot_product_f_success() {
    let vec1 = Vector::<Real>::new(reals(&[1.0, 2.0, 3.0]));
    let vec2 = Vector::<Real>::new(reals(&[4.0, 5.0, 6.0]));

    let result = vec1.dot_product_f(&vec2);
    assert_eq!(result, Ok(Real(32.0)));
}

#[test]
fn test_dot_product_f_and_i_success() {
    let vec1 = Vector::<Real>::new(reals(&[1.0, 2.0, 3.0]));
    let vec2 = Vector::<i64>::new(vec![4, 5, 6]);

    let result = vec1.dot_product_i(&vec2);
    assert_eq!(result, Ok(Real(32.0)));
}

#[test]
fn test_dot_product_f_dimension_mismatch() {
    let vec1 = Vector::<Real>::new(reals(&[1.0, 2.0, 3.0]));
    let vec2 = Vector::<Real>::new(reals(&[4.0, 5.0]));

    let result = vec1.dot_product_f(&vec2);
    assert_eq!(result, Err(VectorError::DimensionMismatch));
}

#[test]
fn test_dot_product_f_and_i_dimension_mismatch() {
    let vec1 = Vector::<Real>::new(reals(&[1.0, 2.0, 3.0]));
    let vec2 = Vector::<i64>::new(vec![40, 50]);

    let result = vec1.dot_product_i(&vec2);
    assert_eq!(result, Err(VectorError::DimensionMismatch));
}

#[test]
fn test_dot_product_f_empty_vectors() {
    let vec1 = Vector::<Real>::new(reals(&[]));
    let vec2 = Vector::<Real>::new(reals(&[]));

    let result = vec1.dot_product_f(&vec2);
    assert_eq!(result, Ok(Real(0.0)));
}

#[test]
fn test_dot_product_f_and_i_empty_vectors() {
    let vec1 = Vector::<Real>::new(reals(&[]));
    let vec2 = Vector::<i64>::new(vec![]);

    let result = vec1.dot_product_i(&vec2);
    assert_eq!(result, Ok(Real(0.0)));
}

#[test]
fn failed_addition_leaves_the_vector_as_it_was() {
    let mut f_vector = Vector::<Real>::new(reals(&[3.3, 4.1]));
    let longer = Vector::<Real>::new(reals(&[1.0, 2.0, 3.0]));
    assert_eq!(f_vector.add(&longer), Err(VectorError::DimensionMismatch));
    assert_eq!(f_vector.components(), &reals(&[3.3, 4.1]));
    let integers = Vector::<i64>::new(vec![1]);
    assert_eq!(f_vector.add_i(&integers), Err(VectorError::DimensionMismatch));
    assert_eq!(f_vector.components(), &reals(&[3.3, 4.1]));
}

#[test]
fn scaling_by_a_real_and_by_an_integer() {
    let halves = Vector::<Real>::new(reals(&[1.5, -2.0, 0.0])) * Real(0.5);
    assert_eq!(halves.components(), &reals(&[0.75, -1.0, 0.0]));
    let tripled = Vector::<Real>::new(reals(&[1.5, -2.0, 0.0])).mul_i(3);
    assert_eq!(tripled.components(), &reals(&[4.5, -6.0, 0.0]));
    assert_eq!(tripled.dimensions(), 3);
}

#[test]
fn real_dot_product_commutes() {
    let a = Vector::<Real>::new(reals(&[1.5, -2.25, 3.0, 0.1]));
    let b = Vector::<Real>::new(reals(&[4.0, 0.3, -6.5, 7.7]));
    assert_eq!(a.dot_product(&b), b.dot_product(&a));
}

#[test]
fn inverse_of_a_regular_matrix() {
    let a = real_matrix(&[&[4.0, 7.0], &[2.0, 6.0]]);
    let inverse = a.inverse().unwrap();
    assert_close(&inverse, &[&[0.6, -0.7], &[-0.2, 0.4]], 1e-9);
}

#[test]
fn matrix_times_its_inverse_is_the_identity() {
    let rows: &[&[f64]] = &[&[2.0, 1.0, 1.0], &[1.0, 3.0, 2.0], &[1.0, 0.0, 0.5]];
    let a = real_matrix(rows);
    let inverse = a.inverse().unwrap();
    let product = a.matrix_multiplication(&inverse).unwrap();
    assert_close(
        &product,
        &[&[1.0, 0.0, 0.0], &[0.0, 1.0, 0.0], &[0.0, 0.0, 1.0]],
        1e-9,
    );
    let product = inverse.matrix_multiplication(&real_matrix(rows)).unwrap();
    assert_close(
        &product,
        &[&[1.0, 0.0, 0.0], &[0.0, 1.0, 0.0], &[0.0, 0.0, 1.0]],
        1e-9,
    );
}

#[test]
fn inverse_swaps_rows_to_find_a_pivot() {
    let a = real_matrix(&[&[0.0, 1.0], &[1.0, 0.0]]);
    let inverse = a.inverse().unwrap();
    assert_eq!(inverse, real_matrix(&[&[0.0, 1.0], &[1.0, 0.0]]));
}

#[test]
fn inverse_of_small_matrices() {
    let one = real_matrix(&[&[4.0]]);
    assert_eq!(one.inverse(), Ok(real_matrix(&[&[0.25]])));
    let none = real_matrix(&[]);
    assert_eq!(none.inverse(), Ok(real_matrix(&[])));
    let identity = real_matrix(&[&[1.0, 0.0], &[0.0, 1.0]]);
    assert_eq!(
        identity.inverse(),
        Ok(real_matrix(&[&[1.0, 0.0], &[0.0, 1.0]]))
    );
}

#[test]
fn inverse_rejects_a_singular_matrix() {
    let a = real_matrix(&[&[1.0, 2.0], &[2.0, 4.0]]);
    assert_eq!(a.inverse(), Err(MatrixError::Singular));
    let zero = real_matrix(&[&[0.0, 0.0], &[0.0, 0.0]]);
    assert_eq!(zero.inverse(), Err(MatrixError::Singular));
}

#[test]
fn inverse_compares_pivots_by_value() {
    // In the first column 2 is the pivot, not -4, although -4 is larger in magnitude.
    let a = real_matrix(&[&[-4.0, 1.0], &[2.0, 3.0]]);
    let inverse = a.inverse().unwrap();
    assert_close(
        &inverse,
        &[&[-3.0 / 14.0, 1.0 / 14.0], &[2.0 / 14.0, 4.0 / 14.0]],
        1e-9,
    );
    // In the first column 0 is the pivot, not -1: the elimination gives up.
    let b = real_matrix(&[&[-1.0, 0.0], &[0.0, 1.0]]);
    assert_eq!(b.inverse(), Err(MatrixError::Singular));
}

#[test]
fn real_matrix_operations() {
    let mut a = real_matrix(&[&[1.5, 2.0], &[0.0, -1.0]]);
    let b = real_matrix(&[&[0.5, 1.0], &[2.0, 3.0]]);
    assert_eq!(a.add(&b), Ok(()));
    assert_eq!(a, real_matrix(&[&[2.0, 3.0], &[2.0, 2.0]]));
    a.scalar_multiplication(Real(0.5));
    assert_eq!(a, real_matrix(&[&[1.0, 1.5], &[1.0, 1.0]]));
    assert_eq!(
        a.matrix_multiplication(&b),
        Ok(real_matrix(&[&[3.5, 5.5], &[2.5, 4.0]]))
    );
}

#[test]
fn predict_before_fit_is_rejected() {
    let model = LinearRegression::<Real>::new();
    assert!(!model.is_fitted());
    assert_eq!(
        model.predict(&real_rows(&[&[1.0, 2.0]])),
        Err(RegressionError::ModelNotFitted)
    );
    assert_eq!(model.predict(&real_rows(&[])), Err(RegressionError::ModelNotFitted));
}

#[test]
fn fit_recovers_an_exactly_linear_relation() {
    // y = 2 + x1 + x2
    let x = real_rows(&[
        &[1.0, 1.0],
        &[2.0, 1.0],
        &[1.0, 3.0],
        &[4.0, 2.0],
        &[3.0, 5.0],
    ]);
    let y = reals(&[4.0, 5.0, 6.0, 8.0, 10.0]);
    let mut model = LinearRegression::<Real>::new();
    assert_eq!(model.fit(&x, &y), Ok(()));
    assert!(model.is_fitted());
    assert_all_close(model.coefficients(), &[2.0, 1.0, 1.0], 1e-6);
    let held_out = real_rows(&[&[10.0, 20.0], &[0.0, 0.0], &[-3.0, 7.5]]);
    let predictions = model.predict(&held_out).unwrap();
    assert_all_close(&predictions, &[32.0, 2.0, 6.5], 1e-6);
}

#[test]
fn fit_of_a_line_through_two_points() {
    // y = 1 + 2 x
    let x = real_rows(&[&[0.0], &[1.0]]);
    let y = reals(&[1.0, 3.0]);
    let mut model = LinearRegression::<Real>::new();
    assert_eq!(model.fit(&x, &y), Ok(()));
    assert_all_close(model.coefficients(), &[1.0, 2.0], 1e-9);
    let predictions = model.predict(&real_rows(&[&[2.0], &[-1.0]])).unwrap();
    assert_all_close(&predictions, &[5.0, -1.0], 1e-9);
}

#[test]
fn fit_rejects_input_of_invalid_dimensions() {
    let mut model = LinearRegression::<Real>::new();
    let y = reals(&[1.0, 2.0]);
    // no rows
    assert_eq!(
        model.fit(&real_rows(&[]), &reals(&[])),
        Err(RegressionError::InvalidInputDimensions)
    );
    assert_eq!(
        model.fit(&real_rows(&[]), &y),
        Err(RegressionError::InvalidInputDimensions)
    );
    // not as many targets as rows
    assert_eq!(
        model.fit(&real_rows(&[&[1.0], &[2.0], &[3.0]]), &y),
        Err(RegressionError::InvalidInputDimensions)
    );
    // rows without features
    assert_eq!(
        model.fit(&real_rows(&[&[], &[]]), &y),
        Err(RegressionError::InvalidInputDimensions)
    );
    // rows of unequal length
    assert_eq!(
        model.fit(&real_rows(&[&[1.0, 2.0], &[3.0]]), &y),
        Err(RegressionError::InvalidInputDimensions)
    );
    assert!(!model.is_fitted());
}

#[test]
fn failed_fit_keeps_the_fitted_model() {
    let mut model = LinearRegression::<Real>::new();
    assert_eq!(
        model.fit(&real_rows(&[&[0.0], &[1.0]]), &reals(&[1.0, 3.0])),
        Ok(())
    );
    let before = model.coefficients().clone();
    assert_eq!(
        model.fit(&real_rows(&[]), &reals(&[])),
        Err(RegressionError::InvalidInputDimensions)
    );
    assert_eq!(model.coefficients(), &before);
    assert_eq!(
        model.fit(&real_rows(&[&[1.0], &[2.0]]), &reals(&[1.0])),
        Err(RegressionError::InvalidInputDimensions)
    );
    assert_eq!(model.coefficients(), &before);
    // a constant feature: the normal equation has no solution
    assert_eq!(
        model.fit(&real_rows(&[&[1.0], &[1.0]]), &reals(&[1.0, 3.0])),
        Err(RegressionError::Singular)
    );
    assert_eq!(model.coefficients(), &before);
    assert!(model.is_fitted());
    let predictions = model.predict(&real_rows(&[&[2.0]])).unwrap();
    assert_all_close(&predictions, &[5.0], 1e-9);
}

#[test]
fn fit_replaces_earlier_coefficients() {
    let mut model = LinearRegression::<Real>::new();
    assert_eq!(
        model.fit(&real_rows(&[&[0.0], &[1.0]]), &reals(&[1.0, 3.0])),
        Ok(())
    );
    assert_eq!(
        model.fit(
            &real_rows(&[&[1.0, 1.0], &[2.0, 1.0], &[1.0, 3.0], &[4.0, 2.0]]),
            &reals(&[4.0, 5.0, 6.0, 8.0])
        ),
        Ok(())
    );
    assert_all_close(model.coefficients(), &[2.0, 1.0, 1.0], 1e-6);
}

#[test]
fn predict_rejects_rows_of_another_width() {
    let mut model = LinearRegression::<Real>::new();
    assert_eq!(
        model.fit(&real_rows(&[&[0.0], &[1.0]]), &reals(&[1.0, 3.0])),
        Ok(())
    );
    assert_eq!(
        model.predict(&real_rows(&[&[1.0], &[1.0, 2.0]])),
        Err(RegressionError::InvalidInputDimensions)
    );
    assert_eq!(model.predict(&real_rows(&[])), Ok(vec![]));
}

#[test]
fn fit_on_collinear_features() {
    // The second feature is the first plus one, so the normal equation has no
    // unique solution; the elimination still finds pivots that are not exactly
    // zero, and the fit succeeds.
    let x = real_rows(&[&[1.0, 2.0], &[2.0, 3.0], &[3.0, 4.0], &[4.0, 5.0]]);
    let y = reals(&[3.0, 4.0, 5.0, 6.0]);
    let mut model = LinearRegression::<Real>::new();
    assert_eq!(model.fit(&x, &y), Ok(()));
    assert_eq!(model.coefficients().len(), 3);
    let predictions = model
        .predict(&real_rows(&[&[5.0, 6.0], &[6.0, 7.0], &[7.0, 8.0], &[8.0, 9.0]]))
        .unwrap();
    assert_eq!(predictions.len(), 4);
}

#[test]
fn real_multiplication_is_associative_within_rounding() {
    let a = || real_matrix(&[&[1.5, -2.0, 0.25], &[4.0, 0.1, 6.5]]);
    let b = || real_matrix(&[&[7.0, 0.8], &[-9.5, 10.0], &[0.3, 1.2]]);
    let c = || real_matrix(&[&[1.0, -1.5, 2.0], &[0.7, 3.0, -2.0]]);
    let left = a().matrix_multiplication(&b()).unwrap().matrix_multiplication(&c()).unwrap();
    let right = a().matrix_multiplication(&b().matrix_multiplication(&c()).unwrap()).unwrap();
    assert_eq!(left.rows(), 2);
    assert_eq!(left.cols(), 3);
    for i in 0..2 {
        for j in 0..3 {
            assert!((left.row(i)[j].0 - right.row(i)[j].0).abs() < 1e-9);
        }
    }
}

#[test]
fn real_identity_and_zero_matrices() {
    let a = || real_matrix(&[&[1.5, -2.0], &[4.0, 0.1], &[0.0, 7.0]]);
    let identity = real_matrix(&[&[1.0, 0.0], &[0.0, 1.0]]);
    assert_eq!(a().matrix_multiplication(&identity), Ok(a()));
    let zero = real_matrix(&[&[0.0, 0.0, 0.0], &[0.0, 0.0, 0.0]]);
    assert_eq!(
        a().matrix_multiplication(&zero),
        Ok(real_matrix(&[&[0.0, 0.0, 0.0], &[0.0, 0.0, 0.0], &[0.0, 0.0, 0.0]]))
    );
}

#[test]
fn real_transpose_and_swap() {
    let mut a = real_matrix(&[&[1.5, -2.0], &[4.0, 0.1], &[0.0, 7.0]]);
    assert_eq!(a.transpose(), real_matrix(&[&[1.5, 4.0, 0.0], &[-2.0, 0.1, 7.0]]));
    assert_eq!(a.swap_row(0, 2), Ok(()));
    assert_eq!(a, real_matrix(&[&[0.0, 7.0], &[4.0, 0.1], &[1.5, -2.0]]));
    assert_eq!(a.swap_row(3, 0), Err(MatrixError::RowOutOfBound));
}
