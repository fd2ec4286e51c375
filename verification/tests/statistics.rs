use numkit::{CalculusError, Mean};

#[test]
fn absolute_error_i_test() {
    assert_eq!(CalculusError::absolute_error_i(1, 2), 1);
}

#[test]
fn mode_i_test() {
    let data = vec![1, 2, 3, 4, 4];
    assert_eq!(Mean::mode(&data), Some(4));
}

#[test]
fn absolute_error_of_distant_measurements() {
    assert_eq!(CalculusError::absolute_error_i(2, 1), 1);
    assert_eq!(CalculusError::absolute_error_i(-5, 7), 12);
    assert_eq!(CalculusError::absolute_error_i(7, 7), 0);
    assert_eq!(CalculusError::absolute_error_i(i64::MIN, -1), i64::MAX);
    assert_eq!(CalculusError::absolute_error_i(i64::MAX, 0), i64::MAX);
}

#[test]
fn mode_of_nothing_is_none() {
    assert_eq!(Mean::mode(&[]), None);
}

#[test]
fn mode_counts_occurrences() {
    assert_eq!(Mean::mode(&[7]), Some(7));
    assert_eq!(Mean::mode(&[3, -1, 3, -1, -1]), Some(-1));
    assert_eq!(Mean::mode(&[5, 5, 2, 2, 2, 5, 5]), Some(5));
    // of several values that occur most often, the first one
    assert_eq!(Mean::mode(&[2, 9, 9, 2]), Some(2));
}

#[test]
fn mean_i_test() {
    let data = [1, 2, 3, 4, 5];
    assert_eq!(Mean::mean_i(&data) as f64, 3.0);
}

#[test]
fn weighted_average_i_test() {
    let data = [1, 2, 3, 4];
    let weights = [1, 2, 3, 4];
    assert_eq!(Mean::weighted_average_i(&data, &weights) as f64, 3.0);
}

#[test]
fn relative_error_i_test() {
    assert_eq!(CalculusError::relative_error_i(1, 2) as f64, 1.0);
}

#[test]
fn median_i_test() {
    let data = [1, 2, 3, 4, 5];
    assert_eq!(Mean::median_i(&data) as f64, 3.0);
}

#[test]
fn variance_i_test() {
    let data = [1, 2, 3, 4, 5];
    assert_eq!(Mean::variance_i(&data) as f64, 2.0);
    assert_eq!((Mean::variance_i(&data) as f64).sqrt(), 1.4142135623730951);
}

#[test]
fn mean_rounds_towards_zero() {
    assert_eq!(Mean::mean_i(&[1, 2]), 1);
    assert_eq!(Mean::mean_i(&[-1, -2]), -1);
    assert_eq!(Mean::mean_i(&[-7]), -7);
    assert_eq!(Mean::mean_i(&[10, -3, -3, -3]), 0);
}

#[test]
fn weighted_average_rounds_towards_zero() {
    assert_eq!(Mean::weighted_average_i(&[1, 2], &[1, 2]), 1);
    assert_eq!(Mean::weighted_average_i(&[-5, 2], &[1, 1]), -1);
    assert_eq!(Mean::weighted_average_i(&[5, 2], &[-1, -1]), 3);
    assert_eq!(Mean::weighted_average_i(&[7], &[-2]), 7);
}

#[test]
fn median_sorts_before_it_picks() {
    assert_eq!(Mean::median_i(&[5, 1, 4, 2, 3]), 3);
    assert_eq!(Mean::median_i(&[9, -1]), 4);
    assert_eq!(Mean::median_i(&[4, 1, 3, 2]), 2);
    assert_eq!(Mean::median_i(&[-4, -1]), -2);
    assert_eq!(Mean::median_i(&[8]), 8);
    assert_eq!(Mean::median_i(&[2, 2, 9, 2]), 2);
}

#[test]
fn variance_uses_the_rounded_mean() {
    // mean 1 (from 3 / 2), squares 0 and 1, variance 0 (from 1 / 2)
    assert_eq!(Mean::variance_i(&[1, 2]), 0);
    // mean 4, squares 9, 1, 1, 9
    assert_eq!(Mean::variance_i(&[1, 3, 5, 7]), 5);
    assert_eq!(Mean::variance_i(&[6]), 0);
}

#[test]
fn relative_error_rounds_towards_zero() {
    assert_eq!(CalculusError::relative_error_i(2, 1), 0);
    assert_eq!(CalculusError::relative_error_i(-2, 4), 3);
    assert_eq!(CalculusError::relative_error_i(3, -7), 3);
    assert_eq!(CalculusError::relative_error_i(5, 5), 0);
}

#[test]
fn variance_around_a_given_center() {
    assert_eq!(Mean::variance_around(&[1, 3, 5, 7], 4), 5);
    assert_eq!(Mean::variance_around(&[1, 3, 5, 7], 0), 21);
    assert_eq!(Mean::variance_around(&[-2, 2], 1), 5);
}
