//! Vectors, matrices and linear regression over an element type that brings
//! its own arithmetic, with the statistics of integer samples.
//!
//! Every executable function states what it returns in terms of `spec`
//! functions over sequences, and is proved to meet that statement. The
//! element arithmetic is the trait [`scalar::Scalar`]; `i64` implements it
//! with exact arithmetic that is defined wherever the result fits.

pub mod integer_laws;
pub mod inversion;
pub mod matrix;
pub mod regression;
pub mod scalar;
pub mod statistics;
pub mod vector;

pub use statistics::{CalculusError, Mean};
