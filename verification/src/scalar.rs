//! The arithmetic that the elements of vectors and matrices bring along, and
//! its exact form on machine integers.

use vstd::prelude::*;

verus! {

/// The arithmetic an element of a vector or a matrix has to offer.
///
/// Every operation comes in three parts: a `spec` function that names its
/// result, a `spec` predicate that says when the operation can be carried out
/// (`*_ok`), and the executable method, which returns exactly the named result
/// whenever the predicate holds. An element type whose operations can always be
/// carried out satisfies [`total_arithmetic`].
pub trait Scalar: Copy {
    /// The additive identity.
    spec fn zero_spec() -> Self;

    /// The multiplicative identity.
    spec fn one_spec() -> Self;

    /// The element that stands for the integer `value`.
    spec fn from_int_spec(value: i64) -> Self;

    /// The sum `self + rhs`.
    spec fn plus_spec(self, rhs: Self) -> Self;

    /// Whether `self + rhs` can be represented.
    spec fn plus_ok(self, rhs: Self) -> bool;

    /// The difference `self - rhs`.
    spec fn minus_spec(self, rhs: Self) -> Self;

    /// Whether `self - rhs` can be represented.
    spec fn minus_ok(self, rhs: Self) -> bool;

    /// The product `self * rhs`.
    spec fn times_spec(self, rhs: Self) -> Self;

    /// Whether `self * rhs` can be represented.
    spec fn times_ok(self, rhs: Self) -> bool;

    /// The quotient `self / rhs`.
    spec fn over_spec(self, rhs: Self) -> Self;

    /// Whether `self / rhs` can be computed and represented.
    spec fn over_ok(self, rhs: Self) -> bool;

    /// Whether the element is exactly zero.
    spec fn is_zero_spec(self) -> bool;

    /// Whether `self` is strictly greater than `rhs`.
    spec fn exceeds_spec(self, rhs: Self) -> bool;

    /// Multiplication does not depend on the order of its operands.
    proof fn times_commutes(a: Self, b: Self)
        ensures
            a.times_ok(b) == b.times_ok(a),
            a.times_spec(b) == b.times_spec(a),
    ;

    fn zero() -> (r: Self)
        ensures
            r == Self::zero_spec(),
    ;

    fn one() -> (r: Self)
        ensures
            r == Self::one_spec(),
    ;

    fn from_int(value: i64) -> (r: Self)
        ensures
            r == Self::from_int_spec(value),
    ;

    fn plus(self, rhs: Self) -> (r: Self)
        requires
            self.plus_ok(rhs),
        ensures
            r == self.plus_spec(rhs),
    ;

    fn minus(self, rhs: Self) -> (r: Self)
        requires
            self.minus_ok(rhs),
        ensures
            r == self.minus_spec(rhs),
    ;

    fn times(self, rhs: Self) -> (r: Self)
        requires
            self.times_ok(rhs),
        ensures
            r == self.times_spec(rhs),
    ;

    fn over(self, rhs: Self) -> (r: Self)
        requires
            self.over_ok(rhs),
        ensures
            r == self.over_spec(rhs),
    ;

    fn is_zero(self) -> (b: bool)
        ensures
            b == self.is_zero_spec(),
    ;

    fn exceeds(self, rhs: Self) -> (b: bool)
        ensures
            b == self.exceeds_spec(rhs),
    ;
}

/// Every sum, difference and product of two elements of `T` can be
/// represented, and so can every quotient by an element that is not zero.
pub open spec fn total_arithmetic<T: Scalar>() -> bool {
    &&& forall|a: T, b: T| #[trigger] a.plus_ok(b)
    &&& forall|a: T, b: T| #[trigger] a.minus_ok(b)
    &&& forall|a: T, b: T| #[trigger] a.times_ok(b)
    &&& forall|a: T, b: T| !b.is_zero_spec() ==> #[trigger] a.over_ok(b)
}

/// Whether the integer `value` lies in the range of `i64`.
pub open spec fn fits_i64(value: int) -> bool {
    i64::MIN <= value <= i64::MAX
}

/// The quotient of `a` by `b`, rounded towards zero.
///
/// `/` on `int` rounds so that the remainder is never negative, which agrees
/// with rounding towards zero exactly when the dividend is not negative.
pub open spec fn truncated_quotient(a: int, b: int) -> int {
    if a >= 0 {
        a / b
    } else {
        -((-a) / b)
    }
}

/// A quotient rounded towards zero is no further from zero than the dividend.
pub proof fn lemma_truncated_quotient_bounded(a: int, b: int)
    requires
        b != 0,
    ensures
        a >= 0 ==> -a <= truncated_quotient(a, b) <= a,
        a < 0 ==> a <= truncated_quotient(a, b) <= -a,
        a < 0 && b != -1 ==> truncated_quotient(a, b) < -a,
{
    let x = if a >= 0 {
        a
    } else {
        -a
    };
    assert(-x <= x / b <= x) by (nonlinear_arith)
        requires
            x >= 0,
            b != 0,
    ;
    assert(x > 0 && b != -1 ==> -(x / b) < x) by (nonlinear_arith)
        requires
            x >= 0,
            b != 0,
    ;
}

/// Machine integers: exact arithmetic wherever the result fits in 64 bits.
impl Scalar for i64 {
    open spec fn zero_spec() -> i64 {
        0
    }

    open spec fn one_spec() -> i64 {
        1
    }

    open spec fn from_int_spec(value: i64) -> i64 {
        value
    }

    open spec fn plus_spec(self, rhs: i64) -> i64 {
        (self + rhs) as i64
    }

    open spec fn plus_ok(self, rhs: i64) -> bool {
        fits_i64(self + rhs)
    }

    open spec fn minus_spec(self, rhs: i64) -> i64 {
        (self - rhs) as i64
    }

    open spec fn minus_ok(self, rhs: i64) -> bool {
        fits_i64(self - rhs)
    }

    open spec fn times_spec(self, rhs: i64) -> i64 {
        (self * rhs) as i64
    }

    open spec fn times_ok(self, rhs: i64) -> bool {
        fits_i64(self * rhs)
    }

    open spec fn over_spec(self, rhs: i64) -> i64 {
        truncated_quotient(self as int, rhs as int) as i64
    }

    open spec fn over_ok(self, rhs: i64) -> bool {
        rhs != 0 && !(self == i64::MIN && rhs == -1)
    }

    open spec fn is_zero_spec(self) -> bool {
        self == 0
    }

    open spec fn exceeds_spec(self, rhs: i64) -> bool {
        self > rhs
    }

    proof fn times_commutes(a: i64, b: i64) {
        assert(a * b == b * a) by (nonlinear_arith);
    }

    fn zero() -> (r: i64) {
        0
    }

    fn one() -> (r: i64) {
        1
    }

    fn from_int(value: i64) -> (r: i64) {
        value
    }

    fn plus(self, rhs: i64) -> (r: i64) {
        self + rhs
    }

    fn minus(self, rhs: i64) -> (r: i64) {
        self - rhs
    }

    fn times(self, rhs: i64) -> (r: i64) {
        self * rhs
    }

    fn over(self, rhs: i64) -> (r: i64) {
        self / rhs
    }

    fn is_zero(self) -> (b: bool) {
        self == 0
    }

    fn exceeds(self, rhs: i64) -> (b: bool) {
        self > rhs
    }
}

} // verus!
