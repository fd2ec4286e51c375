//! Statistics of integer samples, and the error of one measurement against
//! another.

use crate::scalar::{fits_i64, lemma_truncated_quotient_bounded, truncated_quotient};
use crate::vector::{dot_prefix, dot_prefix_ok, lemma_dot_prefix_ok_shorter};
use std::collections::HashMap;
use vstd::prelude::*;

verus! {

/// Descriptive statistics of a sample.
pub struct Mean;

/// The sum of the first `n` items of `data`.
pub open spec fn total(data: Seq<i64>, n: nat) -> int
    decreases n,
{
    if n == 0 {
        0
    } else {
        total(data, (n - 1) as nat) + data[n - 1]
    }
}

/// Every sum of the first `k <= n` items of `data` fits in 64 bits.
pub open spec fn total_fits(data: Seq<i64>, n: nat) -> bool
    decreases n,
{
    n == 0 || (total_fits(data, (n - 1) as nat) && fits_i64(total(data, n)))
}

/// The sum of the squares of the distances of the first `n` items of `data`
/// from `center`.
pub open spec fn squares_total(data: Seq<i64>, center: int, n: nat) -> int
    decreases n,
{
    if n == 0 {
        0
    } else {
        squares_total(data, center, (n - 1) as nat) + (data[n - 1] - center) * (data[n - 1]
            - center)
    }
}

/// Every distance from `center`, every square of one and every sum that
/// `squares_total(data, center, n)` is made of fits in 64 bits.
pub open spec fn squares_fit(data: Seq<i64>, center: int, n: nat) -> bool
    decreases n,
{
    n == 0 || {
        &&& squares_fit(data, center, (n - 1) as nat)
        &&& fits_i64(data[n - 1] - center)
        &&& fits_i64((data[n - 1] - center) * (data[n - 1] - center))
        &&& fits_i64(squares_total(data, center, n))
    }
}

/// The mean of `data`, rounded towards zero.
pub open spec fn mean_of(data: Seq<i64>) -> int {
    truncated_quotient(total(data, data.len()), data.len() as int)
}

/// Where the sum of `n` items fits, the sum of the first `k <= n` does.
proof fn lemma_total_fits_shorter(data: Seq<i64>, n: nat, k: nat)
    requires
        total_fits(data, n),
        k <= n,
    ensures
        total_fits(data, k),
    decreases n,
{
    if k < n {
        lemma_total_fits_shorter(data, (n - 1) as nat, k);
    }
}

/// Where the squares of `n` items can be summed, those of the first `k <= n`
/// can.
proof fn lemma_squares_fit_shorter(data: Seq<i64>, center: int, n: nat, k: nat)
    requires
        squares_fit(data, center, n),
        k <= n,
    ensures
        squares_fit(data, center, k),
    decreases n,
{
    if k < n {
        lemma_squares_fit_shorter(data, center, (n - 1) as nat, k);
    }
}

/// `s` is in ascending order.
pub open spec fn ascending(s: Seq<i64>) -> bool {
    forall|i: int, j: int| 0 <= i <= j < s.len() ==> s[i] <= s[j]
}

/// `s` holds the items of `data`, each as often as `data` does, in ascending
/// order.
pub open spec fn sorted_arrangement(s: Seq<i64>, data: Seq<i64>) -> bool {
    ascending(s) && s.to_multiset() == data.to_multiset()
}

/// The items of `data` in ascending order.
pub open spec fn sorted_of(data: Seq<i64>) -> Seq<i64> {
    choose|s: Seq<i64>| sorted_arrangement(s, data)
}

/// The median of the ascending sequence `s`: its middle item, or the mean of
/// its two middle items, rounded towards zero.
pub open spec fn middle(s: Seq<i64>) -> int {
    let mid = (s.len() / 2) as int;
    if s.len() % 2 == 0 {
        truncated_quotient(s[mid] + s[mid - 1], 2)
    } else {
        s[mid] as int
    }
}

/// There is only one way to put the items of `data` in ascending order.
pub proof fn lemma_sorted_of(s: Seq<i64>, data: Seq<i64>)
    requires
        sorted_arrangement(s, data),
    ensures
        sorted_of(data) == s,
{
    let leq = |a: i64, b: i64| a <= b;
    let t = sorted_of(data);
    vstd::seq_lib::lemma_sorted_unique(s, t, leq);
}

/// Sorts `items` with `sort` of the standard library, which puts a slice in
/// ascending order and neither adds nor drops an item.
#[verifier::external_body]
fn sort_ascending(items: &mut Vec<i64>)
    ensures
        sorted_arrangement(final(items)@, old(items)@),
{
    items.sort();
}

/// How often `value` occurs among the first `n` items of `data`.
pub open spec fn occurrences_in(data: Seq<i64>, value: i64, n: nat) -> nat
    decreases n,
{
    if n == 0 {
        0
    } else {
        occurrences_in(data, value, (n - 1) as nat) + if data[n - 1] == value {
            1nat
        } else {
            0nat
        }
    }
}

/// How often `value` occurs in `data`.
pub open spec fn occurrences(data: Seq<i64>, value: i64) -> nat {
    occurrences_in(data, value, data.len())
}

/// The item at index `at` occurs in `data` at least as often as every value,
/// and more often than every item before it.
pub open spec fn first_mode_at(data: Seq<i64>, at: int) -> bool {
    &&& 0 <= at < data.len()
    &&& forall|v: i64| #[trigger] occurrences(data, v) <= occurrences(data, data[at])
    &&& forall|j: int|
        0 <= j < at ==> occurrences(data, #[trigger] data[j]) < occurrences(data, data[at])
}

/// A value occurs among the first `n` items at most `n` times, and not at all
/// unless one of them is that value.
proof fn lemma_occurrences_bounds(data: Seq<i64>, value: i64, n: nat)
    requires
        n <= data.len(),
    ensures
        occurrences_in(data, value, n) <= n,
        occurrences_in(data, value, n) > 0 ==> exists|k: int| 0 <= k < n && data[k] == value,
    decreases n,
{
    if n > 0 {
        lemma_occurrences_bounds(data, value, (n - 1) as nat);
    }
}

/// A value occurs among more items at least as often as among fewer.
proof fn lemma_occurrences_grow(data: Seq<i64>, value: i64, k: nat, n: nat)
    requires
        k <= n,
    ensures
        occurrences_in(data, value, k) <= occurrences_in(data, value, n),
    decreases n,
{
    if k < n {
        lemma_occurrences_grow(data, value, k, (n - 1) as nat);
    }
}

impl Mean {
    /// The sum of `data`.
    fn sum_i(data: &[i64]) -> (r: i64)
        requires
            total_fits(data@, data@.len()),
        ensures
            r == total(data@, data@.len()),
    {
        let n = data.len();
        let mut sum: i64 = 0;
        let mut i: usize = 0;
        while i < n
            invariant
                i <= n,
                n == data@.len(),
                total_fits(data@, n as nat),
                sum == total(data@, i as nat),
            decreases n - i,
        {
            proof {
                lemma_total_fits_shorter(data@, n as nat, (i + 1) as nat);
            }
            sum = sum + data[i];
            i += 1;
        }
        sum
    }

    /// The mean of `data`: the sum divided by the number of items, rounded
    /// towards zero.
    pub fn mean_i(data: &[i64]) -> (r: i64)
        requires
            0 < data@.len() <= i64::MAX,
            total_fits(data@, data@.len()),
        ensures
            r == mean_of(data@),
    {
        let sum = Self::sum_i(data);
        sum / (data.len() as i64)
    }

    /// The mean of `data` weighted by `weights`: the sum of the products
    /// `data[k] * weights[k]` divided by the sum of the weights, rounded
    /// towards zero.
    pub fn weighted_average_i(data: &[i64], weights: &[i64]) -> (r: i64)
        requires
            data@.len() == weights@.len(),
            dot_prefix_ok(data@, weights@, data@.len()),
            total_fits(weights@, weights@.len()),
            total(weights@, weights@.len()) != 0,
            !(dot_prefix(data@, weights@, data@.len()) == i64::MIN && total(
                weights@,
                weights@.len(),
            ) == -1),
        ensures
            r == truncated_quotient(
                dot_prefix(data@, weights@, data@.len()) as int,
                total(weights@, weights@.len()),
            ),
    {
        let n = data.len();
        let mut sum: i64 = 0;
        let mut sum_weights: i64 = 0;
        let mut i: usize = 0;
        while i < n
            invariant
                i <= n,
                n == data@.len(),
                n == weights@.len(),
                dot_prefix_ok(data@, weights@, n as nat),
                total_fits(weights@, n as nat),
                sum == dot_prefix(data@, weights@, i as nat),
                sum_weights == total(weights@, i as nat),
            decreases n - i,
        {
            proof {
                lemma_dot_prefix_ok_shorter(data@, weights@, n as nat, (i + 1) as nat);
                lemma_total_fits_shorter(weights@, n as nat, (i + 1) as nat);
            }
            sum = sum + data[i] * weights[i];
            sum_weights = sum_weights + weights[i];
            i += 1;
        }
        proof {
            lemma_truncated_quotient_bounded(sum as int, sum_weights as int);
        }
        sum / sum_weights
    }

    /// The median of `data`: the middle item of its ascending arrangement, or
    /// the mean of the two middle items, rounded towards zero.
    pub fn median_i(data: &[i64]) -> (r: i64)
        requires
            data@.len() > 0,
            data@.len() % 2 == 0 ==> fits_i64(
                sorted_of(data@)[(data@.len() / 2) as int] + sorted_of(data@)[data@.len() / 2 - 1],
            ),
        ensures
            r == middle(sorted_of(data@)),
    {
        let mut items = vstd::slice::slice_to_vec(data);
        sort_ascending(&mut items);
        proof {
            lemma_sorted_of(items@, data@);
            // the arrangement has as many items as `data`
            items@.to_multiset_ensures();
            data@.to_multiset_ensures();
        }
        let mid = items.len() / 2;
        if items.len() % 2 == 0 {
            (items[mid] + items[mid - 1]) / 2
        } else {
            items[mid]
        }
    }

    /// The mean of the squares of the distances of the items of `data` from
    /// `center`, rounded towards zero.
    pub fn variance_around(data: &[i64], center: i64) -> (r: i64)
        requires
            0 < data@.len() <= i64::MAX,
            squares_fit(data@, center as int, data@.len()),
        ensures
            r == truncated_quotient(
                squares_total(data@, center as int, data@.len()),
                data@.len() as int,
            ),
    {
        let n = data.len();
        let mut sum: i64 = 0;
        let mut i: usize = 0;
        while i < n
            invariant
                i <= n,
                n == data@.len(),
                squares_fit(data@, center as int, n as nat),
                sum == squares_total(data@, center as int, i as nat),
            decreases n - i,
        {
            proof {
                lemma_squares_fit_shorter(data@, center as int, n as nat, (i + 1) as nat);
            }
            let distance = data[i] - center;
            sum = sum + distance * distance;
            i += 1;
        }
        sum / (n as i64)
    }

    /// The variance of `data`: the mean of the squares of the distances of the
    /// items from their mean, both means rounded towards zero.
    pub fn variance_i(data: &[i64]) -> (r: i64)
        requires
            0 < data@.len() <= i64::MAX,
            total_fits(data@, data@.len()),
            squares_fit(data@, mean_of(data@), data@.len()),
        ensures
            r == truncated_quotient(
                squares_total(data@, mean_of(data@), data@.len()),
                data@.len() as int,
            ),
    {
        let mean = Self::mean_i(data);
        Self::variance_around(data, mean)
    }

    /// A value that occurs in `data` at least as often as every other value,
    /// and `None` where `data` is empty. Where several values occur most often,
    /// the one that comes first in `data` is returned.
    pub fn mode(data: &[i64]) -> (r: Option<i64>)
        ensures
            match r {
                None => data@.len() == 0,
                Some(m) => exists|at: int| first_mode_at(data@, at) && data@[at] == m,
            },
    {
        let n = data.len();
        let mut counts: HashMap<i64, usize> = HashMap::new();
        let mut i: usize = 0;
        while i < n
            invariant
                i <= n,
                n == data@.len(),
                forall|v: i64| counts@.contains_key(v) <==> occurrences_in(data@, v, i as nat) > 0,
                forall|v: i64|
                    counts@.contains_key(v) ==> #[trigger] counts@[v] == occurrences_in(
                        data@,
                        v,
                        i as nat,
                    ),
            decreases n - i,
        {
            let value = data[i];
            proof {
                lemma_occurrences_bounds(data@, value, i as nat);
            }
            let seen = match counts.get(&value) {
                Some(count) => *count,
                None => 0,
            };
            counts.insert(value, seen + 1);
            i += 1;
        }
        let mut best: Option<i64> = None;
        let mut best_count: usize = 0;
        let ghost mut at: int = 0;
        let mut i: usize = 0;
        while i < n
            invariant
                i <= n,
                n == data@.len(),
                forall|v: i64| counts@.contains_key(v) <==> occurrences(data@, v) > 0,
                forall|v: i64|
                    counts@.contains_key(v) ==> #[trigger] counts@[v] == occurrences(data@, v),
                match best {
                    None => i == 0 && best_count == 0,
                    Some(m) => 0 <= at < i && data@[at] == m && best_count == occurrences(
                        data@,
                        m,
                    ),
                },
                forall|k: int| 0 <= k < i ==> occurrences(data@, #[trigger] data@[k]) <= best_count,
                forall|k: int| 0 <= k < at ==> occurrences(data@, #[trigger] data@[k]) < best_count,
            decreases n - i,
        {
            let value = data[i];
            proof {
                lemma_occurrences_grow(data@, value, (i + 1) as nat, n as nat);
            }
            let count = match counts.get(&value) {
                Some(count) => *count,
                None => 0,
            };
            if count > best_count {
                best = Some(value);
                best_count = count;
                proof {
                    at = i as int;
                }
            }
            i += 1;
        }
        proof {
            if let Some(m) = best {
                assert forall|v: i64| occurrences(data@, v) <= occurrences(data@, m) by {
                    lemma_occurrences_bounds(data@, v, n as nat);
                    if occurrences(data@, v) > 0 {
                        let k = choose|k: int| 0 <= k < n && data@[k] == v;
                        assert(occurrences(data@, data@[k]) <= best_count);
                    }
                }
            }
        }
        best
    }
}

/// Error-distance metrics between two measurements.
pub struct CalculusError;

/// The distance between `x` and `y` on the number line.
pub open spec fn distance(x: int, y: int) -> int {
    if x >= y {
        x - y
    } else {
        y - x
    }
}

impl CalculusError {
    /// The error of the measurement `y` relative to `x`: `|x - y| / |x|`,
    /// rounded towards zero.
    pub fn relative_error_i(x: i64, y: i64) -> (r: i64)
        requires
            x != 0,
            x != i64::MIN,
            distance(x as int, y as int) <= i64::MAX,
        ensures
            r == distance(x as int, y as int) / distance(x as int, 0),
    {
        let error = Self::absolute_error_i(x, y);
        let size = if x >= 0 {
            x
        } else {
            -x
        };
        error / size
    }

    /// The absolute error `|x - y|` of the measurement `y` against `x`.
    pub fn absolute_error_i(x: i64, y: i64) -> (r: i64)
        requires
            distance(x as int, y as int) <= i64::MAX,
        ensures
            r == distance(x as int, y as int),
    {
        if x >= y {
            x - y
        } else {
            y - x
        }
    }
}

} // verus!
