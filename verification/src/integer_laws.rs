//! Laws of the dot product and of the matrix product over machine integers,
//! whose arithmetic is exact wherever it is defined.

use crate::matrix::{
    column, identity, product, product_ok, rectangular, row_product, shaped, width,
    zero_matrix,
};
use crate::vector::{dot, dot_ok, dot_prefix, dot_prefix_ok};
use vstd::prelude::*;

verus! {

/// The exact sum of the first `n` products `a[k] * b[k]`.
pub open spec fn exact_dot(a: Seq<int>, b: Seq<int>, n: nat) -> int
    decreases n,
{
    if n == 0 {
        0
    } else {
        exact_dot(a, b, (n - 1) as nat) + a[n - 1] * b[n - 1]
    }
}

/// The items of `s` as mathematical integers.
pub open spec fn as_ints(s: Seq<i64>) -> Seq<int> {
    Seq::new(s.len(), |k: int| s[k] as int)
}

/// Where a dot product of machine integers can be computed, it is the exact
/// sum of the products.
pub proof fn lemma_dot_is_exact(a: Seq<i64>, b: Seq<i64>, n: nat)
    requires
        n <= a.len(),
        n <= b.len(),
        dot_prefix_ok(a, b, n),
    ensures
        dot_prefix(a, b, n) == exact_dot(as_ints(a), as_ints(b), n),
    decreases n,
{
    if n > 0 {
        lemma_dot_is_exact(a, b, (n - 1) as nat);
    }
}

/// The dot product of a vector of machine integers with itself, the square of
/// its Euclidean norm, is never negative, and it is zero for the vectors of
/// zeros only.
pub proof fn lemma_dot_with_itself(v: Seq<i64>)
    requires
        dot_ok(v, v),
    ensures
        dot(v, v) >= 0,
        dot(v, v) == 0 <==> forall|k: int| 0 <= k < v.len() ==> v[k] == 0,
{
    lemma_dot_is_exact(v, v, v.len());
    lemma_exact_square(as_ints(v), v.len());
    let zeros = forall|k: int| 0 <= k < v.len() ==> v[k] == 0;
    let int_zeros = forall|k: int| 0 <= k < v.len() ==> as_ints(v)[k] == 0;
    if zeros {
        assert forall|k: int| 0 <= k < v.len() implies as_ints(v)[k] == 0 by {
            assert(v[k] == 0);
        }
    }
    if int_zeros {
        assert forall|k: int| 0 <= k < v.len() implies v[k] == 0 by {
            assert(as_ints(v)[k] == 0);
        }
    }
}

/// A sum of squares is never negative, and zero only where every item is.
proof fn lemma_exact_square(v: Seq<int>, n: nat)
    ensures
        exact_dot(v, v, n) >= 0,
        exact_dot(v, v, n) == 0 <==> forall|k: int| 0 <= k < n ==> v[k] == 0,
    decreases n,
{
    if n > 0 {
        lemma_exact_square(v, (n - 1) as nat);
        let x = v[n - 1];
        assert(x * x >= 0 && (x * x == 0 <==> x == 0)) by (nonlinear_arith);
    }
}

/// The exact dot product depends on the first `n` items of its second operand
/// only.
proof fn lemma_exact_dot_same(a: Seq<int>, v: Seq<int>, w: Seq<int>, n: nat)
    requires
        forall|j: int| 0 <= j < n ==> v[j] == w[j],
    ensures
        exact_dot(a, v, n) == exact_dot(a, w, n),
    decreases n,
{
    if n > 0 {
        lemma_exact_dot_same(a, v, w, (n - 1) as nat);
    }
}

/// The exact dot product is linear in its second operand.
proof fn lemma_exact_dot_linear(a: Seq<int>, w: Seq<int>, v: Seq<int>, s: int, u: Seq<int>, n: nat)
    requires
        forall|j: int| 0 <= j < n ==> u[j] == w[j] + v[j] * s,
    ensures
        exact_dot(a, u, n) == exact_dot(a, w, n) + exact_dot(a, v, n) * s,
    decreases n,
{
    if n > 0 {
        lemma_exact_dot_linear(a, w, v, s, u, (n - 1) as nat);
        let x = a[n - 1];
        let y = w[n - 1];
        let z = v[n - 1];
        let p = exact_dot(a, v, (n - 1) as nat);
        assert(x * (y + z * s) == x * y + (x * z) * s) by (nonlinear_arith);
        assert((p + x * z) * s == p * s + (x * z) * s) by (nonlinear_arith);
    }
}

/// For a row `a`, a matrix `b` and a column `c`: the sum over `k < m` of
/// `(a . column k of b) * c[k]`.
spec fn row_then_column(a: Seq<int>, b: Seq<Seq<int>>, c: Seq<int>, n: nat, m: nat) -> int
    decreases m,
{
    if m == 0 {
        0
    } else {
        row_then_column(a, b, c, n, (m - 1) as nat) + exact_dot(a, column(b, m - 1), n) * c[m - 1]
    }
}

/// For each row `j` of `b`, the exact dot product of its first `m` cells and `c`.
spec fn rows_dot(b: Seq<Seq<int>>, c: Seq<int>, m: nat) -> Seq<int> {
    Seq::new(b.len(), |j: int| exact_dot(b[j], c, m))
}

/// Summing over the columns of `b` first or over its rows first gives the same.
proof fn lemma_sum_order(a: Seq<int>, b: Seq<Seq<int>>, c: Seq<int>, n: nat, m: nat)
    requires
        n <= b.len(),
    ensures
        row_then_column(a, b, c, n, m) == exact_dot(a, rows_dot(b, c, m), n),
    decreases m,
{
    if m == 0 {
        lemma_exact_dot_zero(a, rows_dot(b, c, 0), n);
    } else {
        let before = (m - 1) as nat;
        lemma_sum_order(a, b, c, n, before);
        assert forall|j: int| 0 <= j < n implies rows_dot(b, c, m)[j] == rows_dot(b, c, before)[j]
            + column(b, m - 1)[j] * c[m - 1] by {}
        lemma_exact_dot_linear(
            a,
            rows_dot(b, c, before),
            column(b, m - 1),
            c[m - 1],
            rows_dot(b, c, m),
            n,
        );
    }
}

/// The exact dot product with zeros is zero.
proof fn lemma_exact_dot_zero(a: Seq<int>, z: Seq<int>, n: nat)
    requires
        forall|j: int| 0 <= j < n ==> z[j] == 0,
    ensures
        exact_dot(a, z, n) == 0,
    decreases n,
{
    if n > 0 {
        lemma_exact_dot_zero(a, z, (n - 1) as nat);
    }
}

/// The exact dot product of `u` and `c`, where `u[k]` is `a . column k of b`.
proof fn lemma_row_then_column(
    a: Seq<int>,
    b: Seq<Seq<int>>,
    c: Seq<int>,
    u: Seq<int>,
    n: nat,
    m: nat,
)
    requires
        forall|k: int| 0 <= k < m ==> u[k] == exact_dot(a, column(b, k), n),
    ensures
        exact_dot(u, c, m) == row_then_column(a, b, c, n, m),
    decreases m,
{
    if m > 0 {
        lemma_row_then_column(a, b, c, u, n, (m - 1) as nat);
    }
}

/// The rows of `m` as sequences of mathematical integers.
spec fn int_rows(m: Seq<Seq<i64>>) -> Seq<Seq<int>> {
    Seq::new(m.len(), |i: int| as_ints(m[i]))
}

/// Multiplying by the identity matrix changes nothing, and can always be
/// computed: `a * I == a` for every matrix `a` of machine integers and the
/// identity matrix with as many rows as `a` has columns.
pub proof fn lemma_product_identity(a: Seq<Seq<i64>>)
    requires
        rectangular(a),
    ensures
        product_ok(a, identity::<i64>(width(a))),
        product(a, identity::<i64>(width(a))) == a,
{
    let n = width(a);
    let id = identity::<i64>(n);
    assert forall|i: int, j: int| 0 <= i < a.len() && 0 <= j < width(id) implies dot_ok(
        #[trigger] a[i],
        #[trigger] column(id, j),
    ) && dot(a[i], column(id, j)) == a[i][j] by {
        lemma_dot_with_unit_column(a[i], n, j, n);
    }
    assert forall|i: int| 0 <= i < a.len() implies #[trigger] product(a, id)[i] == a[i] by {
        assert(row_product(a[i], id) =~= a[i]);
    }
    assert(product(a, id) =~= a);
}

/// The dot product of a row with column `j` of the identity matrix picks cell
/// `j` of the row.
proof fn lemma_dot_with_unit_column(row: Seq<i64>, n: nat, j: int, k: nat)
    requires
        row.len() == n,
        0 <= j < n,
        k <= n,
    ensures
        dot_prefix_ok(row, column(identity::<i64>(n), j), k),
        dot_prefix(row, column(identity::<i64>(n), j), k) == if k > j {
            row[j]
        } else {
            0
        },
    decreases k,
{
    if k > 0 {
        lemma_dot_with_unit_column(row, n, j, (k - 1) as nat);
        let cell = column(identity::<i64>(n), j)[k - 1];
        if k - 1 == j {
            assert(cell == 1);
            assert(row[k - 1] * cell == row[k - 1]);
        } else {
            assert(cell == 0);
            assert(row[k - 1] * cell == 0);
        }
    }
}

/// Multiplying by a zero matrix gives a zero matrix, and can always be
/// computed: `a * 0 == 0` for every matrix `a` of machine integers and every
/// zero matrix with as many rows as `a` has columns.
pub proof fn lemma_product_zero(a: Seq<Seq<i64>>, cols: nat)
    requires
        rectangular(a),
    ensures
        product_ok(a, zero_matrix::<i64>(width(a), cols)),
        product(a, zero_matrix::<i64>(width(a), cols)) == zero_matrix::<i64>(
            a.len(),
            width(zero_matrix::<i64>(width(a), cols)),
        ),
{
    let n = width(a);
    let zero = zero_matrix::<i64>(n, cols);
    assert forall|i: int, j: int| 0 <= i < a.len() && 0 <= j < width(zero) implies dot_ok(
        #[trigger] a[i],
        #[trigger] column(zero, j),
    ) && dot(a[i], column(zero, j)) == 0 by {
        lemma_dot_with_zero_column(a[i], n, cols, j, n);
    }
    assert(product(a, zero) =~~= zero_matrix::<i64>(a.len(), width(zero)));
}

/// The dot product of a row with a column of zeros is zero.
proof fn lemma_dot_with_zero_column(row: Seq<i64>, n: nat, cols: nat, j: int, k: nat)
    requires
        row.len() == n,
        0 <= j < cols,
        k <= n,
    ensures
        dot_prefix_ok(row, column(zero_matrix::<i64>(n, cols), j), k),
        dot_prefix(row, column(zero_matrix::<i64>(n, cols), j), k) == 0,
    decreases k,
{
    if k > 0 {
        lemma_dot_with_zero_column(row, n, cols, j, (k - 1) as nat);
    }
}

/// Matrix multiplication is associative: `(a * b) * c == a * (b * c)` for
/// matrices of machine integers of fitting shapes, wherever the four products
/// can be computed.
pub proof fn lemma_product_associative(a: Seq<Seq<i64>>, b: Seq<Seq<i64>>, c: Seq<Seq<i64>>)
    requires
        rectangular(a),
        rectangular(b),
        rectangular(c),
        width(a) == b.len(),
        width(b) == c.len(),
        product_ok(a, b),
        product_ok(product(a, b), c),
        product_ok(b, c),
        product_ok(a, product(b, c)),
    ensures
        product(product(a, b), c) == product(a, product(b, c)),
{
    let ab = product(a, b);
    let bc = product(b, c);
    let n = width(a);
    let m = width(b);
    let p = width(c);
    if n == 0 || m == 0 || p == 0 || a.len() == 0 {
        assert(product(ab, c) =~~= product(a, bc));
    } else {
        assert(width(b) == m);
        assert(width(c) == p);
        assert(width(bc) == p);
        assert forall|i: int, l: int| 0 <= i < a.len() && 0 <= l < p implies dot(
            ab[i],
            column(c, l),
        ) == dot(a[i], column(bc, l)) by {
            lemma_cell_associative(a, b, c, n, m, p, i, l);
        }
        assert forall|i: int| 0 <= i < a.len() implies #[trigger] product(ab, c)[i] == product(
            a,
            bc,
        )[i] by {
            assert(row_product(ab[i], c) =~= row_product(a[i], bc));
        }
        assert(product(ab, c) =~= product(a, bc));
    }
}

/// Cell `(i, l)` of `(a * b) * c` is cell `(i, l)` of `a * (b * c)`.
proof fn lemma_cell_associative(
    a: Seq<Seq<i64>>,
    b: Seq<Seq<i64>>,
    c: Seq<Seq<i64>>,
    n: nat,
    m: nat,
    p: nat,
    i: int,
    l: int,
)
    requires
        shaped(a, a.len(), n),
        shaped(b, n, m),
        shaped(c, m, p),
        n > 0,
        m > 0,
        p > 0,
        product_ok(a, b),
        product_ok(product(a, b), c),
        product_ok(b, c),
        product_ok(a, product(b, c)),
        0 <= i < a.len(),
        0 <= l < p,
    ensures
        dot(product(a, b)[i], column(c, l)) == dot(a[i], column(product(b, c), l)),
{
    let ab = product(a, b);
    let bc = product(b, c);
    let row = as_ints(a[i]);
    let mid = int_rows(b);
    let col = as_ints(column(c, l));
    assert(width(b) == m);
    assert(width(c) == p);
    assert(width(bc) == p);
    // the left side, exactly
    assert(dot_ok(ab[i], column(c, l)));
    lemma_dot_is_exact(ab[i], column(c, l), m);
    assert forall|k: int| 0 <= k < m implies as_ints(ab[i])[k] == exact_dot(
        row,
        column(mid, k),
        n,
    ) by {
        assert(dot_ok(a[i], column(b, k)));
        lemma_dot_is_exact(a[i], column(b, k), n);
        lemma_exact_dot_same(row, as_ints(column(b, k)), column(mid, k), n);
    }
    lemma_row_then_column(row, mid, col, as_ints(ab[i]), n, m);
    // the right side, exactly
    assert(dot_ok(a[i], column(bc, l)));
    lemma_dot_is_exact(a[i], column(bc, l), n);
    assert forall|j: int| 0 <= j < n implies as_ints(column(bc, l))[j] == rows_dot(mid, col, m)[j] by {
        assert(dot_ok(b[j], column(c, l)));
        lemma_dot_is_exact(b[j], column(c, l), m);
    }
    lemma_exact_dot_same(row, as_ints(column(bc, l)), rows_dot(mid, col, m), n);
    lemma_sum_order(row, mid, col, n, m);
}

} // verus!
