//! Vectors, with their sums, multiples and dot products.

use crate::scalar::{total_arithmetic, Scalar};
use vstd::prelude::*;

verus! {

/// Failure of an operation that combines two vectors.
#[derive(Debug, PartialEq)]
pub enum VectorError {
    /// The two operands do not have the same number of components.
    DimensionMismatch,
}

/// A fixed-dimension tuple of numeric components.
#[derive(Debug, PartialEq)]
pub struct Vector<T> {
    components: Vec<T>,
    dimensions: u64,
}

/// The integers of `a`, each as an element of `T`.
pub open spec fn promoted<T: Scalar>(a: Seq<i64>) -> Seq<T> {
    Seq::new(a.len(), |i: int| T::from_int_spec(a[i]))
}

/// Every componentwise sum of `a` and `b` can be represented.
pub open spec fn sum_ok<T: Scalar>(a: Seq<T>, b: Seq<T>) -> bool {
    forall|i: int| 0 <= i < a.len() ==> (#[trigger] a[i]).plus_ok(b[i])
}

/// The componentwise sum of `a` and `b`.
pub open spec fn sum<T: Scalar>(a: Seq<T>, b: Seq<T>) -> Seq<T> {
    Seq::new(a.len(), |i: int| a[i].plus_spec(b[i]))
}

/// Every component of `a` can be multiplied by `factor`.
pub open spec fn scaled_ok<T: Scalar>(a: Seq<T>, factor: T) -> bool {
    forall|i: int| 0 <= i < a.len() ==> (#[trigger] a[i]).times_ok(factor)
}

/// `a` with every component multiplied by `factor`.
pub open spec fn scaled<T: Scalar>(a: Seq<T>, factor: T) -> Seq<T> {
    Seq::new(a.len(), |i: int| a[i].times_spec(factor))
}

/// The sum of the first `n` products `a[k] * b[k]`, accumulated from zero in
/// the order of the components.
pub open spec fn dot_prefix<T: Scalar>(a: Seq<T>, b: Seq<T>, n: nat) -> T
    decreases n,
{
    if n == 0 {
        T::zero_spec()
    } else {
        dot_prefix(a, b, (n - 1) as nat).plus_spec(a[n - 1].times_spec(b[n - 1]))
    }
}

/// Every product and every partial sum that `dot_prefix(a, b, n)` is made of
/// can be represented.
pub open spec fn dot_prefix_ok<T: Scalar>(a: Seq<T>, b: Seq<T>, n: nat) -> bool
    decreases n,
{
    n == 0 || {
        &&& dot_prefix_ok(a, b, (n - 1) as nat)
        &&& a[n - 1].times_ok(b[n - 1])
        &&& dot_prefix(a, b, (n - 1) as nat).plus_ok(a[n - 1].times_spec(b[n - 1]))
    }
}

/// The dot product of two sequences of equal length.
pub open spec fn dot<T: Scalar>(a: Seq<T>, b: Seq<T>) -> T {
    dot_prefix(a, b, a.len())
}

/// The dot product of `a` and `b` can be computed without leaving `T`.
pub open spec fn dot_ok<T: Scalar>(a: Seq<T>, b: Seq<T>) -> bool {
    dot_prefix_ok(a, b, a.len())
}

/// Where a dot product can be computed, each of its prefixes can.
pub(crate) proof fn lemma_dot_prefix_ok_shorter<T: Scalar>(a: Seq<T>, b: Seq<T>, n: nat, k: nat)
    requires
        dot_prefix_ok(a, b, n),
        k <= n,
    ensures
        dot_prefix_ok(a, b, k),
    decreases n,
{
    if k < n {
        lemma_dot_prefix_ok_shorter(a, b, (n - 1) as nat, k);
    }
}

/// Where the arithmetic of `T` is total, every dot product can be computed.
pub proof fn lemma_total_dot_ok<T: Scalar>(a: Seq<T>, b: Seq<T>)
    requires
        total_arithmetic::<T>(),
    ensures
        dot_ok(a, b),
{
    lemma_total_dot_prefix_ok(a, b, a.len());
}

proof fn lemma_total_dot_prefix_ok<T: Scalar>(a: Seq<T>, b: Seq<T>, n: nat)
    requires
        total_arithmetic::<T>(),
    ensures
        dot_prefix_ok(a, b, n),
    decreases n,
{
    if n > 0 {
        lemma_total_dot_prefix_ok(a, b, (n - 1) as nat);
    }
}

/// The dot product does not depend on the order of its two operands.
pub proof fn lemma_dot_product_commutes<T: Scalar>(a: Seq<T>, b: Seq<T>)
    requires
        a.len() == b.len(),
    ensures
        dot_ok(a, b) == dot_ok(b, a),
        dot(a, b) == dot(b, a),
{
    lemma_dot_prefix_commutes(a, b, a.len());
}

proof fn lemma_dot_prefix_commutes<T: Scalar>(a: Seq<T>, b: Seq<T>, n: nat)
    ensures
        dot_prefix_ok(a, b, n) == dot_prefix_ok(b, a, n),
        dot_prefix(a, b, n) == dot_prefix(b, a, n),
    decreases n,
{
    if n > 0 {
        lemma_dot_prefix_commutes(a, b, (n - 1) as nat);
        T::times_commutes(a[n - 1], b[n - 1]);
    }
}

impl<T> Vector<T> {
    #[verifier::type_invariant]
    spec fn dimension_matches(self) -> bool {
        self.dimensions == self.components@.len()
    }

    /// The components, in order.
    pub closed spec fn view(&self) -> Seq<T> {
        self.components@
    }

    /// Builds the vector that holds `components`, in the given order.
    pub fn new(components: Vec<T>) -> (v: Self)
        ensures
            v@ == components@,
    {
        let dimensions = components.len() as u64;
        Self { components, dimensions }
    }

    /// Number of components.
    pub fn dimensions(&self) -> (n: u64)
        ensures
            n == self@.len(),
    {
        proof {
            use_type_invariant(self);
        }
        self.dimensions
    }

    /// The components, in order.
    pub fn components(&self) -> (c: &Vec<T>)
        ensures
            c@ == self@,
    {
        &self.components
    }
}

/// The integers of `ints`, each converted to an element of `T`.
fn promote<T: Scalar>(ints: &Vec<i64>) -> (r: Vec<T>)
    ensures
        r@ == promoted::<T>(ints@),
{
    let n = ints.len();
    let mut r: Vec<T> = Vec::with_capacity(n);
    let mut i: usize = 0;
    while i < n
        invariant
            i <= n,
            n == ints@.len(),
            r@ == promoted::<T>(ints@).take(i as int),
        decreases n - i,
    {
        r.push(T::from_int(ints[i]));
        i += 1;
    }
    r
}

/// The dot product of `a` and `b`.
pub(crate) fn dot_of<T: Scalar>(a: &Vec<T>, b: &Vec<T>) -> (r: T)
    requires
        a@.len() == b@.len(),
        dot_ok(a@, b@),
    ensures
        r == dot(a@, b@),
{
    let n = a.len();
    let mut acc = T::zero();
    let mut i: usize = 0;
    while i < n
        invariant
            i <= n,
            n == a@.len(),
            n == b@.len(),
            dot_prefix_ok(a@, b@, n as nat),
            acc == dot_prefix(a@, b@, i as nat),
        decreases n - i,
    {
        proof {
            lemma_dot_prefix_ok_shorter(a@, b@, n as nat, (i + 1) as nat);
        }
        let p = a[i].times(b[i]);
        acc = acc.plus(p);
        i += 1;
    }
    acc
}

impl<T: Scalar> Vector<T> {
    /// Adds `summands` to the components, one by one.
    fn add_components(&mut self, summands: &Vec<T>)
        requires
            old(self)@.len() == summands@.len(),
            sum_ok(old(self)@, summands@),
        ensures
            final(self)@ == sum(old(self)@, summands@),
    {
        proof {
            use_type_invariant(&*self);
        }
        let n = self.components.len();
        let mut i: usize = 0;
        while i < n
            invariant
                i <= n,
                n == old(self)@.len(),
                n == summands@.len(),
                self.dimensions == n,
                self@.len() == n,
                sum_ok(old(self)@, summands@),
                forall|k: int| 0 <= k < i ==> self@[k] == (#[trigger] old(self)@[k]).plus_spec(summands@[k]),
                forall|k: int| i <= k < n ==> self@[k] == old(self)@[k],
            decreases n - i,
        {
            let s = self.components[i].plus(summands[i]);
            self.components[i] = s;
            i += 1;
        }
    }

    /// Adds `vector` to this vector, component by component. Vectors of
    /// different dimensions are rejected, and this vector stays as it is.
    pub fn add(&mut self, vector: &Vector<T>) -> (r: Result<(), VectorError>)
        requires
            old(self)@.len() == vector@.len() ==> sum_ok(old(self)@, vector@),
        ensures
            match r {
                Ok(_) => old(self)@.len() == vector@.len() && final(self)@ == sum(
                    old(self)@,
                    vector@,
                ),
                Err(e) => old(self)@.len() != vector@.len() && e == VectorError::DimensionMismatch
                    && final(self)@ == old(self)@,
            },
    {
        proof {
            use_type_invariant(&*self);
            use_type_invariant(vector);
        }
        if self.dimensions == vector.dimensions {
            self.add_components(&vector.components);
            Ok(())
        } else {
            Err(VectorError::DimensionMismatch)
        }
    }

    /// Adds `vector` to this vector, component by component: `add` under the
    /// name that vectors of real elements know it by.
    pub fn add_f(&mut self, vector: &Vector<T>) -> (r: Result<(), VectorError>)
        requires
            old(self)@.len() == vector@.len() ==> sum_ok(old(self)@, vector@),
        ensures
            match r {
                Ok(_) => old(self)@.len() == vector@.len() && final(self)@ == sum(
                    old(self)@,
                    vector@,
                ),
                Err(e) => old(self)@.len() != vector@.len() && e == VectorError::DimensionMismatch
                    && final(self)@ == old(self)@,
            },
    {
        self.add(vector)
    }

    /// Adds the integer vector `vector` to this vector, each integer converted
    /// to an element of `T` first. Vectors of different dimensions are
    /// rejected, and this vector stays as it is.
    pub fn add_i(&mut self, vector: &Vector<i64>) -> (r: Result<(), VectorError>)
        requires
            old(self)@.len() == vector@.len() ==> sum_ok(old(self)@, promoted::<T>(vector@)),
        ensures
            match r {
                Ok(_) => old(self)@.len() == vector@.len() && final(self)@ == sum(
                    old(self)@,
                    promoted::<T>(vector@),
                ),
                Err(e) => old(self)@.len() != vector@.len() && e == VectorError::DimensionMismatch
                    && final(self)@ == old(self)@,
            },
    {
        proof {
            use_type_invariant(&*self);
            use_type_invariant(vector);
        }
        if self.dimensions == vector.dimensions {
            let summands = promote::<T>(&vector.components);
            self.add_components(&summands);
            Ok(())
        } else {
            Err(VectorError::DimensionMismatch)
        }
    }

    /// The dot product with `vector`: the sum of the products of the
    /// components, accumulated from zero in their order. Vectors of different
    /// dimensions are rejected.
    pub fn dot_product(&self, vector: &Vector<T>) -> (r: Result<T, VectorError>)
        requires
            self@.len() == vector@.len() ==> dot_ok(self@, vector@),
        ensures
            match r {
                Ok(d) => self@.len() == vector@.len() && d == dot(self@, vector@),
                Err(e) => self@.len() != vector@.len() && e == VectorError::DimensionMismatch,
            },
    {
        proof {
            use_type_invariant(self);
            use_type_invariant(vector);
        }
        if self.dimensions != vector.dimensions {
            return Err(VectorError::DimensionMismatch);
        }
        Ok(dot_of(&self.components, &vector.components))
    }

    /// The dot product with `vector`: `dot_product` under the name that
    /// vectors of real elements know it by.
    pub fn dot_product_f(&self, vector: &Vector<T>) -> (r: Result<T, VectorError>)
        requires
            self@.len() == vector@.len() ==> dot_ok(self@, vector@),
        ensures
            match r {
                Ok(d) => self@.len() == vector@.len() && d == dot(self@, vector@),
                Err(e) => self@.len() != vector@.len() && e == VectorError::DimensionMismatch,
            },
    {
        self.dot_product(vector)
    }

    /// The dot product with the integer vector `vector`, each integer
    /// converted to an element of `T` first. Vectors of different dimensions
    /// are rejected.
    pub fn dot_product_i(&self, vector: &Vector<i64>) -> (r: Result<T, VectorError>)
        requires
            self@.len() == vector@.len() ==> dot_ok(self@, promoted::<T>(vector@)),
        ensures
            match r {
                Ok(d) => self@.len() == vector@.len() && d == dot(self@, promoted::<T>(vector@)),
                Err(e) => self@.len() != vector@.len() && e == VectorError::DimensionMismatch,
            },
    {
        proof {
            use_type_invariant(self);
            use_type_invariant(vector);
        }
        if self.dimensions != vector.dimensions {
            return Err(VectorError::DimensionMismatch);
        }
        let factors = promote::<T>(&vector.components);
        Ok(dot_of(&self.components, &factors))
    }

    /// The vector with every component multiplied by the integer `scalar`,
    /// converted to an element of `T` first.
    pub fn mul_i(self, scalar: i64) -> (r: Vector<T>)
        requires
            scaled_ok(self@, T::from_int_spec(scalar)),
        ensures
            r@ == scaled(self@, T::from_int_spec(scalar)),
    {
        self * T::from_int(scalar)
    }
}

/// What `*` asks of its operands. Its result is stated by `mul` itself, as
/// the components of the product; `mul_spec`, which would have to name the
/// product as a whole, is not relied on.
impl<T: Scalar> vstd::std_specs::ops::MulSpecImpl<T> for Vector<T> {
    open spec fn obeys_mul_spec() -> bool {
        false
    }

    open spec fn mul_req(self, rhs: T) -> bool {
        scaled_ok(self@, rhs)
    }

    open spec fn mul_spec(self, rhs: T) -> Vector<T> {
        self
    }
}

impl<T: Scalar> core::ops::Mul<T> for Vector<T> {
    type Output = Vector<T>;

    /// The vector with every component multiplied by `scalar`.
    fn mul(self, scalar: T) -> (r: Vector<T>)
        ensures
            r@ == scaled(self@, scalar),
    {
        let mut v = self;
        proof {
            use_type_invariant(&v);
        }
        let n = v.components.len();
        let mut i: usize = 0;
        while i < n
            invariant
                i <= n,
                n == self@.len(),
                v@.len() == n,
                v.dimensions == n,
                scaled_ok(self@, scalar),
                forall|k: int| 0 <= k < i ==> v@[k] == (#[trigger] self@[k]).times_spec(scalar),
                forall|k: int| i <= k < n ==> v@[k] == self@[k],
            decreases n - i,
        {
            let s = v.components[i].times(scalar);
            v.components[i] = s;
            i += 1;
        }
        v
    }
}

} // verus!
