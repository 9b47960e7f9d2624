//! Exact rational scalars, and the lemmas that carry integer arithmetic on
//! numerators and denominators over to the real numbers they denote.

use vstd::prelude::*;

verus! {

/// The real number `n / d`.
pub open spec fn ratio(n: int, d: int) -> real {
    n as real / d as real
}

/// The absolute value of an integer.
pub open spec fn magnitude_of(i: int) -> nat {
    if i < 0 {
        (-i) as nat
    } else {
        i as nat
    }
}

/// The larger of two naturals.
pub open spec fn larger(a: nat, b: nat) -> nat {
    if a >= b {
        a
    } else {
        b
    }
}

/// The absolute value of `i`, computed.
pub fn magnitude_exec(i: i64) -> (m: u64)
    ensures
        m == magnitude_of(i as int),
{
    if i < 0 {
        (-(i as i128)) as u64
    } else {
        i as u64
    }
}

/// A rational number: `num / den` with a positive denominator.
#[derive(Clone, Copy, Debug, PartialEq, Eq)]
pub struct Scalar {
    pub num: i64,
    pub den: i64,
}

impl Scalar {
    /// The denominator is positive.
    pub open spec fn wf(&self) -> bool {
        self.den > 0
    }

    /// The real number this scalar denotes.
    pub open spec fn value(&self) -> real {
        ratio(self.num as int, self.den as int)
    }

    /// The larger of `|num|` and `den`.
    pub open spec fn magnitude(&self) -> nat {
        larger(magnitude_of(self.num as int), magnitude_of(self.den as int))
    }

    /// The magnitude, computed.
    pub fn magnitude_exec(&self) -> (m: u64)
        ensures
            m == self.magnitude(),
    {
        let a: u64 = magnitude_exec(self.num);
        let b: u64 = magnitude_exec(self.den);
        if a >= b {
            a
        } else {
            b
        }
    }

    /// The scalar `num / den`, or `None` when `den` is not positive.
    pub fn new(num: i64, den: i64) -> (s: Option<Scalar>)
        ensures
            den > 0 ==> s == Some(Scalar { num, den }),
            den <= 0 ==> s is None,
    {
        if den > 0 {
            Some(Scalar { num, den })
        } else {
            None
        }
    }

    /// The integer `n` as a scalar.
    pub fn from_int(n: i64) -> (s: Scalar)
        ensures
            s == (Scalar { num: n, den: 1 }),
            s.wf(),
            s.value() == n as real,
    {
        proof {
            lemma_ratio_whole(n as int);
        }
        Scalar { num: n, den: 1 }
    }
}

/// A fraction over one is its numerator.
pub proof fn lemma_ratio_whole(n: int)
    ensures
        ratio(n, 1) == n as real,
{
    let x = n as real;
    assert(x / 1real == x) by (nonlinear_arith);
}

/// Casting to `real` commutes with integer multiplication.
pub proof fn lemma_real_of_product(a: int, b: int)
    ensures
        (a * b) as real == a as real * b as real,
{
    assert((a * b) as real == a as real * b as real) by (nonlinear_arith);
}

/// Fractions over one denominator add by their numerators.
pub proof fn lemma_ratio_add(a: int, b: int, d: int)
    requires
        d > 0,
    ensures
        ratio(a, d) + ratio(b, d) == ratio(a + b, d),
        ratio(a, d) - ratio(b, d) == ratio(a - b, d),
{
    let x = a as real;
    let y = b as real;
    let z = d as real;
    assert(x / z + y / z == (x + y) / z && x / z - y / z == (x - y) / z) by (nonlinear_arith)
        requires
            z > 0real,
    ;
}

/// Fractions multiply numerator by numerator and denominator by denominator.
pub proof fn lemma_ratio_mul(a: int, b: int, c: int, d: int)
    requires
        b > 0,
        d > 0,
    ensures
        ratio(a, b) * ratio(c, d) == ratio(a * c, b * d),
        b * d > 0,
{
    let x = a as real;
    let y = b as real;
    let z = c as real;
    let w = d as real;
    lemma_real_of_product(a, c);
    lemma_real_of_product(b, d);
    assert(b * d > 0) by (nonlinear_arith)
        requires
            b > 0,
            d > 0,
    ;
    assert((x / y) * (z / w) == (x * z) / (y * w)) by (nonlinear_arith)
        requires
            y > 0real,
            w > 0real,
    ;
}

/// Multiplying numerator and denominator by one positive factor changes nothing.
pub proof fn lemma_ratio_scale(n: int, d: int, k: int)
    requires
        d > 0,
        k > 0,
    ensures
        ratio(n * k, d * k) == ratio(n, d),
        d * k > 0,
{
    let x = n as real;
    let y = d as real;
    let z = k as real;
    lemma_real_of_product(n, k);
    lemma_real_of_product(d, k);
    assert(d * k > 0) by (nonlinear_arith)
        requires
            d > 0,
            k > 0,
    ;
    assert((x * z) / (y * z) == x / y) by (nonlinear_arith)
        requires
            y > 0real,
            z > 0real,
    ;
}

/// The sum and the difference of two fractions, over the product of their
/// denominators.
pub proof fn lemma_ratio_cross(a: int, p: int, b: int, q: int)
    requires
        p > 0,
        q > 0,
    ensures
        ratio(a, p) + ratio(b, q) == ratio(a * q + b * p, p * q),
        ratio(a, p) - ratio(b, q) == ratio(a * q - b * p, p * q),
        p * q > 0,
{
    lemma_ratio_scale(a, p, q);
    lemma_ratio_scale(b, q, p);
    assert(q * p == p * q) by (nonlinear_arith);
    lemma_ratio_add(a * q, b * p, p * q);
}

/// A product lies within the product of bounds on its factors.
pub proof fn lemma_product_bound(a: int, b: int, ma: int, mb: int)
    requires
        -ma <= a <= ma,
        -mb <= b <= mb,
    ensures
        -(ma * mb) <= a * b <= ma * mb,
{
    assert(-(ma * mb) <= a * b <= ma * mb) by (nonlinear_arith)
        requires
            -ma <= a <= ma,
            -mb <= b <= mb,
    ;
}

/// A fraction with a positive denominator has the sign of its numerator.
pub proof fn lemma_ratio_sign(n: int, d: int)
    requires
        d > 0,
    ensures
        ratio(n, d) > 0real <==> n > 0,
        ratio(n, d) == 0real <==> n == 0,
        ratio(n, d) < 0real <==> n < 0,
{
    let x = n as real;
    let y = d as real;
    assert((x / y > 0real <==> x > 0real) && (x / y == 0real <==> x == 0real) && (x / y < 0real
        <==> x < 0real)) by (nonlinear_arith)
        requires
            y > 0real,
    ;
}

/// Rounding a non-negative fraction down is integer division.
pub proof fn lemma_ratio_floor(n: int, d: int)
    requires
        n >= 0,
        d > 0,
    ensures
        ratio(n, d).floor() == n / d,
{
    let q = n / d;
    let r = n % d;
    assert(n == q * d + r && 0 <= r < d) by (nonlinear_arith)
        requires
            q == n / d,
            r == n % d,
            d > 0,
    ;
    let x = n as real / d as real;
    assert(q as real <= x < (q + 1) as real) by (nonlinear_arith)
        requires
            n == q * d + r,
            0 <= r < d,
            d > 0,
            x == n as real / d as real,
    ;
}

} // verus!
