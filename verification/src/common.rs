//! Homogeneous vectors and matrices with rational components: four integer
//! numerators over one shared positive denominator.

use vstd::prelude::*;
use crate::algebra::{Matrix, Vector};
use crate::scalar::{
    larger, lemma_product_bound, lemma_ratio_add, lemma_ratio_cross, lemma_ratio_mul,
    magnitude_exec, magnitude_of, ratio, Scalar,
};

verus! {

/// Four integers: the numerators of a vector, or of one row of a matrix.
#[derive(Clone, Copy, Debug, PartialEq, Eq)]
pub struct Int4 {
    pub x: i64,
    pub y: i64,
    pub z: i64,
    pub w: i64,
}

impl Int4 {
    /// The real vector with these numerators over the denominator `den`.
    pub open spec fn over(self, den: int) -> Vector {
        Vector {
            x: ratio(self.x as int, den),
            y: ratio(self.y as int, den),
            z: ratio(self.z as int, den),
            w: ratio(self.w as int, den),
        }
    }

    /// The largest absolute value among the four integers.
    pub open spec fn magnitude(self) -> nat {
        larger(
            larger(magnitude_of(self.x as int), magnitude_of(self.y as int)),
            larger(magnitude_of(self.z as int), magnitude_of(self.w as int)),
        )
    }

    /// The integer dot product over all four components.
    pub open spec fn dot(self, other: Int4) -> int {
        self.x * other.x + self.y * other.y + self.z * other.z + self.w * other.w
    }

    /// The integer dot product, computed.
    pub fn dot_exec(&self, other: &Int4) -> (d: i64)
        requires
            4 * (self.magnitude() * other.magnitude()) <= i64::MAX,
        ensures
            d == self.dot(*other),
            magnitude_of(d as int) <= 4 * (self.magnitude() * other.magnitude()),
    {
        proof {
            let ma = self.magnitude() as int;
            let mb = other.magnitude() as int;
            lemma_product_bound(self.x as int, other.x as int, ma, mb);
            lemma_product_bound(self.y as int, other.y as int, ma, mb);
            lemma_product_bound(self.z as int, other.z as int, ma, mb);
            lemma_product_bound(self.w as int, other.w as int, ma, mb);
        }
        self.x * other.x + self.y * other.y + self.z * other.z + self.w * other.w
    }
}

/// The dot product of two rational vectors is the integer dot product of
/// their numerators over the product of their denominators.
pub proof fn lemma_dot_over(a: Int4, da: int, b: Int4, db: int)
    requires
        da > 0,
        db > 0,
    ensures
        a.over(da).dot(b.over(db)) == ratio(a.dot(b), da * db),
        da * db > 0,
{
    let d = da * db;
    lemma_ratio_mul(a.x as int, da, b.x as int, db);
    lemma_ratio_mul(a.y as int, da, b.y as int, db);
    lemma_ratio_mul(a.z as int, da, b.z as int, db);
    lemma_ratio_mul(a.w as int, da, b.w as int, db);
    lemma_ratio_add(a.x * b.x, a.y * b.y, d);
    lemma_ratio_add(a.x * b.x + a.y * b.y, a.z * b.z, d);
    lemma_ratio_add(a.x * b.x + a.y * b.y + a.z * b.z, a.w * b.w, d);
}

/// A homogeneous 4-vector of rationals over one shared denominator, read as
/// `(x, y, z, w)` or as `(r, g, b, a)`.
#[allow(non_camel_case_types)]
#[derive(Clone, Copy, Debug, PartialEq, Eq)]
pub struct vec4 {
    pub data: Int4,
    pub den: i64,
}

impl View for vec4 {
    type V = Vector;

    open spec fn view(&self) -> Vector {
        self.data.over(self.den as int)
    }
}

impl vec4 {
    /// The denominator is positive.
    pub open spec fn wf(&self) -> bool {
        self.den > 0
    }

    /// The largest absolute value among the numerators and the denominator.
    pub open spec fn magnitude(&self) -> nat {
        larger(self.data.magnitude(), magnitude_of(self.den as int))
    }

    /// The magnitude, computed.
    pub fn magnitude_exec(&self) -> (m: u64)
        ensures
            m == self.magnitude(),
    {
        let mut m: u64 = magnitude_exec(self.data.x);
        let y: u64 = magnitude_exec(self.data.y);
        let z: u64 = magnitude_exec(self.data.z);
        let w: u64 = magnitude_exec(self.data.w);
        let d: u64 = magnitude_exec(self.den);
        if y > m {
            m = y;
        }
        if z > m {
            m = z;
        }
        if w > m {
            m = w;
        }
        if d > m {
            m = d;
        }
        m
    }

    /// The vector `(x, y, z, w) / den`, or `None` when `den` is not positive.
    pub fn new(x: i64, y: i64, z: i64, w: i64, den: i64) -> (v: Option<vec4>)
        ensures
            den > 0 ==> v == Some(vec4 { data: Int4 { x, y, z, w }, den }),
            den <= 0 ==> v is None,
    {
        if den > 0 {
            Some(vec4 { data: Int4 { x, y, z, w }, den })
        } else {
            None
        }
    }

    /// The first component.
    pub fn x(&self) -> (s: Scalar)
        ensures
            s == (Scalar { num: self.data.x, den: self.den }),
            s.value() == self@.x,
    {
        Scalar { num: self.data.x, den: self.den }
    }

    /// The second component.
    pub fn y(&self) -> (s: Scalar)
        ensures
            s == (Scalar { num: self.data.y, den: self.den }),
            s.value() == self@.y,
    {
        Scalar { num: self.data.y, den: self.den }
    }

    /// The third component.
    pub fn z(&self) -> (s: Scalar)
        ensures
            s == (Scalar { num: self.data.z, den: self.den }),
            s.value() == self@.z,
    {
        Scalar { num: self.data.z, den: self.den }
    }

    /// The fourth component: one for a point, zero for a direction.
    pub fn w(&self) -> (s: Scalar)
        ensures
            s == (Scalar { num: self.data.w, den: self.den }),
            s.value() == self@.w,
    {
        Scalar { num: self.data.w, den: self.den }
    }

    /// The first component, read as red.
    pub fn r(&self) -> (s: Scalar)
        ensures
            s == (Scalar { num: self.data.x, den: self.den }),
            s.value() == self@.x,
    {
        Scalar { num: self.data.x, den: self.den }
    }

    /// The second component, read as green.
    pub fn g(&self) -> (s: Scalar)
        ensures
            s == (Scalar { num: self.data.y, den: self.den }),
            s.value() == self@.y,
    {
        Scalar { num: self.data.y, den: self.den }
    }

    /// The third component, read as blue.
    pub fn b(&self) -> (s: Scalar)
        ensures
            s == (Scalar { num: self.data.z, den: self.den }),
            s.value() == self@.z,
    {
        Scalar { num: self.data.z, den: self.den }
    }

    /// The fourth component, read as alpha.
    pub fn a(&self) -> (s: Scalar)
        ensures
            s == (Scalar { num: self.data.w, den: self.den }),
            s.value() == self@.w,
    {
        Scalar { num: self.data.w, den: self.den }
    }

    /// The sum `self + other`, over the product of the two denominators.
    pub fn plus(&self, other: &vec4) -> (v: vec4)
        requires
            self.wf(),
            other.wf(),
            2 * (self.magnitude() * other.magnitude()) <= i64::MAX,
        ensures
            v.wf(),
            v@ == self@.plus(other@),
            v.den == self.den * other.den,
            v.data.x == self.data.x * other.den + other.data.x * self.den,
            v.data.y == self.data.y * other.den + other.data.y * self.den,
            v.data.z == self.data.z * other.den + other.data.z * self.den,
            v.data.w == self.data.w * other.den + other.data.w * self.den,
            v.magnitude() <= 2 * (self.magnitude() * other.magnitude()),
    {
        let ghost ma = self.magnitude();
        let ghost mb = other.magnitude();
        let p: i64 = self.den;
        let q: i64 = other.den;
        proof {
            lemma_product_bound(self.data.x as int, q as int, ma as int, mb as int);
            lemma_product_bound(self.data.y as int, q as int, ma as int, mb as int);
            lemma_product_bound(self.data.z as int, q as int, ma as int, mb as int);
            lemma_product_bound(self.data.w as int, q as int, ma as int, mb as int);
            lemma_product_bound(p as int, other.data.x as int, ma as int, mb as int);
            lemma_product_bound(p as int, other.data.y as int, ma as int, mb as int);
            lemma_product_bound(p as int, other.data.z as int, ma as int, mb as int);
            lemma_product_bound(p as int, other.data.w as int, ma as int, mb as int);
            lemma_product_bound(p as int, q as int, ma as int, mb as int);
            lemma_ratio_cross(self.data.x as int, p as int, other.data.x as int, q as int);
            lemma_ratio_cross(self.data.y as int, p as int, other.data.y as int, q as int);
            lemma_ratio_cross(self.data.z as int, p as int, other.data.z as int, q as int);
            lemma_ratio_cross(self.data.w as int, p as int, other.data.w as int, q as int);
        }
        vec4 {
            data: Int4 {
                x: self.data.x * q + other.data.x * p,
                y: self.data.y * q + other.data.y * p,
                z: self.data.z * q + other.data.z * p,
                w: self.data.w * q + other.data.w * p,
            },
            den: p * q,
        }
    }

    /// The vector `t * self`, over the product of the two denominators.
    pub fn scaled(&self, t: &Scalar) -> (v: vec4)
        requires
            self.wf(),
            t.wf(),
            self.magnitude() * t.magnitude() <= i64::MAX,
        ensures
            v.wf(),
            v@ == self@.scaled(t.value()),
            v.den == t.den * self.den,
            v.data.x == t.num * self.data.x,
            v.data.y == t.num * self.data.y,
            v.data.z == t.num * self.data.z,
            v.data.w == t.num * self.data.w,
            v.magnitude() <= self.magnitude() * t.magnitude(),
    {
        let ghost ma = self.magnitude();
        let ghost mt = t.magnitude();
        proof {
            lemma_product_bound(t.num as int, self.data.x as int, mt as int, ma as int);
            lemma_product_bound(t.num as int, self.data.y as int, mt as int, ma as int);
            lemma_product_bound(t.num as int, self.data.z as int, mt as int, ma as int);
            lemma_product_bound(t.num as int, self.data.w as int, mt as int, ma as int);
            lemma_product_bound(t.den as int, self.den as int, mt as int, ma as int);
            assert(mt * ma == ma * mt) by (nonlinear_arith);
            lemma_ratio_mul(t.num as int, t.den as int, self.data.x as int, self.den as int);
            lemma_ratio_mul(t.num as int, t.den as int, self.data.y as int, self.den as int);
            lemma_ratio_mul(t.num as int, t.den as int, self.data.z as int, self.den as int);
            lemma_ratio_mul(t.num as int, t.den as int, self.data.w as int, self.den as int);
        }
        vec4 {
            data: Int4 {
                x: t.num * self.data.x,
                y: t.num * self.data.y,
                z: t.num * self.data.z,
                w: t.num * self.data.w,
            },
            den: t.den * self.den,
        }
    }

    /// The difference `self - other`, over the product of the two denominators.
    pub fn minus(&self, other: &vec4) -> (v: vec4)
        requires
            self.wf(),
            other.wf(),
            2 * (self.magnitude() * other.magnitude()) <= i64::MAX,
        ensures
            v.wf(),
            v@ == self@.minus(other@),
            v.den == self.den * other.den,
            v.data.x == self.data.x * other.den - other.data.x * self.den,
            v.data.y == self.data.y * other.den - other.data.y * self.den,
            v.data.z == self.data.z * other.den - other.data.z * self.den,
            v.data.w == self.data.w * other.den - other.data.w * self.den,
            v.magnitude() <= 2 * (self.magnitude() * other.magnitude()),
    {
        let ghost ma = self.magnitude();
        let ghost mb = other.magnitude();
        let p: i64 = self.den;
        let q: i64 = other.den;
        proof {
            lemma_product_bound(self.data.x as int, q as int, ma as int, mb as int);
            lemma_product_bound(self.data.y as int, q as int, ma as int, mb as int);
            lemma_product_bound(self.data.z as int, q as int, ma as int, mb as int);
            lemma_product_bound(self.data.w as int, q as int, ma as int, mb as int);
            lemma_product_bound(p as int, other.data.x as int, ma as int, mb as int);
            lemma_product_bound(p as int, other.data.y as int, ma as int, mb as int);
            lemma_product_bound(p as int, other.data.z as int, ma as int, mb as int);
            lemma_product_bound(p as int, other.data.w as int, ma as int, mb as int);
            lemma_product_bound(p as int, q as int, ma as int, mb as int);
            lemma_ratio_cross(self.data.x as int, p as int, other.data.x as int, q as int);
            lemma_ratio_cross(self.data.y as int, p as int, other.data.y as int, q as int);
            lemma_ratio_cross(self.data.z as int, p as int, other.data.z as int, q as int);
            lemma_ratio_cross(self.data.w as int, p as int, other.data.w as int, q as int);
        }
        vec4 {
            data: Int4 {
                x: self.data.x * q - other.data.x * p,
                y: self.data.y * q - other.data.y * p,
                z: self.data.z * q - other.data.z * p,
                w: self.data.w * q - other.data.w * p,
            },
            den: p * q,
        }
    }
}

/// A 4x4 matrix of rationals over one shared denominator, held by rows.
#[derive(Clone, Copy, Debug, PartialEq, Eq)]
pub struct Mat4 {
    pub r0: Int4,
    pub r1: Int4,
    pub r2: Int4,
    pub r3: Int4,
    pub den: i64,
}

impl View for Mat4 {
    type V = Matrix;

    open spec fn view(&self) -> Matrix {
        Matrix {
            r0: self.r0.over(self.den as int),
            r1: self.r1.over(self.den as int),
            r2: self.r2.over(self.den as int),
            r3: self.r3.over(self.den as int),
        }
    }
}

impl Mat4 {
    /// The denominator is positive.
    pub open spec fn wf(&self) -> bool {
        self.den > 0
    }

    /// The largest absolute value among the numerators and the denominator.
    pub open spec fn magnitude(&self) -> nat {
        larger(
            larger(
                larger(self.r0.magnitude(), self.r1.magnitude()),
                larger(self.r2.magnitude(), self.r3.magnitude()),
            ),
            magnitude_of(self.den as int),
        )
    }

    /// The numerators of the first column.
    pub open spec fn c0(&self) -> Int4 {
        Int4 { x: self.r0.x, y: self.r1.x, z: self.r2.x, w: self.r3.x }
    }

    /// The numerators of the second column.
    pub open spec fn c1(&self) -> Int4 {
        Int4 { x: self.r0.y, y: self.r1.y, z: self.r2.y, w: self.r3.y }
    }

    /// The numerators of the third column.
    pub open spec fn c2(&self) -> Int4 {
        Int4 { x: self.r0.z, y: self.r1.z, z: self.r2.z, w: self.r3.z }
    }

    /// The numerators of the fourth column.
    pub open spec fn c3(&self) -> Int4 {
        Int4 { x: self.r0.w, y: self.r1.w, z: self.r2.w, w: self.r3.w }
    }

    /// The matrix-vector product `self * v`, over the product of the two
    /// denominators.
    pub fn apply(&self, v: &vec4) -> (p: vec4)
        requires
            self.wf(),
            v.wf(),
            4 * (self.magnitude() * v.magnitude()) <= i64::MAX,
        ensures
            p.wf(),
            p@ == self@.apply(v@),
            p.den == self.den * v.den,
            p.data.x == self.r0.dot(v.data),
            p.data.y == self.r1.dot(v.data),
            p.data.z == self.r2.dot(v.data),
            p.data.w == self.r3.dot(v.data),
    {
        let ghost ma = self.magnitude();
        let ghost mb = v.magnitude();
        proof {
            lemma_bound_grows(self.r0.magnitude(), v.data.magnitude(), ma, mb);
            lemma_bound_grows(self.r1.magnitude(), v.data.magnitude(), ma, mb);
            lemma_bound_grows(self.r2.magnitude(), v.data.magnitude(), ma, mb);
            lemma_bound_grows(self.r3.magnitude(), v.data.magnitude(), ma, mb);
            lemma_product_bound(self.den as int, v.den as int, ma as int, mb as int);
            lemma_dot_over(self.r0, self.den as int, v.data, v.den as int);
            lemma_dot_over(self.r1, self.den as int, v.data, v.den as int);
            lemma_dot_over(self.r2, self.den as int, v.data, v.den as int);
            lemma_dot_over(self.r3, self.den as int, v.data, v.den as int);
        }
        vec4 {
            data: Int4 {
                x: self.r0.dot_exec(&v.data),
                y: self.r1.dot_exec(&v.data),
                z: self.r2.dot_exec(&v.data),
                w: self.r3.dot_exec(&v.data),
            },
            den: self.den * v.den,
        }
    }

    /// `p` holds the dot products of the row `r` with the columns of `other`.
    pub open spec fn is_row_product(p: Int4, r: Int4, other: Mat4) -> bool {
        &&& p.x == r.dot(other.c0())
        &&& p.y == r.dot(other.c1())
        &&& p.z == r.dot(other.c2())
        &&& p.w == r.dot(other.c3())
    }

    /// The row `r` of the left factor multiplied into the columns of `other`.
    fn row_times(r: &Int4, other: &Mat4) -> (p: Int4)
        requires
            4 * (r.magnitude() * other.magnitude()) <= i64::MAX,
        ensures
            Self::is_row_product(p, *r, *other),
    {
        let c0 = Int4 { x: other.r0.x, y: other.r1.x, z: other.r2.x, w: other.r3.x };
        let c1 = Int4 { x: other.r0.y, y: other.r1.y, z: other.r2.y, w: other.r3.y };
        let c2 = Int4 { x: other.r0.z, y: other.r1.z, z: other.r2.z, w: other.r3.z };
        let c3 = Int4 { x: other.r0.w, y: other.r1.w, z: other.r2.w, w: other.r3.w };
        proof {
            let m = r.magnitude();
            let mo = other.magnitude();
            lemma_bound_grows(m, c0.magnitude(), m, mo);
            lemma_bound_grows(m, c1.magnitude(), m, mo);
            lemma_bound_grows(m, c2.magnitude(), m, mo);
            lemma_bound_grows(m, c3.magnitude(), m, mo);
        }
        Int4 { x: r.dot_exec(&c0), y: r.dot_exec(&c1), z: r.dot_exec(&c2), w: r.dot_exec(&c3) }
    }

    /// The matrix product `self * other`, over the product of the two
    /// denominators.
    pub fn times(&self, other: &Mat4) -> (p: Mat4)
        requires
            self.wf(),
            other.wf(),
            4 * (self.magnitude() * other.magnitude()) <= i64::MAX,
        ensures
            p.wf(),
            p@ == self@.times(other@),
            p.den == self.den * other.den,
            Self::is_row_product(p.r0, self.r0, *other),
            Self::is_row_product(p.r1, self.r1, *other),
            Self::is_row_product(p.r2, self.r2, *other),
            Self::is_row_product(p.r3, self.r3, *other),
    {
        let ghost ma = self.magnitude();
        let ghost mb = other.magnitude();
        proof {
            lemma_bound_grows(self.r0.magnitude(), mb, ma, mb);
            lemma_bound_grows(self.r1.magnitude(), mb, ma, mb);
            lemma_bound_grows(self.r2.magnitude(), mb, ma, mb);
            lemma_bound_grows(self.r3.magnitude(), mb, ma, mb);
            lemma_product_bound(self.den as int, other.den as int, ma as int, mb as int);
            lemma_row_times_over(self.r0, self.den as int, *other);
            lemma_row_times_over(self.r1, self.den as int, *other);
            lemma_row_times_over(self.r2, self.den as int, *other);
            lemma_row_times_over(self.r3, self.den as int, *other);
        }
        Mat4 {
            r0: Self::row_times(&self.r0, other),
            r1: Self::row_times(&self.r1, other),
            r2: Self::row_times(&self.r2, other),
            r3: Self::row_times(&self.r3, other),
            den: self.den * other.den,
        }
    }
}

/// A product of bounds grows with either bound.
pub proof fn lemma_bound_grows(a: nat, b: nat, ma: nat, mb: nat)
    requires
        a <= ma,
        b <= mb,
    ensures
        a * b <= ma * mb,
{
    assert(a * b <= ma * mb) by (nonlinear_arith)
        requires
            a <= ma,
            b <= mb,
    ;
}

/// One row of a rational matrix product, by numerators.
proof fn lemma_row_times_over(r: Int4, d: int, other: Mat4)
    requires
        d > 0,
        other.wf(),
    ensures
        Matrix::row_times(r.over(d), other@) == (Vector {
            x: ratio(r.dot(other.c0()), d * other.den),
            y: ratio(r.dot(other.c1()), d * other.den),
            z: ratio(r.dot(other.c2()), d * other.den),
            w: ratio(r.dot(other.c3()), d * other.den),
        }),
        d * other.den > 0,
{
    let e = other.den as int;
    assert(other@.c0() == other.c0().over(e));
    assert(other@.c1() == other.c1().over(e));
    assert(other@.c2() == other.c2().over(e));
    assert(other@.c3() == other.c3().over(e));
    lemma_dot_over(r, d, other.c0(), e);
    lemma_dot_over(r, d, other.c1(), e);
    lemma_dot_over(r, d, other.c2(), e);
    lemma_dot_over(r, d, other.c3(), e);
}

} // verus!
