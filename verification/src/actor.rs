//! What can be drawn: the sphere and its intersection test.

use vstd::prelude::*;
use crate::algebra::Vector;
use crate::common::vec4;
use crate::ray::Ray;
use crate::scalar::{
    lemma_ratio_cross, lemma_product_bound, lemma_ratio_add, lemma_ratio_mul,
    lemma_ratio_scale, lemma_ratio_sign, ratio, Scalar,
};

verus! {

/// An 8-bit colour with an alpha channel.
#[derive(Clone, Copy, Debug, PartialEq, Eq, Structural)]
pub struct Rgba8 {
    pub r: u8,
    pub g: u8,
    pub b: u8,
    pub a: u8,
}

impl Rgba8 {
    /// The four channels in the order red, green, blue, alpha.
    pub open spec fn channels(self) -> (u8, u8, u8, u8) {
        (self.r, self.g, self.b, self.a)
    }
}

/// The discriminant `b^2 - 4ac` of the quadratic in the ray parameter whose
/// roots are the points where the line through `origin` along `direction`
/// meets the sphere. Dot products run over `x`, `y` and `z` only.
pub open spec fn discriminant(center: Vector, radius: real, origin: Vector, direction: Vector)
    -> real {
    let oc = origin.minus(center);
    let a = direction.dot3(direction);
    let b = 2real * oc.dot3(direction);
    let c = oc.dot3(oc) - radius * radius;
    b * b - 4real * a * c
}

/// The largest product of the four magnitudes for which `is_hit` computes
/// within 128 bits: two to the power sixty.
pub const HIT_LIMIT: u64 = 0x1000_0000_0000_0000;

/// Something a ray can be tested against.
pub trait Renderable {
    /// The inputs on which `render` may be called.
    spec fn accepts(&self, ray: &Ray) -> bool;

    /// The colour that `render` returns.
    spec fn rendered(&self, ray: &Ray) -> Rgba8;

    /// The colour that `ray` sees of this object; transparent black where it
    /// sees nothing.
    fn render(&self, ray: &Ray) -> (color: Rgba8)
        requires
            self.accepts(ray),
        ensures
            color == self.rendered(ray),
    ;
}

/// A sphere of one flat colour.
#[derive(Clone, Copy, Debug, PartialEq, Eq)]
pub struct Sphere {
    pub center: vec4,
    pub radius: Scalar,
    pub color: Rgba8,
}

impl Sphere {
    /// The centre and the radius have positive denominators.
    pub open spec fn wf(&self) -> bool {
        self.center.wf() && self.radius.wf()
    }

    /// The line of `ray` crosses the sphere's surface in two points. A line
    /// that only touches the sphere does not count.
    pub open spec fn hit_by(&self, ray: &Ray) -> bool {
        discriminant(self.center@, self.radius.value(), ray.origin@, ray.direction@) > 0real
    }

    /// An integer with the sign of the discriminant: the discriminant times
    /// the squares of the denominators, divided by four.
    pub open spec fn hit_numerator(&self, ray: &Ray) -> int {
        let q = ray.origin.den * self.center.den;
        let ocx = ray.origin.data.x * self.center.den - self.center.data.x * ray.origin.den;
        let ocy = ray.origin.data.y * self.center.den - self.center.data.y * ray.origin.den;
        let ocz = ray.origin.data.z * self.center.den - self.center.data.z * ray.origin.den;
        let d = ray.direction.data;
        let rn = self.radius.num as int;
        let rd = self.radius.den as int;
        let p = ocx * d.x + ocy * d.y + ocz * d.z;
        let a = d.x * d.x + d.y * d.y + d.z * d.z;
        let c = (ocx * rd) * (ocx * rd) + (ocy * rd) * (ocy * rd) + (ocz * rd) * (ocz * rd) - (rn
            * q) * (rn * q);
        (p * rd) * (p * rd) - a * c
    }

    /// The magnitudes of the sphere and the ray are small enough for the
    /// intersection test to be computed in 128-bit integers.
    pub open spec fn in_range(&self, ray: &Ray) -> bool {
        (ray.origin.magnitude() * self.center.magnitude()) * (ray.direction.magnitude()
            * self.radius.magnitude()) <= HIT_LIMIT
    }

    /// Whether `is_hit` can test `ray` against this sphere.
    pub fn in_range_exec(&self, ray: &Ray) -> (ok: bool)
        ensures
            ok == self.in_range(ray),
    {
        let mo: u128 = ray.origin.magnitude_exec() as u128;
        let mc: u128 = self.center.magnitude_exec() as u128;
        let md: u128 = ray.direction.magnitude_exec() as u128;
        let mr: u128 = self.radius.magnitude_exec() as u128;
        proof {
            lemma_product_bound(
                mo as int,
                mc as int,
                0x8000_0000_0000_0000,
                0x8000_0000_0000_0000,
            );
            lemma_product_bound(
                md as int,
                mr as int,
                0x8000_0000_0000_0000,
                0x8000_0000_0000_0000,
            );
        }
        let near: u128 = mo * mc;
        let far: u128 = md * mr;
        if near > HIT_LIMIT as u128 || far > HIT_LIMIT as u128 {
            proof {
                lemma_large_factor(near as int, far as int, HIT_LIMIT as int);
            }
            return near == 0 || far == 0;
        }
        proof {
            lemma_product_bound(
                near as int,
                far as int,
                0x1000_0000_0000_0000,
                0x1000_0000_0000_0000,
            );
        }
        near * far <= HIT_LIMIT as u128
    }

    /// Whether `ray` hits the sphere: whether the line through the ray's
    /// origin along its direction crosses the sphere's surface.
    pub fn is_hit(&self, ray: &Ray) -> (hit: bool)
        requires
            self.wf(),
            ray.wf(),
            self.in_range(ray),
        ensures
            hit == self.hit_by(ray),
    {
        let ghost mo = ray.origin.magnitude() as int;
        let ghost mc = self.center.magnitude() as int;
        let ghost md = ray.direction.magnitude() as int;
        let ghost mr = self.radius.magnitude() as int;
        proof {
            lemma_hit_bounds(mo, mc, md, mr);
        }
        let od: i128 = ray.origin.den as i128;
        let cd: i128 = self.center.den as i128;
        let rn: i128 = self.radius.num as i128;
        let rd: i128 = self.radius.den as i128;
        let ox: i128 = ray.origin.data.x as i128;
        let oy: i128 = ray.origin.data.y as i128;
        let oz: i128 = ray.origin.data.z as i128;
        let cx: i128 = self.center.data.x as i128;
        let cy: i128 = self.center.data.y as i128;
        let cz: i128 = self.center.data.z as i128;
        let dx: i128 = ray.direction.data.x as i128;
        let dy: i128 = ray.direction.data.y as i128;
        let dz: i128 = ray.direction.data.z as i128;

        proof {
            lemma_product_bound(od as int, cd as int, mo, mc);
            lemma_product_bound(ox as int, cd as int, mo, mc);
            lemma_product_bound(oy as int, cd as int, mo, mc);
            lemma_product_bound(oz as int, cd as int, mo, mc);
            lemma_product_bound(od as int, cx as int, mo, mc);
            lemma_product_bound(od as int, cy as int, mo, mc);
            lemma_product_bound(od as int, cz as int, mo, mc);
        }
        let q: i128 = od * cd;
        let ocx: i128 = ox * cd - cx * od;
        let ocy: i128 = oy * cd - cy * od;
        let ocz: i128 = oz * cd - cz * od;

        proof {
            lemma_product_bound(ocx as int, dx as int, 2 * (mo * mc), md);
            lemma_product_bound(ocy as int, dy as int, 2 * (mo * mc), md);
            lemma_product_bound(ocz as int, dz as int, 2 * (mo * mc), md);
            lemma_product_bound(dx as int, dx as int, md, md);
            lemma_product_bound(dy as int, dy as int, md, md);
            lemma_product_bound(dz as int, dz as int, md, md);
            lemma_product_bound(ocx as int, rd as int, 2 * (mo * mc), mr);
            lemma_product_bound(ocy as int, rd as int, 2 * (mo * mc), mr);
            lemma_product_bound(ocz as int, rd as int, 2 * (mo * mc), mr);
            lemma_product_bound(rn as int, q as int, mr, mo * mc);
        }
        let p: i128 = ocx * dx + ocy * dy + ocz * dz;
        let a: i128 = dx * dx + dy * dy + dz * dz;
        let sx: i128 = ocx * rd;
        let sy: i128 = ocy * rd;
        let sz: i128 = ocz * rd;
        let g: i128 = rn * q;

        proof {
            lemma_product_bound(sx as int, sx as int, 2 * (mo * mc) * mr, 2 * (mo * mc) * mr);
            lemma_product_bound(sy as int, sy as int, 2 * (mo * mc) * mr, 2 * (mo * mc) * mr);
            lemma_product_bound(sz as int, sz as int, 2 * (mo * mc) * mr, 2 * (mo * mc) * mr);
            lemma_product_bound(g as int, g as int, mr * (mo * mc), mr * (mo * mc));
            lemma_product_bound(p as int, rd as int, 3 * (2 * (mo * mc) * md), mr);
        }
        let c: i128 = sx * sx + sy * sy + sz * sz - g * g;
        let pr: i128 = p * rd;

        proof {
            lemma_product_bound(
                pr as int,
                pr as int,
                3 * (2 * (mo * mc) * md) * mr,
                3 * (2 * (mo * mc) * md) * mr,
            );
            lemma_product_bound(
                a as int,
                c as int,
                3 * (md * md),
                3 * ((2 * (mo * mc) * mr) * (2 * (mo * mc) * mr)) + (mr * (mo * mc)) * (mr * (mo
                    * mc)),
            );
        }
        proof {
            lemma_hit_by_numerators(*self, *ray);
        }
        pr * pr > a * c
    }
}

impl Renderable for Sphere {
    open spec fn accepts(&self, ray: &Ray) -> bool {
        self.wf() && ray.wf() && self.in_range(ray)
    }

    open spec fn rendered(&self, ray: &Ray) -> Rgba8 {
        if self.hit_by(ray) {
            self.color
        } else {
            Rgba8 { r: 0, g: 0, b: 0, a: 0 }
        }
    }

    fn render(&self, ray: &Ray) -> (color: Rgba8) {
        if self.is_hit(ray) {
            return self.color;
        }
        Rgba8 { r: 0, g: 0, b: 0, a: 0 }
    }
}

/// A product with a factor above the limit is above the limit, unless the
/// other factor is zero.
proof fn lemma_large_factor(a: int, b: int, limit: int)
    requires
        0 <= a,
        0 <= b,
        0 <= limit,
        a > limit || b > limit,
    ensures
        a * b <= limit <==> a == 0 || b == 0,
{
    assert(a * b <= limit <==> a == 0 || b == 0) by (nonlinear_arith)
        requires
            0 <= a,
            0 <= b,
            0 <= limit,
            a > limit || b > limit,
    ;
}

/// With the product of the four magnitudes at most two to the sixty, every
/// intermediate value of the intersection test fits 128 bits.
proof fn lemma_hit_bounds(mo: int, mc: int, md: int, mr: int)
    requires
        1 <= mo,
        1 <= mc,
        1 <= md,
        1 <= mr,
        (mo * mc) * (md * mr) <= HIT_LIMIT,
    ensures
        2 * (mo * mc) <= 2 * HIT_LIMIT,
        md <= HIT_LIMIT,
        mr <= HIT_LIMIT,
        md * md <= HIT_LIMIT * HIT_LIMIT,
        2 * (mo * mc) * md <= 2 * HIT_LIMIT,
        2 * (mo * mc) * mr <= 2 * HIT_LIMIT,
        mr * (mo * mc) <= HIT_LIMIT,
        3 * (2 * (mo * mc) * md) * mr <= 6 * HIT_LIMIT,
        (3 * (2 * (mo * mc) * md) * mr) * (3 * (2 * (mo * mc) * md) * mr) <= 36 * (HIT_LIMIT
            * HIT_LIMIT),
        (2 * (mo * mc) * mr) * (2 * (mo * mc) * mr) <= 4 * (HIT_LIMIT * HIT_LIMIT),
        (mr * (mo * mc)) * (mr * (mo * mc)) <= HIT_LIMIT * HIT_LIMIT,
        (3 * (md * md)) * (3 * ((2 * (mo * mc) * mr) * (2 * (mo * mc) * mr)) + (mr * (mo * mc)) * (
        mr * (mo * mc))) <= 39 * (HIT_LIMIT * HIT_LIMIT),
        HIT_LIMIT * HIT_LIMIT == 0x100_0000_0000_0000_0000_0000_0000_0000,
{
    let u = mo * mc;
    let k = u * (md * mr);
    let l = HIT_LIMIT as int;
    assert(1 <= u) by (nonlinear_arith)
        requires
            1 <= mo,
            1 <= mc,
            u == mo * mc,
    ;
    assert(u <= k && md <= k && mr <= k && u * md <= k && u * mr <= k && u * md * mr == k && mr * u
        <= k) by (nonlinear_arith)
        requires
            1 <= u,
            1 <= md,
            1 <= mr,
            k == u * (md * mr),
    ;
    assert((2 * u) * md == 2 * (u * md) && (2 * u) * mr == 2 * (u * mr)) by (nonlinear_arith);
    assert(md * md <= l * l) by (nonlinear_arith)
        requires
            0 <= md <= l,
    ;
    assert((6 * k) * (6 * k) <= 36 * (l * l) && (2 * (u * mr)) * (2 * (u * mr)) <= 4 * (l * l) && (
    mr * u) * (mr * u) <= l * l) by (nonlinear_arith)
        requires
            0 <= k <= l,
            0 <= u * mr <= l,
            0 <= mr * u <= l,
    ;
    assert(3 * (2 * u * md) * mr == 6 * k && 2 * u * mr == 2 * (u * mr)) by (nonlinear_arith)
        requires
            k == u * (md * mr),
    ;
    assert((3 * (md * md)) * (3 * ((2 * u * mr) * (2 * u * mr)) + (mr * u) * (mr * u)) == 39 * (k
        * k)) by (nonlinear_arith)
        requires
            k == u * (md * mr),
    ;
    assert(k * k <= l * l) by (nonlinear_arith)
        requires
            0 <= k <= l,
    ;
    assert(l * l == 0x100_0000_0000_0000_0000_0000_0000_0000) by (nonlinear_arith)
        requires
            l == 0x1000_0000_0000_0000,
    ;
}

/// The square of a product is the product of the squares.
proof fn lemma_square_of_product(a: int, b: int)
    ensures
        (a * b) * (a * b) == (a * a) * (b * b),
{
    assert((a * b) * (a * b) == (a * a) * (b * b)) by (nonlinear_arith);
}

/// The sum of three products of fractions, over the product of the two
/// denominators.
proof fn lemma_dot3_ratio(
    a1: int,
    a2: int,
    a3: int,
    da: int,
    b1: int,
    b2: int,
    b3: int,
    db: int,
)
    requires
        da > 0,
        db > 0,
    ensures
        ratio(a1, da) * ratio(b1, db) + ratio(a2, da) * ratio(b2, db) + ratio(a3, da) * ratio(
            b3,
            db,
        ) == ratio(a1 * b1 + a2 * b2 + a3 * b3, da * db),
        da * db > 0,
{
    let d = da * db;
    lemma_ratio_mul(a1, da, b1, db);
    lemma_ratio_mul(a2, da, b2, db);
    lemma_ratio_mul(a3, da, b3, db);
    lemma_ratio_add(a1 * b1, a2 * b2, d);
    lemma_ratio_add(a1 * b1 + a2 * b2, a3 * b3, d);
}

/// Whether a ray hits is the sign of an integer computed from numerators
/// and denominators.
pub proof fn lemma_hit_by_numerators(sphere: Sphere, ray: Ray)
    requires
        sphere.wf(),
        ray.wf(),
    ensures
        sphere.hit_by(&ray) <==> sphere.hit_numerator(&ray) > 0,
{
    lemma_discriminant_sign(
        sphere.center.data.x as int,
        sphere.center.data.y as int,
        sphere.center.data.z as int,
        sphere.center.data.w as int,
        sphere.center.den as int,
        sphere.radius.num as int,
        sphere.radius.den as int,
        ray.origin.data.x as int,
        ray.origin.data.y as int,
        ray.origin.data.z as int,
        ray.origin.data.w as int,
        ray.origin.den as int,
        ray.direction.data.x as int,
        ray.direction.data.y as int,
        ray.direction.data.z as int,
        ray.direction.data.w as int,
        ray.direction.den as int,
    );
}

/// The discriminant of a rational sphere and ray has the sign of an integer
/// computed from their numerators and denominators.
proof fn lemma_discriminant_sign(
    cx: int,
    cy: int,
    cz: int,
    cw: int,
    cd: int,
    rn: int,
    rd: int,
    ox: int,
    oy: int,
    oz: int,
    ow: int,
    od: int,
    dx: int,
    dy: int,
    dz: int,
    dw: int,
    dd: int,
)
    requires
        cd > 0,
        rd > 0,
        od > 0,
        dd > 0,
    ensures
        ({
            let center = Vector {
                x: ratio(cx, cd),
                y: ratio(cy, cd),
                z: ratio(cz, cd),
                w: ratio(cw, cd),
            };
            let origin = Vector {
                x: ratio(ox, od),
                y: ratio(oy, od),
                z: ratio(oz, od),
                w: ratio(ow, od),
            };
            let direction = Vector {
                x: ratio(dx, dd),
                y: ratio(dy, dd),
                z: ratio(dz, dd),
                w: ratio(dw, dd),
            };
            let ocx = ox * cd - cx * od;
            let ocy = oy * cd - cy * od;
            let ocz = oz * cd - cz * od;
            let p = ocx * dx + ocy * dy + ocz * dz;
            let a = dx * dx + dy * dy + dz * dz;
            let c = (ocx * rd) * (ocx * rd) + (ocy * rd) * (ocy * rd) + (ocz * rd) * (ocz * rd)
                - (rn * (od * cd)) * (rn * (od * cd));
            discriminant(center, ratio(rn, rd), origin, direction) > 0real <==> (p * rd) * (p
                * rd) > a * c
        }),
{
    let q = od * cd;
    let ocx = ox * cd - cx * od;
    let ocy = oy * cd - cy * od;
    let ocz = oz * cd - cz * od;
    let p = ocx * dx + ocy * dy + ocz * dz;
    let a = dx * dx + dy * dy + dz * dz;
    let s = ocx * ocx + ocy * ocy + ocz * ocz;
    let c = (ocx * rd) * (ocx * rd) + (ocy * rd) * (ocy * rd) + (ocz * rd) * (ocz * rd) - (rn * q)
        * (rn * q);

    // The vector from the centre to the origin, over q.
    lemma_ratio_cross(ox, od, cx, cd);
    lemma_ratio_cross(oy, od, cy, cd);
    lemma_ratio_cross(oz, od, cz, cd);
    let vx = ratio(ocx, q);
    let vy = ratio(ocy, q);
    let vz = ratio(ocz, q);
    let ex = ratio(dx, dd);
    let ey = ratio(dy, dd);
    let ez = ratio(dz, dd);
    let rr = ratio(rn, rd);

    // The three dot products and the squared radius as single fractions.
    lemma_dot3_ratio(dx, dy, dz, dd, dx, dy, dz, dd);
    lemma_dot3_ratio(ocx, ocy, ocz, q, dx, dy, dz, dd);
    lemma_dot3_ratio(ocx, ocy, ocz, q, ocx, ocy, ocz, q);
    lemma_ratio_mul(rn, rd, rn, rd);
    let ra = ratio(a, dd * dd);
    let rp = ratio(p, q * dd);
    let rs = ratio(s, q * q);
    assert(ex * ex + ey * ey + ez * ez == ra);
    assert(vx * ex + vy * ey + vz * ez == rp);
    assert(vx * vx + vy * vy + vz * vz == rs);
    assert(rr * rr == ratio(rn * rn, rd * rd));

    // c = |oc|^2 - r^2 over (q rd)^2.
    lemma_ratio_cross(s, q * q, rn * rn, rd * rd);
    let cn = s * (rd * rd) - (rn * rn) * (q * q);
    let cden = (q * q) * (rd * rd);
    assert(cn == c) by {
        lemma_square_of_product(ocx, rd);
        lemma_square_of_product(ocy, rd);
        lemma_square_of_product(ocz, rd);
        lemma_square_of_product(rn, q);
        let w = rd * rd;
        assert((ocx * ocx + ocy * ocy + ocz * ocz) * w == (ocx * ocx) * w + (ocy * ocy) * w + (ocz
            * ocz) * w) by (nonlinear_arith);
    }
    let rc = ratio(c, cden);
    assert(rs - rr * rr == rc);

    // b^2 and 4ac over one denominator.
    lemma_ratio_mul(p, q * dd, p, q * dd);
    lemma_ratio_mul(a, dd * dd, c, cden);
    lemma_ratio_scale(p * p, (q * dd) * (q * dd), rd * rd);
    assert(rd * rd > 0) by (nonlinear_arith)
        requires
            rd > 0,
    ;
    let big = (dd * dd) * cden;
    assert(((q * dd) * (q * dd)) * (rd * rd) == big) by {
        lemma_square_of_product(q, dd);
        let q2 = q * q;
        let d2 = dd * dd;
        let r2 = rd * rd;
        assert((q2 * d2) * r2 == d2 * (q2 * r2)) by (nonlinear_arith);
    }
    lemma_square_of_product(p, rd);
    let lhs = (p * rd) * (p * rd);
    assert(rp * rp == ratio(lhs, big));
    assert(ra * rc == ratio(a * c, big));
    lemma_ratio_add(lhs, a * c, big);
    lemma_ratio_sign(lhs - a * c, big);
    let t = ratio(lhs - a * c, big);
    assert(rp * rp - ra * rc == t);

    let b = 2real * rp;
    assert(b * b - 4real * ra * rc == 4real * t) by (nonlinear_arith)
        requires
            b == 2real * rp,
            rp * rp - ra * rc == t,
    ;
}

} // verus!
