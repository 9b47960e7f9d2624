//! What holds of the camera, the intersection test and the background for
//! every input.

use vstd::prelude::*;
use crate::actor::{discriminant, Rgba8, Sphere};
use crate::algebra::{Matrix, Vector};
use crate::background::{blend, blue_b, blue_g, blue_r, gradient, to_channel, white};
use crate::camera::{
    flip_y, lower_left, pixel_direction, pixel_point, projection, upper_right, viewport_matrix,
};
use crate::canvas::Canvas;
use crate::ray::{point_along, Ray};

verus! {

/// The projection matrix is fixed by the canvas's dimensions: two canvases
/// of one size have one matrix, whatever pixel it is later applied to.
pub proof fn lemma_projection_is_fixed(a: Canvas, b: Canvas)
    requires
        a.width == b.width,
        a.height == b.height,
    ensures
        a.ndc_matrix() == b.ndc_matrix(),
        projection(a.width as int, a.height as int) == projection(b.width as int, b.height as int),
{
}

/// Before the mirror, pixel `(0, 0)` lies on the lower-left corner of the
/// viewport and pixel `(width, height)` on its upper-right corner.
pub proof fn lemma_viewport_corners(width: int, height: int)
    requires
        width > 0,
        height > 0,
    ensures
        viewport_matrix(width, height).apply(pixel_point(0, 0)) == lower_left(),
        viewport_matrix(width, height).apply(pixel_point(width, height)) == upper_right(),
{
    let w = width as real;
    let h = height as real;
    let m = viewport_matrix(width, height);
    lemma_viewport_rows(width, height);
    let p = pixel_point(0, 0);
    assert(m.r0.dot(p) == -2real);
    assert(m.r1.dot(p) == -1real);
    assert(m.r2.dot(p) == -1real);
    assert(m.r3.dot(p) == 1real);
    let q = pixel_point(width, height);
    assert((4real / w) * w == 4real && (2real / h) * h == 2real) by (nonlinear_arith)
        requires
            w > 0real,
            h > 0real,
    ;
    assert(m.r0.dot(q) == 2real);
    assert(m.r1.dot(q) == 1real);
    assert(m.r2.dot(q) == -1real);
    assert(m.r3.dot(q) == 1real);
}

/// The rows of the viewport matrix, with its constants worked out.
proof fn lemma_viewport_rows(width: int, height: int)
    requires
        width > 0,
        height > 0,
    ensures
        viewport_matrix(width, height) == (Matrix {
            r0: Vector { x: 4real / width as real, y: 0real, z: 0real, w: -2real },
            r1: Vector { x: 0real, y: 2real / height as real, z: 0real, w: -1real },
            r2: Vector { x: 0real, y: 0real, z: 0real, w: -1real },
            r3: Vector { x: 0real, y: 0real, z: 0real, w: 1real },
        }),
{
    let m = viewport_matrix(width, height);
    assert(0real / 100real == 0real) by (nonlinear_arith);
    assert(m.r0.x == 4real / width as real);
    assert(m.r1.y == 2real / height as real);
    assert(m.r2.z == 0real);
}

/// The rows of the projection matrix: those of the viewport matrix with the
/// second row negated.
proof fn lemma_projection_rows(width: int, height: int)
    requires
        width > 0,
        height > 0,
    ensures
        projection(width, height) == (Matrix {
            r0: Vector { x: 4real / width as real, y: 0real, z: 0real, w: -2real },
            r1: Vector { x: 0real, y: -(2real / height as real), z: 0real, w: 1real },
            r2: Vector { x: 0real, y: 0real, z: 0real, w: -1real },
            r3: Vector { x: 0real, y: 0real, z: 0real, w: 1real },
        }),
{
    lemma_viewport_rows(width, height);
    let v = viewport_matrix(width, height);
    let f = flip_y();
    let p = projection(width, height);
    assert(p.r0 == Matrix::row_times(f.r0, v));
    assert(p.r1 == Matrix::row_times(f.r1, v));
    assert(p.r2 == Matrix::row_times(f.r2, v));
    assert(p.r3 == Matrix::row_times(f.r3, v));
}

/// The ray through the pixel in column `x` of row `y` has the direction
/// `(4x / width - 2, 1 - 2y / height, -1, 0)`.
pub proof fn lemma_pixel_direction(width: int, height: int, x: int, y: int)
    requires
        width > 0,
        height > 0,
    ensures
        pixel_direction(width, height, x, y) == (Vector {
            x: 4real * x as real / width as real - 2real,
            y: 1real - 2real * y as real / height as real,
            z: -1real,
            w: 0real,
        }),
{
    let w = width as real;
    let h = height as real;
    let a = x as real;
    let b = y as real;
    lemma_projection_rows(width, height);
    assert((4real / w) * a == 4real * a / w && (-(2real / h)) * b == -(2real * b / h))
        by (nonlinear_arith)
        requires
            w > 0real,
            h > 0real,
    ;
    let m = projection(width, height);
    let p = pixel_point(x, y);
    assert(m.r0.dot(p) == 4real * a / w - 2real);
    assert(m.r1.dot(p) == 1real - 2real * b / h);
    assert(m.r2.dot(p) == -1real);
    assert(m.r3.dot(p) == 1real);
}

/// The square of the distance from `center` to the line through `origin`
/// along `direction`.
pub open spec fn closest_approach_squared(center: Vector, origin: Vector, direction: Vector)
    -> real {
    let oc = origin.minus(center);
    oc.dot3(oc) - oc.dot3(direction) * oc.dot3(direction) / direction.dot3(direction)
}

/// A ray whose line touches the sphere, passing its centre at exactly the
/// radius, misses.
pub proof fn lemma_tangent_ray_misses(sphere: Sphere, ray: Ray)
    requires
        ray.direction@.dot3(ray.direction@) > 0real,
        closest_approach_squared(sphere.center@, ray.origin@, ray.direction@)
            == sphere.radius.value() * sphere.radius.value(),
    ensures
        discriminant(sphere.center@, sphere.radius.value(), ray.origin@, ray.direction@) == 0real,
        !sphere.hit_by(&ray),
{
    let oc = ray.origin@.minus(sphere.center@);
    let a = ray.direction@.dot3(ray.direction@);
    let p = oc.dot3(ray.direction@);
    let s = oc.dot3(oc);
    let r = sphere.radius.value();
    let b = 2real * p;
    assert(b * b - 4real * a * (s - r * r) == 0real) by (nonlinear_arith)
        requires
            a > 0real,
            s - p * p / a == r * r,
            b == 2real * p,
    ;
}

/// A ray whose line passes through the centre of a sphere hits it, provided
/// the direction is not zero and the radius is not zero.
pub proof fn lemma_ray_through_center_hits(sphere: Sphere, ray: Ray, t: real)
    requires
        ray.direction@.dot3(ray.direction@) > 0real,
        sphere.radius.value() != 0real,
        point_along(ray.origin@, ray.direction@, t).x == sphere.center@.x,
        point_along(ray.origin@, ray.direction@, t).y == sphere.center@.y,
        point_along(ray.origin@, ray.direction@, t).z == sphere.center@.z,
    ensures
        sphere.hit_by(&ray),
{
    let d = ray.direction@;
    let oc = ray.origin@.minus(sphere.center@);
    let a = d.dot3(d);
    let r = sphere.radius.value();
    assert(oc.x == -(t * d.x) && oc.y == -(t * d.y) && oc.z == -(t * d.z));
    lemma_opposite_products(t, d.x);
    lemma_opposite_products(t, d.y);
    lemma_opposite_products(t, d.z);
    lemma_factor_out(t, d.x * d.x, d.y * d.y, d.z * d.z);
    lemma_factor_out(t * t, d.x * d.x, d.y * d.y, d.z * d.z);
    let p = oc.dot3(d);
    let s = oc.dot3(oc);
    assert(p == -(t * a));
    assert(s == (t * t) * a);
    let b = 2real * p;
    assert(b * b - 4real * a * ((t * t) * a - r * r) == 4real * a * (r * r)) by (nonlinear_arith)
        requires
            b == 2real * (-(t * a)),
    ;
    assert(4real * a * (r * r) > 0real) by (nonlinear_arith)
        requires
            a > 0real,
            r != 0real,
    ;
}

/// Whether a ray hits does not depend on the length of its direction:
/// stretching the direction by `k` multiplies the discriminant by `k * k`.
pub proof fn lemma_hit_ignores_direction_length(
    center: Vector,
    radius: real,
    origin: Vector,
    direction: Vector,
    k: real,
)
    requires
        k != 0real,
    ensures
        discriminant(center, radius, origin, direction.scaled(k)) == k * k * discriminant(
            center,
            radius,
            origin,
            direction,
        ),
        discriminant(center, radius, origin, direction.scaled(k)) > 0real <==> discriminant(
            center,
            radius,
            origin,
            direction,
        ) > 0real,
{
    let oc = origin.minus(center);
    let d = direction;
    let e = direction.scaled(k);
    let a = d.dot3(d);
    let p = oc.dot3(d);
    let c = oc.dot3(oc) - radius * radius;
    lemma_stretched_products(k, d.x, d.x);
    lemma_stretched_products(k, d.y, d.y);
    lemma_stretched_products(k, d.z, d.z);
    lemma_stretched_products(k, d.x, oc.x);
    lemma_stretched_products(k, d.y, oc.y);
    lemma_stretched_products(k, d.z, oc.z);
    lemma_factor_out(k * k, d.x * d.x, d.y * d.y, d.z * d.z);
    lemma_factor_out(k, oc.x * d.x, oc.y * d.y, oc.z * d.z);
    assert(e.dot3(e) == (k * k) * a);
    assert(oc.dot3(e) == k * p);
    let b = 2real * p;
    let bk = 2real * (k * p);
    let disc = b * b - 4real * a * c;
    let kk = k * k;
    assert(bk * bk == kk * (b * b)) by (nonlinear_arith)
        requires
            b == 2real * p,
            bk == 2real * (k * p),
            kk == k * k,
    ;
    assert(4real * (kk * a) * c == kk * (4real * a * c)) by (nonlinear_arith);
    assert(kk * (b * b) - kk * (4real * a * c) == kk * disc) by (nonlinear_arith)
        requires
            disc == b * b - 4real * a * c,
    ;
    assert(kk > 0real) by (nonlinear_arith)
        requires
            kk == k * k,
            k != 0real,
    ;
    assert(kk * disc > 0real <==> disc > 0real) by (nonlinear_arith)
        requires
            kk > 0real,
    ;
}

/// As the direction of a ray turns upwards, every channel of the
/// background moves from its white level towards its blue level and never
/// back; the background is always opaque.
pub proof fn lemma_gradient_is_monotone(low: real, high: real)
    requires
        low <= high,
    ensures
        blend(high, white(), blue_r()) <= blend(low, white(), blue_r()),
        blend(high, white(), blue_g()) <= blend(low, white(), blue_g()),
        blend(high, white(), blue_b()) <= blend(low, white(), blue_b()),
        gradient(high).r <= gradient(low).r,
        gradient(high).g <= gradient(low).g,
        gradient(high).b <= gradient(low).b,
        gradient(high).a == 255,
        gradient(low).a == 255,
{
    lemma_blend_falls(low, high, white(), blue_r());
    lemma_blend_falls(low, high, white(), blue_g());
    lemma_blend_falls(low, high, white(), blue_b());
    lemma_channel_is_monotone(blend(high, white(), blue_r()), blend(low, white(), blue_r()));
    lemma_channel_is_monotone(blend(high, white(), blue_g()), blend(low, white(), blue_g()));
    lemma_channel_is_monotone(blend(high, white(), blue_b()), blend(low, white(), blue_b()));
}

/// A ray that points straight down sees the white level in every channel,
/// and one that points straight up sees the blue levels, rounded down.
pub proof fn lemma_gradient_ends()
    ensures
        gradient(-1real) == (Rgba8 { r: 204, g: 204, b: 204, a: 255 }),
        gradient(1real) == (Rgba8 { r: 25, g: 51, b: 165, a: 255 }),
{
    assert(blend(-1real, white(), blue_r()) == 204real && blend(-1real, white(), blue_g())
        == 204real && blend(-1real, white(), blue_b()) == 204real) by (nonlinear_arith);
    assert(blend(1real, white(), blue_r()) == 51real / 2real && blend(1real, white(), blue_g())
        == 51real && blend(1real, white(), blue_b()) == 663real / 4real) by (nonlinear_arith);
    assert(204real.floor() == 204);
    assert((51real / 2real).floor() == 25);
    assert(51real.floor() == 51);
    assert((663real / 4real).floor() == 165);
}

/// In a scene whose sphere is opaque, every pixel is opaque.
pub proof fn lemma_opaque_scene(canvas: Canvas, sphere: Sphere, x: int, y: int)
    requires
        sphere.color.a == 255,
    ensures
        canvas.color_at(&sphere, x, y).a == 255,
{
}

/// Products with the opposite of `t * x`.
proof fn lemma_opposite_products(t: real, x: real)
    ensures
        (-(t * x)) * x == -(t * (x * x)),
        (-(t * x)) * (-(t * x)) == (t * t) * (x * x),
{
    assert((-(t * x)) * x == -(t * (x * x))) by (nonlinear_arith);
    assert((-(t * x)) * (-(t * x)) == (t * t) * (x * x)) by (nonlinear_arith);
}

/// Products with `k * x`.
proof fn lemma_stretched_products(k: real, x: real, y: real)
    ensures
        (k * x) * (k * y) == (k * k) * (x * y),
        y * (k * x) == k * (y * x),
{
    assert((k * x) * (k * y) == (k * k) * (x * y)) by (nonlinear_arith);
    assert(y * (k * x) == k * (y * x)) by (nonlinear_arith);
}

/// A common factor of three terms.
proof fn lemma_factor_out(t: real, x: real, y: real, z: real)
    ensures
        t * x + t * y + t * z == t * (x + y + z),
        -(t * x) + -(t * y) + -(t * z) == -(t * (x + y + z)),
{
    assert(t * x + t * y + t * z == t * (x + y + z)) by (nonlinear_arith);
}

/// Between a level `from` and a lower level `to`, the blend falls as the
/// vertical component rises.
proof fn lemma_blend_falls(low: real, high: real, from: real, to: real)
    requires
        low <= high,
        to <= from,
    ensures
        blend(high, from, to) <= blend(low, from, to),
{
    let tl = (low + 1real) / 2real;
    let th = (high + 1real) / 2real;
    assert(tl <= th);
    assert(((1real - th) * from + th * to) * 255real <= ((1real - tl) * from + tl * to) * 255real)
        by (nonlinear_arith)
        requires
            tl <= th,
            to <= from,
    ;
}

/// A lower level never gives a higher byte.
proof fn lemma_channel_is_monotone(u: real, v: real)
    requires
        u <= v,
    ensures
        to_channel(u) <= to_channel(v),
{
    if 0real < u && v < 255real {
        assert(u.floor() <= v.floor());
        assert(0 <= u.floor() && v.floor() <= 254);
    } else if 0real < u && u < 255real {
        assert(0 <= u.floor() <= 254);
    } else if 0real < v && v < 255real {
        assert(0 <= v.floor() <= 254);
    }
}

} // verus!
