//! The canvas: the renderer that casts one ray per pixel and fills the
//! pixel buffer.

use vstd::prelude::*;
use crate::actor::{discriminant, Rgba8, Sphere, HIT_LIMIT};
use crate::algebra::Matrix;
use crate::background::{gradient, gradient_exec};
use crate::camera::{camera, flip_y, pixel_direction, pixel_point, projection, viewport_matrix};
use crate::common::{lemma_bound_grows, vec4, Int4, Mat4};
use crate::grid::{grid_rows, PixelGrid};
use crate::ray::Ray;
use crate::scalar::{
    larger, lemma_product_bound, lemma_ratio_scale, lemma_ratio_sign, lemma_ratio_whole, Scalar,
};

verus! {


/// The sphere of the built-in scene: red, of radius one half, one unit in
/// front of the camera.
pub open spec fn default_sphere() -> Sphere {
    Sphere {
        center: vec4 { data: Int4 { x: 0, y: 0, z: -1i64, w: 1 }, den: 1 },
        radius: Scalar { num: 1, den: 2 },
        color: Rgba8 { r: 255, g: 0, b: 0, a: 255 },
    }
}

/// An image of `width` by `height` pixels.
#[derive(Clone, Copy, Debug, PartialEq, Eq)]
pub struct Canvas {
    pub width: u32,
    pub height: u32,
}

impl Canvas {
    /// The canvas has at least one pixel, and its projection matrix and every
    /// pixel's image-plane point fit the machine integers.
    pub open spec fn wf(&self) -> bool {
        &&& self.width > 0
        &&& self.height > 0
        &&& 16 * ((self.width * self.height) * larger(self.width as nat, self.height as nat))
            <= i64::MAX
    }

    /// The projection matrix as this crate holds it: over the denominator
    /// `width * height`.
    pub open spec fn ndc_matrix(&self) -> Mat4 {
        let w = self.width as int;
        let h = self.height as int;
        Mat4 {
            r0: Int4 { x: (4 * h) as i64, y: 0, z: 0, w: (-2 * (w * h)) as i64 },
            r1: Int4 { x: 0, y: (-2 * w) as i64, z: 0, w: (w * h) as i64 },
            r2: Int4 { x: 0, y: 0, z: 0, w: (-(w * h)) as i64 },
            r3: Int4 { x: 0, y: 0, z: 0, w: (w * h) as i64 },
            den: (w * h) as i64,
        }
    }

    /// The image can be allocated: its byte count fits a vector.
    pub open spec fn storable(&self) -> bool {
        4 * (self.width * self.height) <= isize::MAX
    }

    /// The canvas is well formed and storable, and the sphere is small
    /// enough for every pixel's intersection test: see `Sphere::in_range`.
    pub open spec fn can_render(&self, sphere: &Sphere) -> bool {
        &&& self.wf()
        &&& self.storable()
        &&& sphere.wf()
        &&& (2 * (self.width * self.height)) * (sphere.center.magnitude()
            * sphere.radius.magnitude()) <= HIT_LIMIT
    }

    /// The colour of the pixel in column `x` of row `y` in a scene that
    /// holds `sphere`: the sphere's colour where the pixel's ray hits it, the
    /// background elsewhere.
    pub open spec fn color_at(&self, sphere: &Sphere, x: int, y: int) -> Rgba8 {
        let direction = pixel_direction(self.width as int, self.height as int, x, y);
        if discriminant(sphere.center@, sphere.radius.value(), camera(), direction) > 0real {
            sphere.color
        } else {
            gradient(direction.y)
        }
    }

    /// The ray from the camera through the pixel in column `x` of row `y`,
    /// given the canvas's projection matrix.
    pub fn pixel_ray(&self, transf: &Mat4, x: u32, y: u32) -> (ray: Ray)
        requires
            self.wf(),
            *transf == self.ndc_matrix(),
            x <= self.width,
            y <= self.height,
        ensures
            ray.wf(),
            ray.origin@ == camera(),
            ray.direction@ == pixel_direction(
                self.width as int,
                self.height as int,
                x as int,
                y as int,
            ),
            ray.origin == (vec4 { data: Int4 { x: 0, y: 0, z: 0, w: 1 }, den: 1 }),
            ray.direction.den == self.width * self.height,
            ray.direction.data.x == 4 * self.height * x - 2 * (self.width * self.height),
            ray.direction.data.y == self.width * self.height - 2 * self.width * y,
            ray.direction.data.z == -(self.width * self.height),
            ray.direction.data.w == 0,
            ray.direction.magnitude() <= 2 * (self.width * self.height),
    {
        let ghost w = self.width as int;
        let ghost h = self.height as int;
        let point_image = vec4 { data: Int4 { x: x as i64, y: y as i64, z: 0, w: 1 }, den: 1 };
        let origin = vec4 { data: Int4 { x: 0, y: 0, z: 0, w: 1 }, den: 1 };
        proof {
            lemma_area_bounds(w, h);
            lemma_image_to_ndc_view(w, h);
            lemma_ratio_whole(x as int);
            lemma_ratio_whole(y as int);
            lemma_ratio_whole(0);
            lemma_ratio_whole(1);
            assert(point_image@ == pixel_point(x as int, y as int));
            assert(origin@ == camera());
            assert(transf.magnitude() <= 4 * (w * h));
            assert(point_image.magnitude() <= larger(w as nat, h as nat));
            lemma_bound_grows(
                transf.magnitude(),
                point_image.magnitude(),
                (4 * (w * h)) as nat,
                larger(w as nat, h as nat),
            );
            assert((4 * (w * h)) * larger(w as nat, h as nat) == 4 * ((w * h) * larger(
                w as nat,
                h as nat,
            ))) by (nonlinear_arith);
        }
        let point_ndc = transf.apply(&point_image);
        proof {
            lemma_pixel_numerators(w, h, x as int, y as int);
            assert(point_ndc.data.x == 4 * h * x - 2 * (w * h));
            assert(point_ndc.data.y == w * h - 2 * w * y);
            assert(point_ndc.data.z == -(w * h));
            assert(point_ndc.data.w == w * h);
            assert(point_ndc.den == w * h);
            assert(point_ndc.magnitude() <= 2 * (w * h));
            assert(point_ndc.magnitude() * origin.magnitude() == point_ndc.magnitude())
                by (nonlinear_arith)
                requires
                    origin.magnitude() == 1,
            ;
        }
        let direction = point_ndc.minus(&origin);
        Ray { origin, direction }
    }

    /// The colour that `ray` gives its pixel: the sphere's colour where the
    /// ray hits the sphere, the background elsewhere.
    pub fn shade(&self, sphere: &Sphere, ray: &Ray) -> (color: Rgba8)
        requires
            sphere.wf(),
            ray.wf(),
            sphere.in_range(ray),
        ensures
            color == if sphere.hit_by(ray) {
                sphere.color
            } else {
                gradient(ray.direction@.y)
            },
    {
        if sphere.is_hit(ray) {
            sphere.color
        } else {
            self.background_color(ray)
        }
    }

    /// Whether the canvas is well formed and storable.
    pub fn fits(&self) -> (ok: bool)
        ensures
            ok == (self.wf() && self.storable()),
    {
        if self.width == 0 || self.height == 0 {
            return false;
        }
        let w: u128 = self.width as u128;
        let h: u128 = self.height as u128;
        let side: u128 = if w >= h {
            w
        } else {
            h
        };
        proof {
            lemma_product_bound(w as int, h as int, 0x1_0000_0000, 0x1_0000_0000);
            lemma_product_bound(
                (w * h) as int,
                side as int,
                0x1_0000_0000_0000_0000,
                0x1_0000_0000,
            );
        }
        let area: u128 = w * h;
        16 * (area * side) <= i64::MAX as u128 && 4 * area <= isize::MAX as u128
    }

    /// Whether `render` can draw `sphere` on this canvas.
    pub fn can_render_exec(&self, sphere: &Sphere) -> (ok: bool)
        ensures
            ok == self.can_render(sphere),
    {
        if !self.fits() || sphere.center.den <= 0 || sphere.radius.den <= 0 {
            return false;
        }
        let w: u128 = self.width as u128;
        let h: u128 = self.height as u128;
        let mc: u128 = sphere.center.magnitude_exec() as u128;
        let mr: u128 = sphere.radius.magnitude_exec() as u128;
        proof {
            lemma_product_bound(w as int, h as int, 0x1_0000_0000, 0x1_0000_0000);
            lemma_product_bound(
                mc as int,
                mr as int,
                0x8000_0000_0000_0000,
                0x8000_0000_0000_0000,
            );
        }
        let area: u128 = w * h;
        let size: u128 = mc * mr;
        if size > HIT_LIMIT as u128 {
            proof {
                assert(area >= 1) by (nonlinear_arith)
                    requires
                        area == w * h,
                        w >= 1,
                        h >= 1,
                ;
                assert((2 * area) * size >= size) by (nonlinear_arith)
                    requires
                        area >= 1,
                        size >= 0,
                ;
            }
            return false;
        }
        proof {
            lemma_product_bound(
                (2 * area) as int,
                size as int,
                0x2_0000_0000_0000_0000,
                0x1000_0000_0000_0000,
            );
        }
        (2 * area) * size <= HIT_LIMIT as u128
    }

    /// Renders the scene that holds `sphere`, or returns `None` where the
    /// canvas is empty, the sphere malformed, or either too large.
    pub fn try_render(&self, sphere: &Sphere) -> (image: Option<PixelGrid>)
        ensures
            image is Some <==> self.can_render(sphere),
            image is Some ==> image.unwrap().has_size(self.width as int, self.height as int),
            image is Some ==> forall|x: int, y: int|
                0 <= x < self.width && 0 <= y < self.height ==> (#[trigger] grid_rows(
                    image.unwrap(),
                )[y][x]) == self.color_at(sphere, x, y).channels(),
    {
        if self.can_render_exec(sphere) {
            Some(self.render(sphere))
        } else {
            None
        }
    }

    /// Renders the scene that holds `sphere`: one ray per pixel. Where the
    /// sphere is opaque, so is every pixel.
    pub fn render(&self, sphere: &Sphere) -> (image: PixelGrid)
        requires
            self.can_render(sphere),
        ensures
            image.has_size(self.width as int, self.height as int),
            forall|x: int, y: int|
                0 <= x < self.width && 0 <= y < self.height ==> (#[trigger] grid_rows(
                    image,
                )[y][x]) == self.color_at(sphere, x, y).channels(),
            sphere.color.a == 255 ==> forall|x: int, y: int|
                0 <= x < self.width && 0 <= y < self.height ==> (#[trigger] grid_rows(
                    image,
                )[y][x]).3 == 255,
    {
        let mut image = PixelGrid::blank(self.width, self.height);
        let transf = self.image_to_ndc();
        let mut y: u32 = 0;
        while y < self.height
            invariant
                self.can_render(sphere),
                transf == self.ndc_matrix(),
                y <= self.height,
                image.has_size(self.width as int, self.height as int),
                forall|i: int, j: int|
                    0 <= i < self.width && 0 <= j < y ==> (#[trigger] grid_rows(image)[j][i])
                        == self.color_at(sphere, i, j).channels(),
            decreases self.height - y,
        {
            let mut x: u32 = 0;
            while x < self.width
                invariant
                    self.can_render(sphere),
                    transf == self.ndc_matrix(),
                    y < self.height,
                    x <= self.width,
                    image.has_size(self.width as int, self.height as int),
                    forall|i: int, j: int|
                        0 <= i < self.width && 0 <= j < y ==> (#[trigger] grid_rows(
                            image,
                        )[j][i]) == self.color_at(sphere, i, j).channels(),
                    forall|i: int|
                        0 <= i < x ==> (#[trigger] grid_rows(image)[y as int][i])
                            == self.color_at(sphere, i, y as int).channels(),
                decreases self.width - x,
            {
                let ray = self.pixel_ray(&transf, x, y);
                proof {
                    lemma_pixel_in_range(
                        ray.origin.magnitude(),
                        sphere.center.magnitude(),
                        ray.direction.magnitude(),
                        sphere.radius.magnitude(),
                        (2 * (self.width * self.height)) as nat,
                    );
                }
                let color = self.shade(sphere, &ray);
                let ghost before = grid_rows(image);
                image.put(x, y, color);
                assert(forall|i: int, j: int|
                    0 <= i < self.width && 0 <= j < y ==> (#[trigger] grid_rows(image)[j][i])
                        == before[j][i]);
                assert(forall|i: int|
                    0 <= i < x ==> (#[trigger] grid_rows(image)[y as int][i])
                        == before[y as int][i]);
                x = x + 1;
            }
            y = y + 1;
        }
        image
    }

    /// Renders the built-in scene: the background with `default_sphere()` in
    /// front of it. Every pixel is opaque.
    pub fn render_background(&self) -> (image: PixelGrid)
        requires
            self.wf(),
            self.storable(),
        ensures
            image.has_size(self.width as int, self.height as int),
            forall|x: int, y: int|
                0 <= x < self.width && 0 <= y < self.height ==> (#[trigger] grid_rows(
                    image,
                )[y][x]) == self.color_at(&default_sphere(), x, y).channels(),
            forall|x: int, y: int|
                0 <= x < self.width && 0 <= y < self.height ==> (#[trigger] grid_rows(
                    image,
                )[y][x]).3 == 255,
    {
        let sph = Sphere {
            center: vec4 { data: Int4 { x: 0, y: 0, z: -1, w: 1 }, den: 1 },
            radius: Scalar { num: 1, den: 2 },
            color: Rgba8 { r: 255, g: 0, b: 0, a: 255 },
        };
        proof {
            let area = self.width * self.height;
            let side = larger(self.width as nat, self.height as nat);
            assert(sph.center.magnitude() == 1 && sph.radius.magnitude() == 2);
            assert(4 * area <= HIT_LIMIT) by (nonlinear_arith)
                requires
                    area == self.width * self.height,
                    16 * (area * side) <= i64::MAX,
                    side >= self.width,
                    side >= self.height,
                    self.width >= 1,
                    self.height >= 1,
                    HIT_LIMIT == 0x1000_0000_0000_0000,
            ;
            assert((2 * area) * (sph.center.magnitude() * sph.radius.magnitude()) == 4 * area)
                by (nonlinear_arith)
                requires
                    sph.center.magnitude() == 1,
                    sph.radius.magnitude() == 2,
            ;
            assert(sph == default_sphere());
        }
        self.render(&sph)
    }

    /// The background colour behind `ray`: a vertical gradient from white,
    /// where the ray points down, to blue, where it points up.
    pub fn background_color(&self, ray: &Ray) -> (color: Rgba8)
        requires
            ray.direction.wf(),
        ensures
            color == gradient(ray.direction@.y),
    {
        gradient_exec(ray.direction.data.y, ray.direction.den)
    }

    /// The transform from pixel coordinates to the image plane.
    pub fn image_to_ndc(&self) -> (m: Mat4)
        requires
            self.wf(),
        ensures
            m.wf(),
            m == self.ndc_matrix(),
            m@ == projection(self.width as int, self.height as int),
    {
        let w: i64 = self.width as i64;
        let h: i64 = self.height as i64;
        proof {
            lemma_area_bounds(w as int, h as int);
        }
        let area: i64 = w * h;
        let lower_left_ndc = vec4 { data: Int4 { x: -2, y: -1, z: -1, w: 1 }, den: 1 };
        let upper_right_ndc = vec4 { data: Int4 { x: 2, y: 1, z: -1, w: 1 }, den: 1 };
        assert(upper_right_ndc.magnitude() == 2 && lower_left_ndc.magnitude() == 2);
        let range = upper_right_ndc.minus(&lower_left_ndc);
        assert(range.data == (Int4 { x: 4, y: 2, z: 0, w: 0 }) && range.den == 1);
        proof {
            lemma_scaled_constant(range.data.x as int, 4, h as int);
            lemma_scaled_constant(range.data.y as int, 2, w as int);
            lemma_scaled_constant(lower_left_ndc.data.x as int, -2, area as int);
            lemma_scaled_constant(lower_left_ndc.data.y as int, -1, area as int);
            lemma_scaled_constant(lower_left_ndc.data.z as int, -1, area as int);
        }

        let transf = Mat4 {
            r0: Int4 { x: range.data.x * h, y: 0, z: 0, w: lower_left_ndc.data.x * area },
            r1: Int4 { x: 0, y: range.data.y * w, z: 0, w: lower_left_ndc.data.y * area },
            r2: Int4 { x: 0, y: 0, z: range.data.z, w: lower_left_ndc.data.z * area },
            r3: Int4 { x: 0, y: 0, z: 0, w: area },
            den: area,
        };
        let flip = Mat4 {
            r0: Int4 { x: 1, y: 0, z: 0, w: 0 },
            r1: Int4 { x: 0, y: -1, z: 0, w: 0 },
            r2: Int4 { x: 0, y: 0, z: 1, w: 0 },
            r3: Int4 { x: 0, y: 0, z: 0, w: 1 },
            den: 1,
        };
        proof {
            lemma_image_to_ndc_view(w as int, h as int);
            assert(flip.magnitude() == 1);
            assert(transf.magnitude() <= 4 * (w * h));
            assert(flip.magnitude() * transf.magnitude() == transf.magnitude())
                by (nonlinear_arith)
                requires
                    flip.magnitude() == 1,
            ;
        }
        let m = flip.times(&transf);
        proof {
            assert(1 * area == area);
        }
        m
    }
}

/// With the camera as origin, the bound of `can_render` puts every pixel's
/// ray in the range of the intersection test.
proof fn lemma_pixel_in_range(mo: nat, mc: nat, md: nat, mr: nat, area2: nat)
    requires
        mo == 1,
        md <= area2,
        area2 * (mc * mr) <= HIT_LIMIT,
    ensures
        (mo * mc) * (md * mr) <= HIT_LIMIT,
{
    assert((mo * mc) * (md * mr) <= area2 * (mc * mr)) by (nonlinear_arith)
        requires
            mo == 1,
            md <= area2,
    ;
}

/// The numerators of a pixel's point on the image plane.
proof fn lemma_pixel_numerators(w: int, h: int, x: int, y: int)
    requires
        0 < w <= u32::MAX,
        0 < h <= u32::MAX,
        0 <= x <= w,
        0 <= y <= h,
        16 * (w * h) <= i64::MAX,
    ensures
        ({
            let m = (Canvas { width: w as u32, height: h as u32 }).ndc_matrix();
            let p = Int4 { x: x as i64, y: y as i64, z: 0, w: 1 };
            &&& m.r0.dot(p) == 4 * h * x - 2 * (w * h)
            &&& m.r1.dot(p) == w * h - 2 * w * y
            &&& m.r2.dot(p) == -(w * h)
            &&& m.r3.dot(p) == w * h
            &&& -(2 * (w * h)) <= 4 * h * x - 2 * (w * h) <= 2 * (w * h)
            &&& -(w * h) <= w * h - 2 * w * y <= w * h
        }),
{
    assert(0 <= h * x <= w * h && 0 <= w * y <= w * h && w <= w * h && h <= w * h)
        by (nonlinear_arith)
        requires
            0 < w,
            0 < h,
            0 <= x <= w,
            0 <= y <= h,
    ;
    assert(4 * h * x == 4 * (h * x) && 2 * w * y == 2 * (w * y)) by (nonlinear_arith);
    let m = (Canvas { width: w as u32, height: h as u32 }).ndc_matrix();
    let p = Int4 { x: x as i64, y: y as i64, z: 0, w: 1 };
    assert(m.r0.x == 4 * h && m.r0.y == 0 && m.r0.z == 0 && m.r0.w == -2 * (w * h));
    assert(m.r1.x == 0 && m.r1.y == -2 * w && m.r1.z == 0 && m.r1.w == w * h);
    assert(p.x == x && p.y == y);
    assert(m.r0.x * p.x == 4 * h * x);
    assert(m.r1.y * p.y == -(2 * w * y)) by (nonlinear_arith)
        requires
            m.r1.y == -2 * w,
            p.y == y,
    ;
    assert(m.r0.dot(p) == 4 * h * x - 2 * (w * h));
    assert(m.r1.dot(p) == w * h - 2 * w * y);
    assert(m.r2.dot(p) == -(w * h));
    assert(m.r3.dot(p) == w * h);
}

/// The matrix that `image_to_ndc` returns denotes the projection.
proof fn lemma_image_to_ndc_view(w: int, h: int)
    requires
        0 < w <= u32::MAX,
        0 < h <= u32::MAX,
        16 * (w * h) <= i64::MAX,
        w <= w * h,
        h <= w * h,
    ensures
        (Canvas { width: w as u32, height: h as u32 }).ndc_matrix()@ == projection(w, h),
{
    let m = (Canvas { width: w as u32, height: h as u32 }).ndc_matrix();
    let d = w * h;
    lemma_ratio_sign(0, d);
    lemma_ratio_scale(4, w, h);
    lemma_ratio_scale(-2, h, w);
    assert(h * w == w * h) by (nonlinear_arith);
    lemma_ratio_scale(-2, 1, d);
    lemma_ratio_scale(-1, 1, d);
    lemma_ratio_scale(1, 1, d);
    lemma_ratio_whole(-2);
    lemma_ratio_whole(-1);
    lemma_ratio_whole(1);
    assert(1 * d == d);
    assert(-(2real / h as real) == (-2) as real / h as real) by (nonlinear_arith)
        requires
            h > 0,
    ;
    let v = viewport_matrix(w, h);
    let f = flip_y();
    let p = projection(w, h);
    assert(p.r0 == Matrix::row_times(f.r0, v));
    assert(p.r1 == Matrix::row_times(f.r1, v));
    assert(p.r2 == Matrix::row_times(f.r2, v));
    assert(p.r3 == Matrix::row_times(f.r3, v));
    assert(m@.r0 == p.r0);
    assert(m@.r1 == p.r1);
    assert(m@.r2 == p.r2);
    assert(m@.r3 == p.r3);
}

/// A factor known to be the constant `k` multiplies as `k` does.
proof fn lemma_scaled_constant(c: int, k: int, v: int)
    requires
        c == k,
    ensures
        c * v == k * v,
        k == -1 ==> c * v == -v,
{
}

/// What a well-formed canvas gives for the area `w * h`.
proof fn lemma_area_bounds(w: int, h: int)
    requires
        0 < w <= u32::MAX,
        0 < h <= u32::MAX,
        16 * ((w * h) * larger(w as nat, h as nat)) <= i64::MAX,
    ensures
        0 < w * h,
        w <= w * h,
        h <= w * h,
        16 * (w * h) <= i64::MAX,
{
    let m = larger(w as nat, h as nat) as int;
    assert(0 < w * h && w <= w * h && h <= w * h) by (nonlinear_arith)
        requires
            0 < w,
            0 < h,
    ;
    assert(w * h <= (w * h) * m) by (nonlinear_arith)
        requires
            0 < w * h,
            1 <= m,
    ;
}

} // verus!
