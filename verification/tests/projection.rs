use raytracer::canvas::Canvas;
use raytracer::common::{vec4, Int4, Mat4};

/// `a / b == c / d` for positive `b` and `d`.
fn same(a: i64, b: i64, c: i64, d: i64) -> bool {
    b > 0 && d > 0 && (a as i128) * (d as i128) == (c as i128) * (b as i128)
}

fn point(x: i64, y: i64) -> vec4 {
    vec4::new(x, y, 0, 1, 1).unwrap()
}

#[test]
fn projection_of_a_four_by_two_canvas() {
    let m = Canvas { width: 4, height: 2 }.image_to_ndc();
    assert_eq!(
        m,
        Mat4 {
            r0: Int4 { x: 8, y: 0, z: 0, w: -16 },
            r1: Int4 { x: 0, y: -8, z: 0, w: 8 },
            r2: Int4 { x: 0, y: 0, z: 0, w: -8 },
            r3: Int4 { x: 0, y: 0, z: 0, w: 8 },
            den: 8,
        }
    );
}

#[test]
fn projection_is_the_same_on_every_call() {
    let canvas = Canvas { width: 640, height: 480 };
    let first = canvas.image_to_ndc();
    let second = canvas.image_to_ndc();
    let third = Canvas { width: 640, height: 480 }.image_to_ndc();
    assert_eq!(first, second);
    assert_eq!(first, third);
    assert_ne!(first, Canvas { width: 480, height: 640 }.image_to_ndc());
}

#[test]
fn projection_maps_the_corners_of_the_image_to_the_corners_of_the_viewport() {
    for (w, h) in [(4u32, 2u32), (1, 1), (640, 480), (3, 7)] {
        let m = Canvas { width: w, height: h }.image_to_ndc();
        // pixel (0, 0) is the upper-left corner: (-2, 1, -1, 1)
        let p = m.apply(&point(0, 0));
        assert!(same(p.data.x, p.den, -2, 1));
        assert!(same(p.data.y, p.den, 1, 1));
        assert!(same(p.data.z, p.den, -1, 1));
        assert!(same(p.data.w, p.den, 1, 1));
        // pixel (w, h) is the lower-right corner: (2, -1, -1, 1)
        let p = m.apply(&point(w as i64, h as i64));
        assert!(same(p.data.x, p.den, 2, 1));
        assert!(same(p.data.y, p.den, -1, 1));
        assert!(same(p.data.z, p.den, -1, 1));
        assert!(same(p.data.w, p.den, 1, 1));
    }
}

#[test]
fn projection_is_linear_in_the_pixel() {
    let m = Canvas { width: 8, height: 4 }.image_to_ndc();
    for x in 0..=8i64 {
        for y in 0..=4i64 {
            let p = m.apply(&point(x, y));
            // (4x / 8 - 2, 1 - 2y / 4, -1, 1)
            assert!(same(p.data.x, p.den, x - 4, 2));
            assert!(same(p.data.y, p.den, 2 - y, 2));
            assert!(same(p.data.z, p.den, -1, 1));
            assert!(same(p.data.w, p.den, 1, 1));
        }
    }
}

#[test]
fn pixel_ray_leaves_the_origin_towards_the_image_plane() {
    let canvas = Canvas { width: 4, height: 2 };
    let m = canvas.image_to_ndc();
    let ray = canvas.pixel_ray(&m, 3, 1);
    assert_eq!(ray.origin, vec4::new(0, 0, 0, 1, 1).unwrap());
    // (4 * 3 / 4 - 2, 1 - 2 * 1 / 2, -1, 0) = (1, 0, -1, 0)
    assert_eq!(ray.direction, vec4::new(8, 0, -8, 0, 8).unwrap());
    let ray = canvas.pixel_ray(&m, 0, 0);
    assert_eq!(ray.direction, vec4::new(-16, 8, -8, 0, 8).unwrap());
}

#[test]
fn pixel_ray_is_not_normalised() {
    let canvas = Canvas { width: 2, height: 2 };
    let m = canvas.image_to_ndc();
    let d = canvas.pixel_ray(&m, 0, 0).direction;
    // (-2, 1, -1): squared length 6, not 1
    let squared = d.data.x * d.data.x + d.data.y * d.data.y + d.data.z * d.data.z;
    assert!(same(squared, d.den * d.den, 6, 1));
}
