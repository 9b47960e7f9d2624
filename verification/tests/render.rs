use raytracer::actor::{Rgba8, Sphere};
use raytracer::canvas::Canvas;
use raytracer::common::vec4;
use raytracer::grid::PixelGrid;
use raytracer::scalar::Scalar;

const RED: Rgba8 = Rgba8 { r: 255, g: 0, b: 0, a: 255 };

fn unit_sphere_in_front() -> Sphere {
    Sphere {
        center: vec4::new(0, 0, -1, 1, 1).unwrap(),
        radius: Scalar::new(1, 2).unwrap(),
        color: RED,
    }
}

fn pixel(image: &PixelGrid, x: u32, y: u32) -> Rgba8 {
    image.get_pixel(x, y).unwrap()
}

#[test]
fn four_by_two_scene_has_one_red_pixel() {
    let canvas = Canvas { width: 4, height: 2 };
    let image = canvas.render(&unit_sphere_in_front());
    assert_eq!(image.width(), 4);
    assert_eq!(image.height(), 2);
    let top = Rgba8 { r: 25, g: 51, b: 165, a: 255 };
    let middle = Rgba8 { r: 114, g: 127, b: 184, a: 255 };
    for x in 0..4 {
        assert_eq!(pixel(&image, x, 0), top);
    }
    assert_eq!(pixel(&image, 0, 1), middle);
    assert_eq!(pixel(&image, 1, 1), middle);
    assert_eq!(pixel(&image, 2, 1), RED);
    assert_eq!(pixel(&image, 3, 1), middle);
}

#[test]
fn render_background_draws_the_built_in_scene() {
    let canvas = Canvas { width: 4, height: 2 };
    let image = canvas.render_background();
    let expected = canvas.render(&unit_sphere_in_front());
    for y in 0..2 {
        for x in 0..4 {
            assert_eq!(pixel(&image, x, y), pixel(&expected, x, y));
        }
    }
    assert_eq!(pixel(&image, 2, 1), RED);
    assert_eq!(pixel(&image, 0, 0), Rgba8 { r: 25, g: 51, b: 165, a: 255 });
}

#[test]
fn far_sphere_leaves_only_the_gradient() {
    let canvas = Canvas { width: 4, height: 4 };
    let sphere = Sphere {
        center: vec4::new(0, 100, 0, 1, 1).unwrap(),
        radius: Scalar::new(1, 2).unwrap(),
        color: RED,
    };
    let image = canvas.render(&sphere);
    let rows = [
        Rgba8 { r: 25, g: 51, b: 165, a: 255 },
        Rgba8 { r: 70, g: 89, b: 175, a: 255 },
        Rgba8 { r: 114, g: 127, b: 184, a: 255 },
        Rgba8 { r: 159, g: 165, b: 194, a: 255 },
    ];
    // the four corners and the centre
    assert_eq!(pixel(&image, 0, 0), rows[0]);
    assert_eq!(pixel(&image, 3, 0), rows[0]);
    assert_eq!(pixel(&image, 0, 3), rows[3]);
    assert_eq!(pixel(&image, 3, 3), rows[3]);
    assert_eq!(pixel(&image, 2, 2), rows[2]);
    // and every pixel of every row
    for y in 0..4u32 {
        for x in 0..4u32 {
            assert_eq!(pixel(&image, x, y), rows[y as usize]);
        }
    }
}

#[test]
fn every_pixel_is_written_and_opaque() {
    let canvas = Canvas { width: 7, height: 5 };
    let image = canvas.render(&unit_sphere_in_front());
    assert_eq!(image.width(), 7);
    assert_eq!(image.height(), 5);
    let blank = Rgba8 { r: 0, g: 0, b: 0, a: 0 };
    let mut red = 0;
    for y in 0..5 {
        for x in 0..7 {
            let p = pixel(&image, x, y);
            assert_ne!(p, blank);
            assert_eq!(p.a, 255);
            if p == RED {
                red += 1;
            }
        }
    }
    assert!(red > 0);
    assert!(red < 35);
}

#[test]
fn a_hit_takes_the_sphere_colour_whatever_its_alpha() {
    let canvas = Canvas { width: 4, height: 2 };
    let glass = Rgba8 { r: 1, g: 2, b: 3, a: 128 };
    let mut sphere = unit_sphere_in_front();
    sphere.color = glass;
    let image = canvas.render(&sphere);
    assert_eq!(pixel(&image, 2, 1), glass);
    assert_eq!(pixel(&image, 1, 1), Rgba8 { r: 114, g: 127, b: 184, a: 255 });
}

#[test]
fn pixels_outside_the_image_are_none() {
    let canvas = Canvas { width: 3, height: 2 };
    let image = canvas.render_background();
    assert!(image.get_pixel(2, 1).is_some());
    assert_eq!(image.get_pixel(3, 0), None);
    assert_eq!(image.get_pixel(0, 2), None);
    assert_eq!(image.get_pixel(u32::MAX, u32::MAX), None);
}

#[test]
fn one_pixel_canvas_looks_past_the_sphere() {
    // the only pixel maps to the upper-left corner of the viewport
    let canvas = Canvas { width: 1, height: 1 };
    let image = canvas.render_background();
    assert_eq!(pixel(&image, 0, 0), Rgba8 { r: 25, g: 51, b: 165, a: 255 });
}

#[test]
fn try_render_agrees_with_render_where_it_can() {
    let canvas = Canvas { width: 5, height: 3 };
    let sphere = unit_sphere_in_front();
    assert!(canvas.can_render_exec(&sphere));
    let tried = canvas.try_render(&sphere).unwrap();
    let plain = canvas.render(&sphere);
    for y in 0..3 {
        for x in 0..5 {
            assert_eq!(pixel(&tried, x, y), pixel(&plain, x, y));
        }
    }
}

#[test]
fn canvas_fits_unless_empty_or_huge() {
    assert!(Canvas { width: 1, height: 1 }.fits());
    assert!(Canvas { width: 640, height: 480 }.fits());
    assert!(Canvas { width: 1 << 19, height: 1 << 19 }.fits());
    assert!(!Canvas { width: 0, height: 480 }.fits());
    assert!(!Canvas { width: 640, height: 0 }.fits());
    // 16 * 2^40 * 2^20 exceeds 63 bits
    assert!(!Canvas { width: 1 << 20, height: 1 << 20 }.fits());
    assert!(!Canvas { width: u32::MAX, height: 1 }.fits());
}

#[test]
fn try_render_refuses_an_empty_canvas() {
    let sphere = unit_sphere_in_front();
    assert!(Canvas { width: 0, height: 2 }.try_render(&sphere).is_none());
    assert!(Canvas { width: 2, height: 0 }.try_render(&sphere).is_none());
    assert!(!Canvas { width: 0, height: 0 }.can_render_exec(&sphere));
}

#[test]
fn try_render_refuses_a_malformed_sphere() {
    let canvas = Canvas { width: 2, height: 2 };
    let mut sphere = unit_sphere_in_front();
    sphere.radius.den = 0;
    assert!(canvas.try_render(&sphere).is_none());
    let mut sphere = unit_sphere_in_front();
    sphere.center.den = -1;
    assert!(canvas.try_render(&sphere).is_none());
}

#[test]
fn try_render_refuses_what_does_not_fit() {
    let sphere = unit_sphere_in_front();
    // the canvas alone is too large
    assert!(!Canvas { width: u32::MAX, height: u32::MAX }.can_render_exec(&sphere));
    assert!(Canvas { width: u32::MAX, height: u32::MAX }.try_render(&sphere).is_none());
    // the sphere is too large for the canvas: 2 * 4 * 2^29 * 2^29 > 2^60
    let canvas = Canvas { width: 2, height: 2 };
    let huge = Sphere {
        center: vec4::new(0, 0, -(1 << 29), 1, 1).unwrap(),
        radius: Scalar::new(1 << 29, 1).unwrap(),
        color: RED,
    };
    assert!(!canvas.can_render_exec(&huge));
    // at the limit it fits: 2 * 4 * 2^29 * 2^28 = 2^60
    let large = Sphere {
        center: vec4::new(0, 0, -(1 << 29), 1, 1).unwrap(),
        radius: Scalar::new(1 << 28, 1).unwrap(),
        color: RED,
    };
    assert!(canvas.can_render_exec(&large));
    let image = canvas.render(&large);
    // the sphere fills a cone of 30 degrees about the axis: only the ray
    // along (0, 0, -1) meets it
    assert_eq!(pixel(&image, 1, 1), RED);
    assert_eq!(pixel(&image, 0, 0), Rgba8 { r: 25, g: 51, b: 165, a: 255 });
    assert_eq!(pixel(&image, 1, 0), Rgba8 { r: 25, g: 51, b: 165, a: 255 });
    assert_eq!(pixel(&image, 0, 1), Rgba8 { r: 114, g: 127, b: 184, a: 255 });
}

#[test]
fn sphere_given_in_other_fractions_renders_the_same() {
    let canvas = Canvas { width: 9, height: 6 };
    let plain = canvas.render(&unit_sphere_in_front());
    let other = Sphere {
        center: vec4::new(0, 0, -6, 6, 6).unwrap(),
        radius: Scalar::new(50, 100).unwrap(),
        color: RED,
    };
    let image = canvas.render(&other);
    for y in 0..6 {
        for x in 0..9 {
            assert_eq!(pixel(&image, x, y), pixel(&plain, x, y));
        }
    }
}

#[test]
fn wide_canvas_shows_a_disc() {
    // 40 by 20: the pixel (x, y) looks along ((x - 20) / 10, (10 - y) / 10, -1)
    // and hits where the squared length of that is below 4/3
    let canvas = Canvas { width: 40, height: 20 };
    let image = canvas.render_background();
    for y in 0..20i64 {
        for x in 0..40i64 {
            let dx = x - 20;
            let dy = 10 - y;
            let hit = 3 * (dx * dx + dy * dy + 100) < 400;
            assert_eq!(pixel(&image, x as u32, y as u32) == RED, hit);
        }
    }
}
