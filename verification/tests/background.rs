use raytracer::actor::Rgba8;
use raytracer::background::gradient_exec;
use raytracer::canvas::Canvas;
use raytracer::common::vec4;
use raytracer::ray::Ray;

fn looking(y: i64, den: i64) -> Ray {
    Ray {
        origin: vec4::new(0, 0, 0, 1, 1).unwrap(),
        direction: vec4::new(0, y, -den, 0, den).unwrap(),
    }
}

fn background(y: i64, den: i64) -> Rgba8 {
    Canvas { width: 1, height: 1 }.background_color(&looking(y, den))
}

#[test]
fn gradient_is_white_below_and_blue_above() {
    assert_eq!(background(-1, 1), Rgba8 { r: 204, g: 204, b: 204, a: 255 });
    assert_eq!(background(1, 1), Rgba8 { r: 25, g: 51, b: 165, a: 255 });
}

#[test]
fn gradient_in_between_is_rounded_towards_zero() {
    // t = 1/2: (114.75, 127.5, 184.875)
    assert_eq!(background(0, 1), Rgba8 { r: 114, g: 127, b: 184, a: 255 });
    // t = 3/4: (70.125, 89.25, 175.3125)
    assert_eq!(background(1, 2), Rgba8 { r: 70, g: 89, b: 175, a: 255 });
    // t = 1/4: (159.375, 165.75, 194.4375)
    assert_eq!(background(-1, 2), Rgba8 { r: 159, g: 165, b: 194, a: 255 });
}

#[test]
fn gradient_does_not_depend_on_the_fraction_chosen() {
    assert_eq!(background(1, 2), background(50, 100));
    assert_eq!(background(-1, 2), background(-4, 8));
    assert_eq!(background(0, 1), background(0, 977));
}

#[test]
fn gradient_beyond_the_ends_is_not_clamped_before_rounding() {
    // t = 2: (-153, -102, 127.5)
    assert_eq!(background(3, 1), Rgba8 { r: 0, g: 0, b: 127, a: 255 });
    // t = -1: (382.5, 357, 242.25)
    assert_eq!(background(-3, 1), Rgba8 { r: 255, g: 255, b: 242, a: 255 });
    // t = 3/2: the blue channel is 255 * 23/40 = 146.625
    assert_eq!(background(2, 1), Rgba8 { r: 0, g: 0, b: 146, a: 255 });
}

#[test]
fn gradient_never_rises_as_the_ray_turns_up() {
    let mut last = background(-64, 32);
    for n in -63..=64 {
        let next = background(n, 32);
        assert!(next.r <= last.r);
        assert!(next.g <= last.g);
        assert!(next.b <= last.b);
        assert_eq!(next.a, 255);
        last = next;
    }
}

#[test]
fn gradient_at_extreme_components() {
    assert_eq!(gradient_exec(i64::MAX, 1), Rgba8 { r: 0, g: 0, b: 0, a: 255 });
    assert_eq!(gradient_exec(i64::MIN, 1), Rgba8 { r: 255, g: 255, b: 255, a: 255 });
    assert_eq!(gradient_exec(0, i64::MAX), Rgba8 { r: 114, g: 127, b: 184, a: 255 });
    assert_eq!(gradient_exec(i64::MAX, i64::MAX), Rgba8 { r: 25, g: 51, b: 165, a: 255 });
}

#[test]
fn background_ignores_the_canvas_and_the_other_components() {
    let ray = Ray {
        origin: vec4::new(5, 6, 7, 1, 3).unwrap(),
        direction: vec4::new(11, 1, 13, 4, 2).unwrap(),
    };
    let small = Canvas { width: 1, height: 1 }.background_color(&ray);
    let large = Canvas { width: 640, height: 480 }.background_color(&ray);
    assert_eq!(small, large);
    assert_eq!(small, Rgba8 { r: 70, g: 89, b: 175, a: 255 });
}
