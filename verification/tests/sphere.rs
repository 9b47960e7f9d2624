use raytracer::actor::{Renderable, Rgba8, Sphere};
use raytracer::common::vec4;
use raytracer::ray::Ray;
use raytracer::scalar::Scalar;

const RED: Rgba8 = Rgba8 { r: 255, g: 0, b: 0, a: 255 };

fn sphere(x: i64, y: i64, z: i64, den: i64, rn: i64, rd: i64) -> Sphere {
    Sphere {
        center: vec4::new(x, y, z, den, den).unwrap(),
        radius: Scalar::new(rn, rd).unwrap(),
        color: RED,
    }
}

fn ray(o: (i64, i64, i64), od: i64, d: (i64, i64, i64), dd: i64) -> Ray {
    Ray {
        origin: vec4::new(o.0, o.1, o.2, od, od).unwrap(),
        direction: vec4::new(d.0, d.1, d.2, 0, dd).unwrap(),
    }
}

#[test]
fn ray_through_the_centre_hits() {
    let s = sphere(0, 0, -1, 1, 1, 2);
    assert!(s.is_hit(&ray((0, 0, 0), 1, (0, 0, -1), 1)));
    // from elsewhere, aimed at the centre
    assert!(s.is_hit(&ray((3, 4, 5), 1, (-3, -4, -6), 1)));
}

#[test]
fn tangent_ray_misses() {
    // passes the centre (0, 0, -1) at distance 1/2, the radius
    let s = sphere(0, 0, -1, 1, 1, 2);
    assert!(!s.is_hit(&ray((1, 0, 0), 2, (0, 0, -1), 1)));
    assert!(!s.is_hit(&ray((0, -1, 0), 2, (0, 0, 7), 3)));
    // a 3-4-5 triangle: the line from the origin along (4, 3, 0) passes
    // (5, 0, 0) at distance 3
    let s = sphere(5, 0, 0, 1, 3, 1);
    assert!(!s.is_hit(&ray((0, 0, 0), 1, (4, 3, 0), 1)));
}

#[test]
fn ray_just_inside_the_tangent_hits_and_just_outside_misses() {
    let s = sphere(0, 0, -1, 1, 1, 2);
    assert!(s.is_hit(&ray((499, 0, 0), 1000, (0, 0, -1), 1)));
    assert!(!s.is_hit(&ray((501, 0, 0), 1000, (0, 0, -1), 1)));
}

#[test]
fn hit_does_not_depend_on_the_length_of_the_direction() {
    let s = sphere(0, 0, -1, 1, 1, 2);
    for k in [1i64, 2, 10, 1000] {
        assert!(s.is_hit(&ray((0, 0, 0), 1, (0, 0, -k), 1)));
        assert!(s.is_hit(&ray((0, 0, 0), 1, (0, 0, -1), k)));
        assert!(!s.is_hit(&ray((0, 0, 0), 1, (0, k, -k), 1)));
        assert!(!s.is_hit(&ray((1, 0, 0), 2, (0, 0, -k), 1)));
    }
}

#[test]
fn sphere_behind_the_origin_is_hit_by_the_line() {
    let s = sphere(0, 0, 5, 1, 1, 1);
    assert!(s.is_hit(&ray((0, 0, 0), 1, (0, 0, -1), 1)));
}

#[test]
fn ray_far_from_the_sphere_misses() {
    let s = sphere(0, 100, 0, 1, 1, 2);
    assert!(!s.is_hit(&ray((0, 0, 0), 1, (0, 1, -1), 1)));
    assert!(!s.is_hit(&ray((0, 0, 0), 1, (-2, 1, -1), 1)));
}

#[test]
fn the_fourth_component_is_ignored() {
    let s = Sphere {
        center: vec4::new(0, 0, -1, 9, 1).unwrap(),
        radius: Scalar::new(1, 2).unwrap(),
        color: RED,
    };
    let r = Ray {
        origin: vec4::new(0, 0, 0, -4, 1).unwrap(),
        direction: vec4::new(0, 0, -1, 7, 1).unwrap(),
    };
    assert!(s.is_hit(&r));
}

#[test]
fn zero_direction_never_hits() {
    let s = sphere(0, 0, -1, 1, 1, 2);
    assert!(!s.is_hit(&ray((0, 0, 0), 1, (0, 0, 0), 1)));
    // not even from inside the sphere
    assert!(!s.is_hit(&ray((0, 0, -1), 1, (0, 0, 0), 1)));
}

#[test]
fn negative_radius_acts_as_its_absolute_value() {
    let s = sphere(0, 0, -1, 1, -1, 2);
    assert!(s.is_hit(&ray((0, 0, 0), 1, (0, 0, -1), 1)));
    assert!(!s.is_hit(&ray((1, 0, 0), 2, (0, 0, -1), 1)));
}

#[test]
fn zero_radius_is_never_hit() {
    let s = sphere(0, 0, -1, 1, 0, 1);
    assert!(!s.is_hit(&ray((0, 0, 0), 1, (0, 0, -1), 1)));
}

#[test]
fn render_gives_the_colour_on_a_hit_and_transparent_black_on_a_miss() {
    let s = sphere(0, 0, -1, 1, 1, 2);
    assert_eq!(s.render(&ray((0, 0, 0), 1, (0, 0, -1), 1)), RED);
    assert_eq!(
        s.render(&ray((0, 0, 0), 1, (0, 1, 0), 1)),
        Rgba8 { r: 0, g: 0, b: 0, a: 0 }
    );
}

#[test]
fn fractional_centre_and_origin() {
    // centre (1/3, 1/3, -2/3), radius 1/7; the line from (1/5, 0, 0) to the
    // centre hits, the parallel line through the origin passes too far away
    let s = sphere(1, 1, -2, 3, 1, 7);
    let towards = (2, 5, -10); // 15 * (centre - origin)
    assert!(s.is_hit(&ray((1, 0, 0), 5, towards, 15)));
    assert!(!s.is_hit(&ray((0, 0, 0), 1, towards, 15)));
}

#[test]
fn in_range_follows_the_product_of_the_magnitudes() {
    let s = sphere(0, 0, -1, 1, 1, 2);
    assert!(s.in_range_exec(&ray((0, 0, 0), 1, (0, 0, -1), 1)));
    // 2^30 * 2^30 is the limit
    let far = sphere(1 << 30, 0, 0, 1, 1, 1);
    assert!(far.in_range_exec(&ray((0, 0, 0), 1, (1 << 30, 0, 0), 1)));
    assert!(!far.in_range_exec(&ray((0, 0, 0), 1, ((1 << 30) + 1, 0, 0), 1)));
    assert!(!far.in_range_exec(&ray((0, 0, 0), 2, (1 << 30, 0, 0), 1)));
    // the largest magnitudes there are
    let extreme = Sphere {
        center: vec4::new(i64::MIN, 0, 0, 1, 1).unwrap(),
        radius: Scalar::new(i64::MIN, i64::MAX).unwrap(),
        color: RED,
    };
    assert!(!extreme.in_range_exec(&ray((i64::MIN, 0, 0), i64::MAX, (i64::MIN, 0, 0), 1)));
    assert!(!extreme.in_range_exec(&ray((0, 0, 0), 1, (0, 0, -1), 1)));
}

#[test]
fn hit_at_the_limit_of_the_range() {
    let far = sphere(1 << 30, 0, 0, 1, 1, 1);
    // along the x axis, through the centre
    assert!(far.is_hit(&ray((0, 0, 0), 1, (1 << 30, 0, 0), 1)));
    // at height one: tangent
    assert!(!far.is_hit(&ray((0, 1, 0), 1, (1 << 30, 0, 0), 1)));
    // the same direction over another denominator
    assert!(far.is_hit(&ray((0, 0, 0), 1, (1 << 30, 0, 0), 1 << 30)));
    let centre_far = sphere(1 << 20, 0, 0, 1, 1, 1);
    assert!(centre_far.is_hit(&ray((0, 0, 0), 1, (1 << 20, 0, 0), 1)));
    assert!(!centre_far.is_hit(&ray((0, 0, 0), 1, (1 << 20, 2, 0), 1)));
    assert!(centre_far.is_hit(&ray((0, 0, 0), 1, (1 << 21, 1, 0), 1)));
}
