//! Vector algebra, fixed-point scalars, rays, and random sampling.

use ray_tracer::fixed::{ONE, SCALE};
use ray_tracer::ray::ray;
use ray_tracer::utility::{
    random_float, random_float_in_range, random_in_hemisphere, random_in_unit_sphere,
    random_unit_vector,
};
use ray_tracer::vec3::Vec3;

#[test]
fn vec3_componentwise_arithmetic() {
    let a = Vec3::new(SCALE, 2 * SCALE, -3 * SCALE);
    let b = Vec3::new(10, -20, 30);
    let sum = a.add(b);
    assert_eq!(sum, Vec3::new(SCALE + 10, 2 * SCALE - 20, -3 * SCALE + 30));
    let diff = a.sub(b);
    assert_eq!(diff, Vec3::new(SCALE - 10, 2 * SCALE + 20, -3 * SCALE - 30));
    let neg = b.neg();
    assert_eq!(neg, Vec3::new(-10, 20, -30));
}

#[test]
fn vec3_scale_and_divide() {
    let v = Vec3::new(2 * SCALE, -4 * SCALE, 6 * SCALE);
    // Scaling by one-half halves every component.
    assert_eq!(v.scale(SCALE / 2), Vec3::new(SCALE, -2 * SCALE, 3 * SCALE));
    // Dividing by two (as a fixed-point scalar) does the same.
    assert_eq!(v.div_s(2 * SCALE), Vec3::new(SCALE, -2 * SCALE, 3 * SCALE));
}

#[test]
fn vec3_add_sub_are_mutual_inverses() {
    let a = Vec3::new(12345, -67890, 1);
    let b = Vec3::new(-54321, 9876, -2);
    assert_eq!(a.add(b).sub(b), a);
    assert_eq!(a.sub(b).add(b), a);
}

#[test]
fn dot_of_self_is_length_squared() {
    let v = Vec3::new(3 * SCALE, -4 * SCALE, 12 * SCALE);
    assert_eq!(Vec3::dot(&v, &v), v.length_squared());
    let w = Vec3::new(7, 0, -9);
    assert_eq!(Vec3::dot(&w, &w), w.length_squared());
}

#[test]
fn dot_matches_hand_computation() {
    let a = Vec3::new(SCALE, 2 * SCALE, 3 * SCALE);
    let b = Vec3::new(4 * SCALE, -5 * SCALE, 6 * SCALE);
    // 1*4 - 2*5 + 3*6 = 12 world units.
    assert_eq!(Vec3::dot(&a, &b), 12 * SCALE);
}

#[test]
fn length_of_pythagorean_triple() {
    let v = Vec3::new(3 * SCALE, 4 * SCALE, 0);
    assert_eq!(v.length(), 5 * SCALE);
    assert_eq!(v.length_squared(), 25 * SCALE);
}

#[test]
fn normalize_has_unit_length_within_tolerance() {
    let cases = [
        Vec3::new(3 * SCALE, 4 * SCALE, 0),
        Vec3::new(SCALE, 2 * SCALE, 2 * SCALE),
        Vec3::new(-7 * SCALE, SCALE / 3, 9999),
        Vec3::new(1000, -2000, 3000),
    ];
    // Rounding grows as the vector shrinks: a fraction-of-a-unit vector
    // keeps fewer significant fixed-point digits than a multi-unit one.
    for v in cases {
        let n = v.normalize();
        let ls = n.length_squared();
        let tolerance = if v.length() >= SCALE { 8 } else { 64 };
        assert!(
            (ls - ONE).abs() <= tolerance,
            "normalized squared length {} strays from one unit",
            ls
        );
    }
}

#[test]
fn normalize_axis_aligned_is_exactly_unit() {
    let n = Vec3::new(17 * SCALE, 0, 0).normalize();
    assert_eq!(n, Vec3::new(SCALE, 0, 0));
    assert_eq!(n.length_squared(), ONE);
}

#[test]
fn ray_at_zero_is_origin_and_at_one_adds_direction() {
    let r = ray(
        Vec3::new(SCALE, 2 * SCALE, 3 * SCALE),
        Vec3::new(4 * SCALE, 5 * SCALE, 6 * SCALE),
    );
    assert_eq!(r.at(0), r.origin());
    assert_eq!(r.at(ONE), r.origin().add(r.direction()));
}

#[test]
fn ray_getters_return_fields() {
    let o = Vec3::new(1, 2, 3);
    let d = Vec3::new(4, 5, 6);
    let r = ray(o, d);
    assert_eq!(r.origin(), o);
    assert_eq!(r.direction(), d);
    // Halfway along: each component moves by half the direction.
    assert_eq!(r.at(SCALE / 2), Vec3::new(3, 4, 6));
}

#[test]
fn random_float_is_in_half_open_unit_interval() {
    for _ in 0..200 {
        let x = random_float();
        assert!(0 <= x && x < ONE);
    }
}

#[test]
fn random_float_in_range_stays_in_range() {
    // A width-one range pins the result: the wrapper cannot echo its input.
    assert_eq!(random_float_in_range(5, 6), 5);
    for _ in 0..200 {
        let x = random_float_in_range(-3, 10);
        assert!(-3 <= x && x < 10);
    }
}

#[test]
fn random_in_unit_sphere_is_nonzero_and_inside() {
    for _ in 0..100 {
        let v = random_in_unit_sphere();
        let ls = v.length_squared();
        assert!(0 < ls && ls < SCALE);
        assert!(v.x.abs() <= SCALE && v.y.abs() <= SCALE && v.z.abs() <= SCALE);
    }
}

#[test]
fn random_unit_vector_is_bounded_by_one_unit() {
    for _ in 0..100 {
        let v = random_unit_vector();
        assert!(v.x.abs() <= SCALE && v.y.abs() <= SCALE && v.z.abs() <= SCALE);
    }
}

#[test]
fn random_unit_vector_has_near_unit_length() {
    for _ in 0..100 {
        let v = random_unit_vector();
        let ls = v.length_squared();
        assert!(SCALE - 7 <= ls && ls <= SCALE + 518, "squared length {} not near one", ls);
    }
}

#[test]
fn random_in_hemisphere_does_not_point_away() {
    let normal = Vec3::new(0, SCALE, 0);
    for _ in 0..100 {
        let v = random_in_hemisphere(normal);
        assert!(Vec3::dot(&v, &normal) >= 0);
        let ls = v.length_squared();
        assert!(0 < ls && ls < SCALE);
    }
}
