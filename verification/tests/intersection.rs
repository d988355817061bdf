//! Sphere intersection, hit records, and the nearest-hit scene scan.

use ray_tracer::fixed::SCALE;
use ray_tracer::hittable::{HitRecord, HitResult, Hittable, HittableList, T_CAP};
use ray_tracer::objects::Sphere;
use ray_tracer::ray::ray;
use ray_tracer::vec3::Vec3;

#[test]
fn head_on_sphere_hit_reports_near_root_and_front_face() {
    // A ray from the origin toward (0,0,-1) against a sphere centered at
    // (0,0,-1) with radius one-half: the hit is at t = 0.5 exactly.
    let r = ray(Vec3::new(0, 0, 0), Vec3::new(0, 0, -SCALE));
    let s = Sphere::sphere(Vec3::new(0, 0, -SCALE), SCALE / 2);
    let res = s.hit(&r, 0, T_CAP);
    assert!(res.hit);
    assert_eq!(res.hit_record.t, SCALE / 2);
    assert_eq!(res.hit_record.normal, Vec3::new(0, 0, SCALE));
    assert!(res.hit_record.front_face);
    assert_eq!(res.hit_record.p, Vec3::new(0, 0, -SCALE / 2));
}

#[test]
fn near_root_below_t_min_is_a_miss_even_when_far_root_is_inside() {
    // From the center of a sphere the near root is negative; only the near
    // root is ever tried, so this counts as a miss although the ray leaves
    // the sphere through a geometrically valid far intersection.
    let r = ray(Vec3::new(0, 0, 0), Vec3::new(0, 0, -SCALE));
    let s = Sphere::sphere(Vec3::new(0, 0, 0), SCALE / 2);
    let res = s.hit(&r, 0, T_CAP);
    assert!(!res.hit);
}

#[test]
fn window_upper_bound_is_inclusive() {
    let r = ray(Vec3::new(0, 0, 0), Vec3::new(0, 0, -SCALE));
    let s = Sphere::sphere(Vec3::new(0, 0, -SCALE), SCALE / 2);
    // The root is exactly 0.5: a window ending there still hits...
    assert!(s.hit(&r, 0, SCALE / 2).hit);
    // ...and one ending just below it misses.
    assert!(!s.hit(&r, 0, SCALE / 2 - 1).hit);
    // Likewise the lower bound: a window starting past the root misses.
    assert!(!s.hit(&r, SCALE / 2 + 1, T_CAP).hit);
}

#[test]
fn ray_missing_the_sphere_reports_no_hit() {
    let r = ray(Vec3::new(0, 0, 0), Vec3::new(0, SCALE, 0));
    let s = Sphere::sphere(Vec3::new(0, 0, -SCALE), SCALE / 2);
    assert!(!s.hit(&r, 0, T_CAP).hit);
}

#[test]
fn scene_returns_nearest_of_two_overlapping_spheres() {
    // Two overlapping spheres along the same ray: the scan must return the
    // record with the smaller parameter, never the farther one.
    let r = ray(Vec3::new(0, 0, 0), Vec3::new(0, 0, -SCALE));
    let far = Sphere::sphere(Vec3::new(0, 0, -2 * SCALE), SCALE / 2);
    let near = Sphere::sphere(Vec3::new(0, 0, -(3 * SCALE / 2)), SCALE / 2);

    // Alone, the far sphere is hit at t = 1.5 and the near one at t = 1.0.
    assert_eq!(far.hit(&r, 0, T_CAP).hit_record.t, 3 * SCALE / 2);
    assert_eq!(near.hit(&r, 0, T_CAP).hit_record.t, SCALE);

    let mut world: HittableList<Sphere> = HittableList::hittable_list();
    world.push(far);
    world.push(near);
    let res = world.hit(&r, 0, T_CAP);
    assert!(res.hit);
    assert_eq!(res.hit_record.t, SCALE);

    // The same scene in the opposite insertion order gives the same answer.
    let mut reversed: HittableList<Sphere> = HittableList::hittable_list();
    reversed.push(near);
    reversed.push(far);
    let res2 = reversed.hit(&r, 0, T_CAP);
    assert!(res2.hit);
    assert_eq!(res2.hit_record.t, SCALE);
}

#[test]
fn empty_scene_reports_no_hit() {
    let r = ray(Vec3::new(0, 0, 0), Vec3::new(0, 0, -SCALE));
    let world: HittableList<Sphere> = HittableList::hittable_list();
    assert!(!world.hit(&r, 0, T_CAP).hit);
}

#[test]
fn a_miss_carries_the_blank_record() {
    let r = ray(Vec3::new(0, 0, 0), Vec3::new(0, SCALE, 0));
    let s = Sphere::sphere(Vec3::new(0, 0, -SCALE), SCALE / 2);
    let res = s.hit(&r, 0, T_CAP);
    assert!(!res.hit);
    assert_eq!(res.hit_record, HitRecord::hit_record());

    let mut world: HittableList<Sphere> = HittableList::hittable_list();
    world.push(s);
    let res2 = world.hit(&r, 0, T_CAP);
    assert!(!res2.hit);
    assert_eq!(res2.hit_record, HitRecord::hit_record());
}

#[test]
fn recorded_normals_have_near_unit_length() {
    // The reported normal is the center-to-hit-point offset divided by
    // the radius; on a hit it stays near unit length, within the rounding
    // the quadratic root and the divisions cost.
    let cases = [
        (Vec3::new(0, 0, -2 * SCALE), SCALE / 2, Vec3::new(0, 0, -SCALE)),
        (Vec3::new(SCALE, 0, -SCALE), SCALE / 2, Vec3::new(SCALE, 0, -SCALE)),
        (Vec3::new(SCALE / 4, SCALE / 3, -3 * SCALE), 2 * SCALE, Vec3::new(100, -3000, -SCALE)),
        (Vec3::new(0, -(100 * SCALE + SCALE / 2), -SCALE), 100 * SCALE, Vec3::new(0, -SCALE, -SCALE)),
    ];
    for (center, radius, dir) in cases {
        let r = ray(Vec3::new(0, 0, 0), dir);
        let res = Sphere::sphere(center, radius).hit(&r, 0, T_CAP);
        assert!(res.hit);
        let ls = res.hit_record.normal.length_squared();
        assert!(
            (ls - SCALE).abs() <= 512,
            "normal squared length {} strays from one unit",
            ls
        );
    }
}

#[test]
fn set_face_normal_keeps_opposing_normal() {
    let r = ray(Vec3::new(0, 0, 0), Vec3::new(0, 0, -SCALE));
    let mut rec = HitRecord::hit_record();
    rec.set_face_normal(&r, Vec3::new(0, 0, SCALE));
    assert!(rec.front_face);
    assert_eq!(rec.normal, Vec3::new(0, 0, SCALE));
}

#[test]
fn set_face_normal_flips_aligned_normal() {
    let r = ray(Vec3::new(0, 0, 0), Vec3::new(0, 0, -SCALE));
    let mut rec = HitRecord::hit_record();
    rec.set_face_normal(&r, Vec3::new(0, 0, -SCALE));
    assert!(!rec.front_face);
    assert_eq!(rec.normal, Vec3::new(0, 0, SCALE));
}

#[test]
fn hit_record_and_hit_result_constructors() {
    let rec = HitRecord::hit_record();
    assert_eq!(rec.p, Vec3::new(0, 0, 0));
    assert_eq!(rec.normal, Vec3::new(0, 0, 0));
    assert_eq!(rec.t, 0);
    assert!(!rec.front_face);

    let res = HitResult::hit_result(true, rec);
    assert!(res.hit);
    assert_eq!(res.hit_record, rec);
}

#[test]
fn sphere_constructor_stores_fields() {
    let s = Sphere::sphere(Vec3::new(1, 2, 3), 42);
    assert_eq!(s.center, Vec3::new(1, 2, 3));
    assert_eq!(s.radius, 42);
}
