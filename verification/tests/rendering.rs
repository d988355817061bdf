//! The camera, the color estimator, and tone mapping.

use ray_tracer::camera::Camera;
use ray_tracer::fixed::{ONE, SCALE};
use ray_tracer::hittable::HittableList;
use ray_tracer::objects::Sphere;
use ray_tracer::ray::ray;
use ray_tracer::render::{ray_color, sample_pixel, tonemap_pixel, unit_vector, MAX_DEPTH};
use ray_tracer::vec3::Vec3;

fn standard_scene() -> HittableList<Sphere> {
    let mut world: HittableList<Sphere> = HittableList::hittable_list();
    world.push(Sphere::sphere(Vec3::new(0, 0, -SCALE), SCALE / 2));
    world.push(Sphere::sphere(
        Vec3::new(0, -(100 * SCALE + SCALE / 2), -SCALE),
        100 * SCALE,
    ));
    world
}

#[test]
fn camera_derives_viewport_geometry() {
    let cam = Camera::camera();
    assert_eq!(cam.aspect_ratio, 116508); // 16/9, truncated
    assert_eq!(cam.viewport_height, 2 * SCALE);
    assert_eq!(cam.viewport_width, 233016);
    assert_eq!(cam.focal_length, SCALE);
    assert_eq!(cam.origin, Vec3::new(0, 0, 0));
    assert_eq!(cam.horizontal, Vec3::new(233016, 0, 0));
    assert_eq!(cam.vertical, Vec3::new(0, 2 * SCALE, 0));
    assert_eq!(cam.lower_left_corner, Vec3::new(-116508, -SCALE, -SCALE));
}

#[test]
fn get_ray_maps_viewport_corners() {
    let cam = Camera::camera();
    let bottom_left = cam.get_ray(0, 0);
    assert_eq!(bottom_left.origin, Vec3::new(0, 0, 0));
    assert_eq!(bottom_left.direction, Vec3::new(-116508, -SCALE, -SCALE));
    let top_right = cam.get_ray(ONE, ONE);
    assert_eq!(top_right.direction, Vec3::new(116508, SCALE, -SCALE));
}

#[test]
fn unit_vector_rescales_direction() {
    let u = unit_vector(Vec3::new(0, 0, -7 * SCALE));
    assert_eq!(u, Vec3::new(0, 0, -SCALE));
}

#[test]
fn ray_color_at_zero_depth_is_black() {
    let world = standard_scene();
    let r = ray(Vec3::new(0, 0, 0), Vec3::new(0, 0, -SCALE));
    assert_eq!(ray_color(&r, &world, 0), Vec3::new(0, 0, 0));
    let up = ray(Vec3::new(0, 0, 0), Vec3::new(0, SCALE, 0));
    assert_eq!(ray_color(&up, &world, 0), Vec3::new(0, 0, 0));
}

#[test]
fn background_straight_up_is_pure_sky_blue() {
    let world: HittableList<Sphere> = HittableList::hittable_list();
    let up = ray(Vec3::new(0, 0, 0), Vec3::new(0, SCALE, 0));
    assert_eq!(ray_color(&up, &world, MAX_DEPTH), Vec3::new(SCALE / 2, 45875, SCALE));
}

#[test]
fn background_straight_down_is_pure_white() {
    let world: HittableList<Sphere> = HittableList::hittable_list();
    let down = ray(Vec3::new(0, 0, 0), Vec3::new(0, -SCALE, 0));
    assert_eq!(ray_color(&down, &world, MAX_DEPTH), Vec3::new(SCALE, SCALE, SCALE));
}

#[test]
fn background_horizontal_is_even_blend() {
    let world: HittableList<Sphere> = HittableList::hittable_list();
    let level = ray(Vec3::new(0, 0, 0), Vec3::new(SCALE, 0, 0));
    // Blend factor one-half: each channel is half white plus half blue.
    assert_eq!(ray_color(&level, &world, MAX_DEPTH), Vec3::new(49152, 55705, SCALE));
}

#[test]
fn ray_color_on_hit_stays_within_unit_range() {
    let world = standard_scene();
    for _ in 0..50 {
        let r = ray(Vec3::new(0, 0, 0), Vec3::new(0, 0, -SCALE));
        let c = ray_color(&r, &world, 16);
        assert!(0 <= c.x && c.x <= SCALE);
        assert!(0 <= c.y && c.y <= SCALE);
        assert!(0 <= c.z && c.z <= SCALE);
    }
}

#[test]
fn tonemap_of_accumulated_pure_white_is_full_byte() {
    // N identical pure-white samples: sqrt(1/N * N) = 1, clamped and
    // scaled to 255 on every channel.
    for n in [1i64, 2, 7, 100, 1000] {
        let acc = Vec3::new(n * ONE, n * ONE, n * ONE);
        assert_eq!(tonemap_pixel(acc, n), (255, 255, 255));
    }
}

#[test]
fn tonemap_of_black_is_zero() {
    assert_eq!(tonemap_pixel(Vec3::new(0, 0, 0), 100), (0, 0, 0));
}

#[test]
fn tonemap_applies_gamma_to_half_intensity() {
    // sqrt(0.5) = 0.7071...: one channel at half intensity maps to 181.
    let px = tonemap_pixel(Vec3::new(SCALE / 2, 0, 0), 1);
    assert_eq!(px, (181, 0, 0));
}

#[test]
fn tonemap_averages_over_samples() {
    // Four samples summing to two units average to one-half per channel.
    let px = tonemap_pixel(Vec3::new(2 * SCALE, 2 * SCALE, 2 * SCALE), 4);
    assert_eq!(px, (181, 181, 181));
}

#[test]
fn sample_pixel_on_empty_scene_saturates_blue() {
    // The background's blue channel is one unit whatever the jitter, so
    // the accumulated blue is exactly samples * ONE and tone-maps to 255.
    let cam = Camera::camera();
    let world: HittableList<Sphere> = HittableList::hittable_list();
    let px = sample_pixel(&cam, &world, 3, 2, 16, 9, 8, MAX_DEPTH);
    assert_eq!(px.2, 255);
}

#[test]
fn sample_pixel_renders_standard_scene() {
    let cam = Camera::camera();
    let world = standard_scene();
    // A pixel near the image center looks at the small sphere; the
    // estimate is random but the sky's blue never exceeds a full byte.
    let px = sample_pixel(&cam, &world, 8, 4, 16, 9, 4, 8);
    assert!(px.0 <= 255 && px.1 <= 255 && px.2 <= 255);
}
