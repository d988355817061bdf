//! The fixed pinhole camera: maps normalized image-plane coordinates to
//! world-space rays.

use vstd::prelude::*;
use crate::fixed::{SCALE, fx_mul_spec, fx_mul, fx_div, fx_div_spec};
use crate::vec3::{Vec3, Point, dot_raw, vec_bounded};
use crate::ray::{Ray, ray};
use crate::hittable::DIR_MAX;

verus! {

/// A pinhole camera: a 16:9 viewport two world units tall, one unit in
/// front of an origin at world zero.
#[derive(Clone, Copy, PartialEq, Eq, Structural, Debug)]
pub struct Camera {
    pub aspect_ratio: i64,
    pub viewport_height: i64,
    pub viewport_width: i64,
    pub focal_length: i64,
    pub origin: Point,
    pub horizontal: Vec3,
    pub vertical: Vec3,
    pub lower_left_corner: Point,
}

impl Camera {
    /// The camera's fields hold exactly the derived viewport geometry.
    pub open spec fn wf(&self) -> bool {
        &&& self.aspect_ratio == 116508
        &&& self.viewport_height == 131072
        &&& self.viewport_width == 233016
        &&& self.focal_length == 65536
        &&& self.origin == (Vec3 { x: 0i64, y: 0i64, z: 0i64 })
        &&& self.horizontal == (Vec3 { x: 233016i64, y: 0i64, z: 0i64 })
        &&& self.vertical == (Vec3 { x: 0i64, y: 131072i64, z: 0i64 })
        &&& self.lower_left_corner == (Vec3 { x: -116508i64, y: -65536i64, z: -65536i64 })
    }

    /// The fixed camera: 16:9 aspect ratio, viewport two units tall, focal
    /// length one, origin at world zero, and the lower-left corner derived
    /// from those.
    pub fn camera() -> (c: Camera)
        ensures
            c.wf(),
            c.aspect_ratio == fx_div_spec(16 * SCALE as int, 9 * SCALE as int),
            c.viewport_width == fx_mul_spec(c.aspect_ratio as int, c.viewport_height as int),
            c.lower_left_corner.x == c.origin.x - fx_div_spec(c.horizontal.x as int, 2 * SCALE as int),
            c.lower_left_corner.y == c.origin.y - fx_div_spec(c.vertical.y as int, 2 * SCALE as int),
            c.lower_left_corner.z == c.origin.z - c.focal_length,
    {
        let aspect_ratio: i64 = fx_div(16 * SCALE, 9 * SCALE);
        let viewport_height: i64 = 2 * SCALE;
        let viewport_width: i64 = fx_mul(aspect_ratio, viewport_height);
        let focal_length: i64 = SCALE;
        let origin: Vec3 = Vec3::zero();
        let horizontal: Vec3 = Vec3::new(viewport_width, 0, 0);
        let vertical: Vec3 = Vec3::new(0, viewport_height, 0);
        let lower_left_corner: Vec3 = origin
            .sub(horizontal.div_s(2 * SCALE))
            .sub(vertical.div_s(2 * SCALE))
            .sub(Vec3::new(0, 0, focal_length));

        Camera {
            aspect_ratio,
            viewport_height,
            viewport_width,
            focal_length,
            origin,
            horizontal,
            vertical,
            lower_left_corner,
        }
    }

    /// The ray through the viewport point `(u, v)`, as `get_ray` builds
    /// it: from the camera origin toward the lower-left corner displaced
    /// by the viewport fractions along the viewport edges.
    pub open spec fn camera_ray(self, u: int, v: int) -> Ray {
        Ray {
            origin: self.origin,
            direction: Vec3 {
                x: (self.lower_left_corner.x + fx_mul_spec(u, self.horizontal.x as int)) as i64,
                y: (self.lower_left_corner.y + fx_mul_spec(v, self.vertical.y as int)) as i64,
                z: self.lower_left_corner.z,
            },
        }
    }

    /// The ray from the camera origin through the viewport point `(u, v)`;
    /// `u` and `v` are fixed-point fractions of the viewport, allowed to
    /// spill slightly outside `[0, 1]` for antialiasing jitter.
    pub fn get_ray(&self, u: i64, v: i64) -> (r: Ray)
        requires
            self.wf(),
            -4 * SCALE as int <= u <= 4 * SCALE as int,
            -4 * SCALE as int <= v <= 4 * SCALE as int,
        ensures
            r == self.camera_ray(u as int, v as int),
            r.origin == self.origin,
            r.direction.x == self.lower_left_corner.x
                + fx_mul_spec(u as int, self.horizontal.x as int),
            r.direction.y == self.lower_left_corner.y
                + fx_mul_spec(v as int, self.vertical.y as int),
            r.direction.z == self.lower_left_corner.z,
            vec_bounded(r.direction, DIR_MAX as int),
            vec_bounded(r.origin, 0x40000000),
            dot_raw(r.direction, r.direction) > 0,
    {
        let dir: Vec3 = self.lower_left_corner
            .add(self.horizontal.scale(u))
            .add(self.vertical.scale(v))
            .sub(self.origin);
        proof {
            let d = dir;
            assert(dot_raw(d, d) > 0) by (nonlinear_arith)
                requires
                    d.z == -65536i64,
            ;
        }
        ray(self.origin, dir)
    }
}

} // verus!
