//! Rays: an origin plus a direction, evaluated at a fixed-point parameter.

use vstd::prelude::*;
use crate::fixed::{SCALE, fx_mul_spec, fx_mul, lemma_tdiv_exact};
use crate::vec3::{Vec3, Point};

verus! {

/// An immutable origin/direction pair.
#[derive(Clone, Copy, PartialEq, Eq, Structural, Debug)]
pub struct Ray {
    pub origin: Point,
    pub direction: Vec3,
}

/// The x component of the ray evaluated at parameter `t`.
pub open spec fn ray_at_x(r: Ray, t: int) -> int {
    r.origin.x + fx_mul_spec(t, r.direction.x as int)
}

/// The y component of the ray evaluated at parameter `t`.
pub open spec fn ray_at_y(r: Ray, t: int) -> int {
    r.origin.y + fx_mul_spec(t, r.direction.y as int)
}

/// The z component of the ray evaluated at parameter `t`.
pub open spec fn ray_at_z(r: Ray, t: int) -> int {
    r.origin.z + fx_mul_spec(t, r.direction.z as int)
}

impl Ray {
    /// The ray's starting point.
    pub fn origin(&self) -> (p: Point)
        ensures
            p == self.origin,
    {
        self.origin
    }

    /// The ray's direction.
    pub fn direction(&self) -> (d: Vec3)
        ensures
            d == self.direction,
    {
        self.direction
    }

    /// The point `origin + t * direction`.
    pub fn at(&self, t: i64) -> (p: Point)
        requires
            i64::MIN <= fx_mul_spec(t as int, self.direction.x as int) <= i64::MAX,
            i64::MIN <= fx_mul_spec(t as int, self.direction.y as int) <= i64::MAX,
            i64::MIN <= fx_mul_spec(t as int, self.direction.z as int) <= i64::MAX,
            i64::MIN <= ray_at_x(*self, t as int) <= i64::MAX,
            i64::MIN <= ray_at_y(*self, t as int) <= i64::MAX,
            i64::MIN <= ray_at_z(*self, t as int) <= i64::MAX,
        ensures
            p.x == ray_at_x(*self, t as int),
            p.y == ray_at_y(*self, t as int),
            p.z == ray_at_z(*self, t as int),
    {
        self.origin.add(self.direction.scale(t))
    }
}

/// The ray with the given origin and direction.
pub fn ray(origin: Point, direction: Vec3) -> (r: Ray)
    ensures
        r.origin == origin,
        r.direction == direction,
{
    Ray { origin, direction }
}

/// A ray starts at its origin and reaches `origin + direction` one unit of
/// parameter along: evaluation at 0 gives the origin, at 1 the origin plus
/// the direction, exactly.
pub proof fn lemma_ray_at_endpoints(r: Ray)
    ensures
        ray_at_x(r, 0) == r.origin.x,
        ray_at_y(r, 0) == r.origin.y,
        ray_at_z(r, 0) == r.origin.z,
        ray_at_x(r, SCALE as int) == r.origin.x + r.direction.x,
        ray_at_y(r, SCALE as int) == r.origin.y + r.direction.y,
        ray_at_z(r, SCALE as int) == r.origin.z + r.direction.z,
{
    lemma_tdiv_exact(r.direction.x as int, SCALE as int);
    lemma_tdiv_exact(r.direction.y as int, SCALE as int);
    lemma_tdiv_exact(r.direction.z as int, SCALE as int);
    assert((SCALE as int) * (r.direction.x as int) == (r.direction.x as int) * (SCALE as int));
    assert((SCALE as int) * (r.direction.y as int) == (r.direction.y as int) * (SCALE as int));
    assert((SCALE as int) * (r.direction.z as int) == (r.direction.z as int) * (SCALE as int));
}

} // verus!
