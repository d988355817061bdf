//! The sphere primitive: closed-form quadratic intersection.

use vstd::prelude::*;
use crate::fixed::{SCALE, tdiv, fx_div_spec, fx_mul_spec};
use crate::vec3::{Vec3, Point, dot_raw, vec_bounded, lemma_mul_bound};
use crate::fixed::{sqrt_int, isqrt_u128, div_trunc, lemma_sqrt_int_props, lemma_tdiv_bounds,
    lemma_tdiv_monotone, lemma_tdiv_neg};
use crate::ray::{Ray, ray_at_x, ray_at_y, ray_at_z};
use crate::hittable::{HitRecord, HitResult, Hittable, hit_ray_ok, T_CAP, DIR_MAX, ORIGIN_MAX,
    NORMAL_MAX};

verus! {

/// Componentwise bound on a sphere's center, and upper bound on its radius.
pub const CENTER_MAX: i64 = 0x10000000;

/// A sphere: a center and a positive radius.
#[derive(Clone, Copy, PartialEq, Eq, Structural, Debug)]
pub struct Sphere {
    pub center: Point,
    pub radius: i64,
}

impl Sphere {
    /// The sphere with the given center and radius.
    pub fn sphere(center: Point, radius: i64) -> (s: Sphere)
        requires
            vec_bounded(center, CENTER_MAX as int),
            0 < radius <= CENTER_MAX,
        ensures
            s.center == center,
            s.radius == radius,
            s.wf(),
    {
        Sphere { center, radius }
    }

    /// The quadratic's leading coefficient: the direction dotted with
    /// itself, unscaled.
    pub open spec fn a_of(self, r: Ray) -> int {
        dot_raw(r.direction, r.direction)
    }

    /// Half the quadratic's middle coefficient: the center-to-origin offset
    /// dotted with the direction, unscaled.
    pub open spec fn half_b_of(self, r: Ray) -> int {
        (r.origin.x - self.center.x) * r.direction.x
            + (r.origin.y - self.center.y) * r.direction.y
            + (r.origin.z - self.center.z) * r.direction.z
    }

    /// The quadratic's constant coefficient: the offset's squared length
    /// minus the squared radius, unscaled.
    pub open spec fn c_of(self, r: Ray) -> int {
        (r.origin.x - self.center.x) * (r.origin.x - self.center.x)
            + (r.origin.y - self.center.y) * (r.origin.y - self.center.y)
            + (r.origin.z - self.center.z) * (r.origin.z - self.center.z)
            - (self.radius as int) * (self.radius as int)
    }

    /// The quadratic's discriminant (with the factor of four cancelled).
    pub open spec fn disc_of(self, r: Ray) -> int {
        self.half_b_of(r) * self.half_b_of(r) - self.a_of(r) * self.c_of(r)
    }

    /// The near root of the quadratic, as a fixed-point parameter: the far
    /// root is never tried, so a ray whose near root misses the window is a
    /// miss even when the far root would fall inside it.
    pub open spec fn root_of(self, r: Ray) -> int {
        tdiv((-self.half_b_of(r) - sqrt_int(self.disc_of(r))) * (SCALE as int), self.a_of(r))
    }

    /// The outward normal's x component at the reported hit point: the
    /// offset from the center, divided by the radius.
    pub open spec fn outward_x(self, r: Ray) -> int {
        fx_div_spec(ray_at_x(r, self.root_of(r)) - self.center.x, self.radius as int)
    }

    /// The outward normal's y component at the reported hit point.
    pub open spec fn outward_y(self, r: Ray) -> int {
        fx_div_spec(ray_at_y(r, self.root_of(r)) - self.center.y, self.radius as int)
    }

    /// The outward normal's z component at the reported hit point.
    pub open spec fn outward_z(self, r: Ray) -> int {
        fx_div_spec(ray_at_z(r, self.root_of(r)) - self.center.z, self.radius as int)
    }

    /// The outward normal at the reported hit point, as a vector.
    pub open spec fn outward_of(self, r: Ray) -> Vec3 {
        Vec3 {
            x: self.outward_x(r) as i64,
            y: self.outward_y(r) as i64,
            z: self.outward_z(r) as i64,
        }
    }

    /// Whether the outward normal already opposes the incoming ray, by the
    /// exact sign of the raw dot product.
    pub open spec fn front_of(self, r: Ray) -> bool {
        dot_raw(r.direction, self.outward_of(r)) < 0
    }
}

impl Hittable for Sphere {
    /// Center within the working bounds; radius positive and bounded.
    open spec fn wf(&self) -> bool {
        vec_bounded(self.center, CENTER_MAX as int) && 0 < self.radius <= CENTER_MAX
    }

    /// The sphere reports an intersection when the discriminant is
    /// nonnegative.
    open spec fn hits(&self, r: Ray) -> bool {
        self.disc_of(r) >= 0
    }

    /// The reported parameter is the quadratic's near root.
    open spec fn hit_t(&self, r: Ray) -> int {
        self.root_of(r)
    }

    /// The reported record: the hit point, the front-face-corrected
    /// normal, and the near root.
    open spec fn hit_rec(&self, r: Ray) -> HitRecord {
        let ow = self.outward_of(r);
        HitRecord {
            p: Vec3 {
                x: ray_at_x(r, self.root_of(r)) as i64,
                y: ray_at_y(r, self.root_of(r)) as i64,
                z: ray_at_z(r, self.root_of(r)) as i64,
            },
            normal: if self.front_of(r) {
                ow
            } else {
                Vec3 { x: (-ow.x) as i64, y: (-ow.y) as i64, z: (-ow.z) as i64 }
            },
            t: self.root_of(r) as i64,
            front_face: self.front_of(r),
        }
    }

    fn hit(&self, r: &Ray, t_min: i64, t_max: i64) -> (res: HitResult) {
        let mut rec: HitRecord = HitRecord::hit_record();

        let ocx: i64 = r.origin.x - self.center.x;
        let ocy: i64 = r.origin.y - self.center.y;
        let ocz: i64 = r.origin.z - self.center.z;
        let dx: i128 = r.direction.x as i128;
        let dy: i128 = r.direction.y as i128;
        let dz: i128 = r.direction.z as i128;

        proof {
            lemma_quadratic_bounds(*self, *r);
        }

        let a: i128 = dx * dx + dy * dy + dz * dz;
        let half_b: i128 = (ocx as i128) * dx + (ocy as i128) * dy + (ocz as i128) * dz;
        let c: i128 = (ocx as i128) * (ocx as i128) + (ocy as i128) * (ocy as i128)
            + (ocz as i128) * (ocz as i128) - (self.radius as i128) * (self.radius as i128);

        let discriminant: i128 = half_b * half_b - a * c;
        if discriminant < 0 {
            return HitResult::hit_result(false, rec);
        }
        let sqrt_u: u128 = isqrt_u128(discriminant as u128);
        proof {
            lemma_sqrt_int_props(discriminant as int);
            assert(sqrt_int(discriminant as int) < 0x8000000000000000int) by (nonlinear_arith)
                requires
                    0 <= sqrt_int(discriminant as int),
                    sqrt_int(discriminant as int) * sqrt_int(discriminant as int)
                        <= discriminant as int,
                    (discriminant as int) < 0x40000000000000000000000000000000int,
            ;
        }
        let sqrt_d: i128 = sqrt_u as i128;
        proof {
            assert(half_b as int == self.half_b_of(*r));
            assert(-0x3000000000000000 <= half_b as int <= 0x3000000000000000);
            assert(0 <= (sqrt_d as int) && (sqrt_d as int) < 0x8000000000000000int);
        }

        let num: i128 = -half_b - sqrt_d;
        let root128: i128 = div_trunc(num * 65536, a);
        if root128 < (t_min as i128) || (t_max as i128) < root128 {
            return HitResult::hit_result(false, rec);
        }
        let root: i64 = root128 as i64;

        proof {
            lemma_root_use_bounds(*self, *r, root as int);
        }
        rec.t = root;
        rec.p = r.at(rec.t);
        let outward_normal: Vec3 = rec.p.sub(self.center).div_s(self.radius);
        rec.set_face_normal(r, outward_normal);

        proof {
            assert(outward_normal == self.outward_of(*r));
            assert(rec == self.hit_rec(*r));
        }
        HitResult::hit_result(true, rec)
    }
}

/// One reported-normal component, squared and rescaled by the squared
/// radius: it tracks the exact square within the rounding slack of one
/// division.
proof fn lemma_normal_comp_square(x: int, l: int)
    requires
        0 < l,
        -2 * l <= x <= 2 * l,
    ensures
        -131072 <= fx_div_spec(x, l) <= 131072,
        (fx_div_spec(x, l) * fx_div_spec(x, l)) * (l * l)
            <= (x * x) * 4294967296 + 262144 * (l * l) + (l * l),
        (fx_div_spec(x, l) * fx_div_spec(x, l)) * (l * l)
            >= (x * x) * 4294967296 - 262144 * (l * l) - (l * l),
{
    crate::fixed::lemma_tdiv_remainder(x * (SCALE as int), l);
    let q = fx_div_spec(x, l);
    let d = q * l - x * 65536;
    assert(x * 65536 <= (2 * l) * 65536 && -((2 * l) * 65536) <= x * 65536) by (nonlinear_arith)
        requires
            -2 * l <= x <= 2 * l,
            0 < l,
    ;
    lemma_tdiv_monotone(x * (SCALE as int), (2 * l) * (SCALE as int), l);
    lemma_tdiv_monotone(-((2 * l) * (SCALE as int)), x * (SCALE as int), l);
    crate::fixed::lemma_tdiv_neg((2 * l) * (SCALE as int), l);
    assert((2 * l) * (SCALE as int) == 131072 * l) by (nonlinear_arith);
    crate::fixed::lemma_tdiv_exact(131072, l);
    assert((q * q) * (l * l) == (x * x) * 4294967296 + d * (2 * (x * 65536) + d))
        by (nonlinear_arith)
        requires
            d == q * l - x * 65536,
    ;
    assert(-(262144 * (l * l)) - (l * l) <= d * (2 * (x * 65536) + d)
        && d * (2 * (x * 65536) + d) <= 262144 * (l * l) + (l * l)) by (nonlinear_arith)
        requires
            -l < d < l,
            -2 * l <= x <= 2 * l,
            0 < l,
    ;
}

/// The surface-normal half of the unit-normal property: wherever a hit
/// point's offset `q` from the center has raw squared length within
/// `slack` of the squared radius — the point lies that close to the
/// sphere's surface — the outward normal, the offset divided by the
/// radius, has squared length within rounding of one unit. The bound is
/// stated exactly, scaled by the squared radius. (That the computed near
/// root lands the hit point close to the surface is a fixed-point error
/// bound this crate states only through its tests.)
pub proof fn lemma_outward_normal_length(q: Vec3, rad: i64, slack: int)
    requires
        0 < rad,
        -2 * (rad as int) <= q.x <= 2 * (rad as int),
        -2 * (rad as int) <= q.y <= 2 * (rad as int),
        -2 * (rad as int) <= q.z <= 2 * (rad as int),
        0 <= slack,
        (rad as int) * (rad as int) - slack <= dot_raw(q, q),
        dot_raw(q, q) <= (rad as int) * (rad as int) + slack,
    ensures
        ({
            let n = Vec3 {
                x: fx_div_spec(q.x as int, rad as int) as i64,
                y: fx_div_spec(q.y as int, rad as int) as i64,
                z: fx_div_spec(q.z as int, rad as int) as i64,
            };
            ((rad as int) * (rad as int)) * dot_raw(n, n)
                <= 4294967296 * ((rad as int) * (rad as int)) + 4294967296 * slack
                    + 786435 * ((rad as int) * (rad as int))
                && ((rad as int) * (rad as int)) * dot_raw(n, n)
                    >= 4294967296 * ((rad as int) * (rad as int)) - 4294967296 * slack
                        - 786435 * ((rad as int) * (rad as int))
        }),
{
    let l = rad as int;
    let qx = fx_div_spec(q.x as int, l);
    let qy = fx_div_spec(q.y as int, l);
    let qz = fx_div_spec(q.z as int, l);
    lemma_normal_comp_square(q.x as int, l);
    lemma_normal_comp_square(q.y as int, l);
    lemma_normal_comp_square(q.z as int, l);
    let sumq = qx * qx + qy * qy + qz * qz;
    assert((l * l) * sumq == (qx * qx) * (l * l) + (qy * qy) * (l * l) + (qz * qz) * (l * l))
        by (nonlinear_arith)
        requires
            sumq == qx * qx + qy * qy + qz * qz,
    ;
    assert(4294967296 * dot_raw(q, q) == ((q.x as int) * (q.x as int)) * 4294967296
        + ((q.y as int) * (q.y as int)) * 4294967296
        + ((q.z as int) * (q.z as int)) * 4294967296) by (nonlinear_arith);
    let n = Vec3 {
        x: fx_div_spec(q.x as int, l) as i64,
        y: fx_div_spec(q.y as int, l) as i64,
        z: fx_div_spec(q.z as int, l) as i64,
    };
    assert(n.x as int == qx && n.y as int == qy && n.z as int == qz);
    assert(dot_raw(n, n) == sumq);
    assert(4294967296 * ((l * l) - slack) <= 4294967296 * dot_raw(q, q)
        && 4294967296 * dot_raw(q, q) <= 4294967296 * ((l * l) + slack));
}

/// Every intermediate of the quadratic fits its machine type for a
/// well-formed sphere and an admissible ray.
proof fn lemma_quadratic_bounds(s: Sphere, r: Ray)
    requires
        s.wf(),
        hit_ray_ok(r),
    ensures
        0 < s.a_of(r) <= 0xC0000000000,
        -0x3000000000000000 <= s.half_b_of(r) <= 0x3000000000000000,
        -0x100000000000000000000 <= s.c_of(r) <= 0x100000000000000000000,
        -0x15000000000000000000000000000000 <= s.disc_of(r)
            <= 0x15000000000000000000000000000000,
        0 <= (r.direction.x as int) * (r.direction.x as int) <= 0x40000000000,
        0 <= (r.direction.y as int) * (r.direction.y as int) <= 0x40000000000,
        0 <= (r.direction.z as int) * (r.direction.z as int) <= 0x40000000000,
        -0x1000000000000000 <= (r.origin.x - s.center.x) * r.direction.x <= 0x1000000000000000,
        -0x1000000000000000 <= (r.origin.y - s.center.y) * r.direction.y <= 0x1000000000000000,
        -0x1000000000000000 <= (r.origin.z - s.center.z) * r.direction.z <= 0x1000000000000000,
        0 <= (r.origin.x - s.center.x) * (r.origin.x - s.center.x) <= 0x40000000000000000000,
        0 <= (r.origin.y - s.center.y) * (r.origin.y - s.center.y) <= 0x40000000000000000000,
        0 <= (r.origin.z - s.center.z) * (r.origin.z - s.center.z) <= 0x40000000000000000000,
        0 <= (s.radius as int) * (s.radius as int) <= 0x100000000000000,
        0 <= s.half_b_of(r) * s.half_b_of(r) <= 0x9000000000000000000000000000000,
        -0xC000000000000000000000000000000 <= s.a_of(r) * s.c_of(r)
            <= 0xC000000000000000000000000000000,
{
    let dx = r.direction.x as int;
    let dy = r.direction.y as int;
    let dz = r.direction.z as int;
    let ox = r.origin.x - s.center.x;
    let oy = r.origin.y - s.center.y;
    let oz = r.origin.z - s.center.z;
    lemma_mul_bound(dx, dx, DIR_MAX as int, DIR_MAX as int);
    lemma_mul_bound(dy, dy, DIR_MAX as int, DIR_MAX as int);
    lemma_mul_bound(dz, dz, DIR_MAX as int, DIR_MAX as int);
    lemma_mul_bound(ox, dx, 0x8000000000, DIR_MAX as int);
    lemma_mul_bound(oy, dy, 0x8000000000, DIR_MAX as int);
    lemma_mul_bound(oz, dz, 0x8000000000, DIR_MAX as int);
    lemma_mul_bound(ox, ox, 0x8000000000, 0x8000000000);
    lemma_mul_bound(oy, oy, 0x8000000000, 0x8000000000);
    lemma_mul_bound(oz, oz, 0x8000000000, 0x8000000000);
    lemma_mul_bound(s.radius as int, s.radius as int, CENTER_MAX as int, CENTER_MAX as int);
    lemma_mul_bound(s.half_b_of(r), s.half_b_of(r), 0x3000000000000000, 0x3000000000000000);
    lemma_mul_bound(s.a_of(r), s.c_of(r), 0xC0000000000, 0x100000000000000000000);
    assert(dx * dx >= 0 && dy * dy >= 0 && dz * dz >= 0 && ox * ox >= 0 && oy * oy >= 0
        && oz * oz >= 0 && (s.radius as int) * (s.radius as int) >= 0
        && s.half_b_of(r) * s.half_b_of(r) >= 0) by (nonlinear_arith)
        requires
            s.half_b_of(r) == ox * dx + oy * dy + oz * dz,
    ;
}

/// Once the near root has been confined to the window, the hit point, the
/// offset to the center and the outward normal all fit their types.
proof fn lemma_root_use_bounds(s: Sphere, r: Ray, root: int)
    requires
        s.wf(),
        hit_ray_ok(r),
        0 <= root <= T_CAP,
    ensures
        -0x800000000 <= fx_mul_spec(root, r.direction.x as int) <= 0x800000000,
        -0x800000000 <= fx_mul_spec(root, r.direction.y as int) <= 0x800000000,
        -0x800000000 <= fx_mul_spec(root, r.direction.z as int) <= 0x800000000,
        -0x4800000000 <= ray_at_x(r, root) <= 0x4800000000,
        -0x4800000000 <= ray_at_y(r, root) <= 0x4800000000,
        -0x4800000000 <= ray_at_z(r, root) <= 0x4800000000,
        -0x100000000000000 <= fx_div_spec(ray_at_x(r, root) - s.center.x, s.radius as int)
            <= 0x100000000000000,
        -0x100000000000000 <= fx_div_spec(ray_at_y(r, root) - s.center.y, s.radius as int)
            <= 0x100000000000000,
        -0x100000000000000 <= fx_div_spec(ray_at_z(r, root) - s.center.z, s.radius as int)
            <= 0x100000000000000,
{
    lemma_root_comp_bounds(r.direction.x as int, root, ray_at_x(r, root), r.origin.x as int,
        s.center.x as int, s.radius as int);
    lemma_root_comp_bounds(r.direction.y as int, root, ray_at_y(r, root), r.origin.y as int,
        s.center.y as int, s.radius as int);
    lemma_root_comp_bounds(r.direction.z as int, root, ray_at_z(r, root), r.origin.z as int,
        s.center.z as int, s.radius as int);
}

/// One component's worth of the bounds above.
proof fn lemma_root_comp_bounds(d: int, root: int, at: int, o: int, c: int, rad: int)
    requires
        -(DIR_MAX as int) <= d <= DIR_MAX as int,
        0 <= root <= T_CAP,
        -(ORIGIN_MAX as int) <= o <= ORIGIN_MAX as int,
        -(CENTER_MAX as int) <= c <= CENTER_MAX as int,
        0 < rad,
        at == o + fx_mul_spec(root, d),
    ensures
        -0x800000000 <= fx_mul_spec(root, d) <= 0x800000000,
        -0x4800000000 <= at <= 0x4800000000,
        -0x100000000000000 <= fx_div_spec(at - c, rad) <= 0x100000000000000,
{
    lemma_mul_bound(root, d, T_CAP as int, DIR_MAX as int);
    lemma_tdiv_monotone(root * d, (T_CAP as int) * (DIR_MAX as int), SCALE as int);
    lemma_tdiv_monotone(-((T_CAP as int) * (DIR_MAX as int)), root * d, SCALE as int);
    lemma_tdiv_neg((T_CAP as int) * (DIR_MAX as int), SCALE as int);
    assert(tdiv((T_CAP as int) * (DIR_MAX as int), SCALE as int) == 0x800000000);
    lemma_mul_bound(at - c, SCALE as int, 0x4810000000, SCALE as int);
    lemma_tdiv_bounds((at - c) * (SCALE as int), rad);
}

} // verus!
