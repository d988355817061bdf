//! The intersection protocol: hit records, the `Hittable` capability, and
//! scene aggregation with a narrowing nearest-hit scan.

use vstd::prelude::*;
use crate::vec3::{Vec3, Point, dot_raw, vec_bounded};
use crate::ray::{Ray, ray_at_x, ray_at_y, ray_at_z};

verus! {

/// Upper limit of every intersection parameter window.
pub const T_CAP: i64 = 0x40000000;

/// Componentwise bound on a query ray's origin.
pub const ORIGIN_MAX: i64 = 0x4000000000;

/// Componentwise bound on a query ray's direction.
pub const DIR_MAX: i64 = 0x200000;

/// Componentwise bound on a recorded surface normal.
pub const NORMAL_MAX: i64 = 0x100000000000000;

/// A ray that intersection queries accept: origin and direction within the
/// working bounds, direction nonzero.
pub open spec fn hit_ray_ok(r: Ray) -> bool {
    &&& vec_bounded(r.origin, ORIGIN_MAX as int)
    &&& vec_bounded(r.direction, DIR_MAX as int)
    &&& dot_raw(r.direction, r.direction) > 0
}

/// The detailed outcome of a successful intersection.
#[derive(Clone, Copy, PartialEq, Eq, Structural, Debug)]
pub struct HitRecord {
    pub p: Point,
    pub normal: Vec3,
    pub t: i64,
    pub front_face: bool,
}

/// The record a miss is paired with: everything zeroed, no front face.
pub open spec fn blank_hit_record() -> HitRecord {
    HitRecord {
        p: Vec3 { x: 0i64, y: 0i64, z: 0i64 },
        normal: Vec3 { x: 0i64, y: 0i64, z: 0i64 },
        t: 0i64,
        front_face: false,
    }
}

impl HitRecord {
    /// Orient `outward_normal` against the incoming ray: keep it when it
    /// already opposes the ray's direction — decided by the exact sign of
    /// the raw dot product — otherwise store its negation, and record
    /// which case held.
    pub fn set_face_normal(&mut self, r: &Ray, outward_normal: Vec3)
        requires
            vec_bounded(r.direction, DIR_MAX as int),
            vec_bounded(outward_normal, NORMAL_MAX as int),
        ensures
            final(self).front_face == (dot_raw(r.direction, outward_normal) < 0),
            final(self).front_face ==> final(self).normal == outward_normal,
            !final(self).front_face ==> final(self).normal.x == -outward_normal.x
                && final(self).normal.y == -outward_normal.y
                && final(self).normal.z == -outward_normal.z,
            final(self).p == old(self).p,
            final(self).t == old(self).t,
    {
        self.front_face = Vec3::dot_raw_sign(&r.direction, &outward_normal) < 0;
        self.normal = if self.front_face {
            outward_normal
        } else {
            outward_normal.neg()
        };
    }

    /// A blank record: everything zeroed, no front face.
    pub fn hit_record() -> (rec: HitRecord)
        ensures
            rec == blank_hit_record(),
    {
        HitRecord {
            p: Vec3 { x: 0, y: 0, z: 0 },
            normal: Vec3 { x: 0, y: 0, z: 0 },
            t: 0,
            front_face: false,
        }
    }
}

/// A hit/no-hit flag beside the record; the record is meaningful only when
/// the flag is set.
#[derive(Clone, Copy, PartialEq, Eq, Structural, Debug)]
pub struct HitResult {
    pub hit: bool,
    pub hit_record: HitRecord,
}

impl HitResult {
    /// Pair a flag with a record.
    pub fn hit_result(hit: bool, hit_record: HitRecord) -> (res: HitResult)
        ensures
            res.hit == hit,
            res.hit_record == hit_record,
    {
        HitResult { hit, hit_record }
    }
}

/// The capability every intersectable surface implements: intersect with a
/// ray within a parameter window.
///
/// An implementor exposes, as specification functions, whether it reports
/// an intersection with a ray at all, at which parameter, and with which
/// record; `hit` then reports exactly that intersection whenever the
/// parameter falls inside the window, and a miss otherwise.
pub trait Hittable: Sized {
    /// The implementor's structural invariant.
    spec fn wf(&self) -> bool;

    /// Whether the object reports an intersection with `r` in any window.
    spec fn hits(&self, r: Ray) -> bool;

    /// The ray parameter of the reported intersection.
    spec fn hit_t(&self, r: Ray) -> int;

    /// The record reported for `r`.
    spec fn hit_rec(&self, r: Ray) -> HitRecord;

    /// Intersect with `r`: a hit exactly when the object's reported
    /// parameter lies in `[t_min, t_max]`, and then the reported record,
    /// whose point is the ray evaluated at that parameter; a miss carries
    /// the blank record.
    fn hit(&self, r: &Ray, t_min: i64, t_max: i64) -> (res: HitResult)
        requires
            self.wf(),
            hit_ray_ok(*r),
            0 <= t_min,
            t_max <= T_CAP,
        ensures
            res.hit <==> (self.hits(*r) && t_min <= self.hit_t(*r) <= t_max),
            res.hit ==> res.hit_record == self.hit_rec(*r),
            res.hit ==> res.hit_record.t == self.hit_t(*r),
            res.hit ==> res.hit_record.p.x == ray_at_x(*r, self.hit_t(*r))
                && res.hit_record.p.y == ray_at_y(*r, self.hit_t(*r))
                && res.hit_record.p.z == ray_at_z(*r, self.hit_t(*r)),
            res.hit ==> vec_bounded(res.hit_record.normal, NORMAL_MAX as int),
            !res.hit ==> res.hit_record == blank_hit_record();
}

/// An ordered scene: a sequence of hittable objects, owned exclusively.
pub struct HittableList<T: Hittable> {
    pub objects: Vec<T>,
}

impl<T: Hittable> HittableList<T> {
    /// Every member satisfies its own invariant.
    pub open spec fn wf(&self) -> bool {
        forall|i: int| 0 <= i < self.objects@.len() ==> (#[trigger] self.objects@[i]).wf()
    }

    /// An empty scene.
    pub fn hittable_list() -> (l: HittableList<T>)
        ensures
            l.objects@.len() == 0,
    {
        HittableList { objects: Vec::new() }
    }

    /// Add an object to the scene.
    pub fn push(&mut self, object: T)
        ensures
            final(self).objects@ == old(self).objects@.push(object),
    {
        self.objects.push(object);
    }

    /// The nearest intersection among all members: scans every object,
    /// shrinking the window's upper bound to the closest hit found so far.
    /// A hit is reported exactly when some member hits inside
    /// `[t_min, t_max]`; the returned record is a member's reported record
    /// whose parameter is no larger than that of any member hitting in the
    /// window.
    pub fn hit(&self, r: &Ray, t_min: i64, t_max: i64) -> (res: HitResult)
        requires
            self.wf(),
            hit_ray_ok(*r),
            0 <= t_min,
            t_max <= T_CAP,
        ensures
            res.hit <==> exists|i: int|
                0 <= i < self.objects@.len() && (#[trigger] self.objects@[i]).hits(*r)
                    && t_min <= self.objects@[i].hit_t(*r) <= t_max,
            res.hit ==> exists|i: int|
                0 <= i < self.objects@.len() && (#[trigger] self.objects@[i]).hits(*r)
                    && t_min <= self.objects@[i].hit_t(*r) <= t_max
                    && res.hit_record == self.objects@[i].hit_rec(*r)
                    && res.hit_record.t == self.objects@[i].hit_t(*r),
            res.hit ==> forall|i: int|
                0 <= i < self.objects@.len() && (#[trigger] self.objects@[i]).hits(*r)
                    && t_min <= self.objects@[i].hit_t(*r) <= t_max
                    ==> res.hit_record.t <= self.objects@[i].hit_t(*r),
            res.hit ==> t_min <= res.hit_record.t <= t_max,
            res.hit ==> vec_bounded(res.hit_record.normal, NORMAL_MAX as int),
            res.hit ==> res.hit_record.p.x == ray_at_x(*r, res.hit_record.t as int)
                && res.hit_record.p.y == ray_at_y(*r, res.hit_record.t as int)
                && res.hit_record.p.z == ray_at_z(*r, res.hit_record.t as int),
            !res.hit ==> res.hit_record == blank_hit_record(),
    {
        let mut output_rec: HitRecord = HitRecord::hit_record();
        let mut hit_anything: bool = false;
        let mut closest_so_far: i64 = t_max;
        let mut idx: usize = 0;

        while idx < self.objects.len()
            invariant
                self.wf(),
                hit_ray_ok(*r),
                0 <= t_min,
                t_max <= T_CAP,
                idx <= self.objects@.len(),
                closest_so_far <= t_max,
                !hit_anything ==> closest_so_far == t_max,
                !hit_anything ==> output_rec == blank_hit_record(),
                hit_anything <==> exists|k: int|
                    0 <= k < idx && (#[trigger] self.objects@[k]).hits(*r)
                        && t_min <= self.objects@[k].hit_t(*r) <= t_max,
                hit_anything ==> exists|k: int|
                    0 <= k < idx && (#[trigger] self.objects@[k]).hits(*r)
                        && t_min <= self.objects@[k].hit_t(*r) <= t_max
                        && output_rec == self.objects@[k].hit_rec(*r)
                        && output_rec.t == self.objects@[k].hit_t(*r)
                        && closest_so_far == output_rec.t,
                hit_anything ==> t_min <= closest_so_far <= t_max,
                hit_anything ==> vec_bounded(output_rec.normal, NORMAL_MAX as int),
                hit_anything ==> output_rec.p.x == ray_at_x(*r, output_rec.t as int)
                    && output_rec.p.y == ray_at_y(*r, output_rec.t as int)
                    && output_rec.p.z == ray_at_z(*r, output_rec.t as int),
                forall|k: int|
                    0 <= k < idx && (#[trigger] self.objects@[k]).hits(*r)
                        && t_min <= self.objects@[k].hit_t(*r) <= t_max
                        ==> closest_so_far <= self.objects@[k].hit_t(*r),
            decreases self.objects@.len() - idx,
        {
            let result: HitResult = self.objects[idx].hit(r, t_min, closest_so_far);
            if result.hit {
                hit_anything = true;
                closest_so_far = result.hit_record.t;
                output_rec = result.hit_record;
            }
            idx = idx + 1;
        }

        HitResult::hit_result(hit_anything, output_rec)
    }
}

} // verus!
