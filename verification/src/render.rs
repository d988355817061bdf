//! The color estimator: recursive diffuse path tracing, the background
//! gradient, antialiased per-pixel accumulation, and gamma-corrected tone
//! mapping.

use vstd::prelude::*;
use crate::fixed::{SCALE, tdiv, fx_mul_spec, fx_div_spec, fx_mul, fx_div, sqrt_int, isqrt_u128,
    div_trunc, lemma_tdiv_bounds, lemma_tdiv_monotone, lemma_tdiv_neg, lemma_tdiv_exact,
    lemma_sqrt_int_props};
use crate::vec3::{Vec3, dot_raw, fx_dot_spec, vec_bounded, lemma_mul_bound, LEN_MAX};
use crate::ray::{Ray, ray, ray_at_x, ray_at_y, ray_at_z};
use crate::hittable::{HitRecord, HitResult, Hittable, HittableList, hit_ray_ok, T_CAP, DIR_MAX};
use crate::camera::Camera;
use crate::utility::{random_float, random_in_hemisphere};

verus! {

/// The deepest recursion budget the estimator accepts.
pub const MAX_DEPTH: u32 = 64;

/// The shadow-acne guard: the lower parameter bound of every scene query,
/// about a thousandth of a world unit, so a freshly scattered ray cannot
/// re-hit its own origin through rounding error.
pub const T_GUARD: i64 = 66;

/// Origin bound of a primary (camera) ray.
pub const PRIMARY_ORIGIN_MAX: i64 = 0x40000000;

/// Base origin bound of a scattered ray; each remaining bounce may move the
/// origin by at most `T_CAP` more.
pub const SCATTER_ORIGIN_MAX: i64 = 0x1000000000;

/// A ray the color estimator accepts at a given remaining depth: a nonzero
/// direction, and origin and direction within the window that keeps every
/// bounce's arithmetic in bounds — wide for a camera ray, or growing with
/// the bounces already taken for a scattered ray.
pub open spec fn rc_ray_ok(r: Ray, depth: int) -> bool {
    &&& dot_raw(r.direction, r.direction) > 0
    &&& {
        ||| (vec_bounded(r.origin, PRIMARY_ORIGIN_MAX as int)
            && vec_bounded(r.direction, DIR_MAX as int))
        ||| (vec_bounded(r.origin,
                SCATTER_ORIGIN_MAX as int + (MAX_DEPTH as int - depth) * (T_CAP as int))
            && vec_bounded(r.direction, SCALE as int))
    }
}

/// Whether some member of the scene reports a hit inside the estimator's
/// parameter window.
pub open spec fn scene_hits<T: Hittable>(world: HittableList<T>, r: Ray) -> bool {
    exists|i: int|
        0 <= i < world.objects@.len() && (#[trigger] world.objects@[i]).hits(r)
            && T_GUARD <= world.objects@[i].hit_t(r) <= T_CAP
}

/// The vertical component of the ray direction rescaled to unit length.
pub open spec fn unit_y_of(d: Vec3) -> int {
    fx_div_spec(d.y as int, sqrt_int(dot_raw(d, d)))
}

/// The background blend factor: half of one plus the unit vertical
/// component, so 0 straight down and 1 straight up.
pub open spec fn bg_t_of(d: Vec3) -> int {
    fx_mul_spec(32768, unit_y_of(d) + SCALE as int)
}

/// The background gradient's red channel: white blended toward sky blue.
pub open spec fn bg_x_of(d: Vec3) -> int {
    fx_mul_spec(SCALE as int - bg_t_of(d), SCALE as int) + fx_mul_spec(bg_t_of(d), 32768)
}

/// The background gradient's green channel.
pub open spec fn bg_y_of(d: Vec3) -> int {
    fx_mul_spec(SCALE as int - bg_t_of(d), SCALE as int) + fx_mul_spec(bg_t_of(d), 45875)
}

/// The background gradient's blue channel.
pub open spec fn bg_z_of(d: Vec3) -> int {
    fx_mul_spec(SCALE as int - bg_t_of(d), SCALE as int) + fx_mul_spec(bg_t_of(d), SCALE as int)
}

/// A color: every channel within one unit of zero.
pub open spec fn color_ok(c: Vec3) -> bool {
    0 <= c.x <= SCALE && 0 <= c.y <= SCALE && 0 <= c.z <= SCALE
}

/// A ray scattered off the hit record `rec`: it starts at the hit point
/// and heads along the drawn hemisphere direction.
pub open spec fn scatter_ray(rec: HitRecord, dir: Vec3) -> Ray {
    Ray { origin: rec.p, direction: dir }
}

/// A direction the hemisphere sampler can draw for `normal`: a nonzero
/// vector strictly inside the unit sphere that does not point away from
/// the normal.
pub open spec fn hemisphere_sample(dir: Vec3, normal: Vec3) -> bool {
    &&& vec_bounded(dir, SCALE as int)
    &&& 0 < dot_raw(dir, dir)
    &&& 0 < fx_dot_spec(dir, dir) < SCALE
    &&& dot_raw(dir, normal) >= 0
}

/// A record the narrowing scan can return for `r` in the estimator's
/// window: some member's reported record, its parameter inside the window
/// and no larger than that of any member hitting there.
pub open spec fn is_scan_result<T: Hittable>(world: HittableList<T>, r: Ray, rec: HitRecord) -> bool {
    &&& exists|i: int|
        0 <= i < world.objects@.len() && (#[trigger] world.objects@[i]).hits(r)
            && T_GUARD <= world.objects@[i].hit_t(r) <= T_CAP
            && rec == world.objects@[i].hit_rec(r)
            && rec.t == world.objects@[i].hit_t(r)
    &&& forall|i: int|
        0 <= i < world.objects@.len() && (#[trigger] world.objects@[i]).hits(r)
            && T_GUARD <= world.objects@[i].hit_t(r) <= T_CAP
            ==> rec.t <= world.objects@[i].hit_t(r)
}

/// The colors the estimator may return for `r` at the given remaining
/// depth: black once the budget is exhausted; the exact background
/// gradient when no member hits in the window; otherwise half of a color
/// possible, one bounce deeper, for a ray scattered from a record the
/// scan can return into the hemisphere of that record's normal.
pub open spec fn possible_color<T: Hittable>(
    r: Ray,
    world: HittableList<T>,
    depth: int,
    c: Vec3,
) -> bool
    decreases depth,
{
    if depth <= 0 {
        c.x == 0 && c.y == 0 && c.z == 0
    } else if !scene_hits(world, r) {
        c.x == bg_x_of(r.direction) && c.y == bg_y_of(r.direction)
            && c.z == bg_z_of(r.direction)
    } else {
        exists|rec: HitRecord, dir: Vec3, b: Vec3|
            #![trigger is_scan_result(world, r, rec), hemisphere_sample(dir, rec.normal),
                fx_mul_spec(b.x as int, 32768)]
            is_scan_result(world, r, rec) && hemisphere_sample(dir, rec.normal)
                && possible_color(scatter_ray(rec, dir), world, depth - 1, b)
                && c.x == fx_mul_spec(b.x as int, 32768)
                && c.y == fx_mul_spec(b.y as int, 32768)
                && c.z == fx_mul_spec(b.z as int, 32768)
    }
}

/// The direction rescaled to unit length.
pub fn unit_vector(vec: Vec3) -> (r: Vec3)
    requires
        vec_bounded(vec, LEN_MAX as int),
        dot_raw(vec, vec) > 0,
    ensures
        r.x == fx_div_spec(vec.x as int, sqrt_int(dot_raw(vec, vec))),
        r.y == fx_div_spec(vec.y as int, sqrt_int(dot_raw(vec, vec))),
        r.z == fx_div_spec(vec.z as int, sqrt_int(dot_raw(vec, vec))),
        vec_bounded(r, SCALE as int),
{
    vec.normalize()
}

/// The radiance estimate for one ray: black once the recursion budget is
/// exhausted; on a hit, half the estimate of a ray scattered into the
/// hemisphere around the surface normal; otherwise the vertical
/// white-to-sky-blue background gradient, exactly.
pub fn ray_color<T: Hittable>(r: &Ray, world: &HittableList<T>, depth: u32) -> (color: Vec3)
    requires
        world.wf(),
        depth <= MAX_DEPTH,
        rc_ray_ok(*r, depth as int),
    ensures
        color_ok(color),
        possible_color(*r, *world, depth as int, color),
        depth == 0 ==> color.x == 0 && color.y == 0 && color.z == 0,
        depth > 0 && !scene_hits(*world, *r) ==> color.x == bg_x_of(r.direction)
            && color.y == bg_y_of(r.direction) && color.z == bg_z_of(r.direction),
    decreases depth,
{
    if depth == 0 {
        return Vec3::zero();
    }

    proof {
        lemma_rc_ray_is_query_ok(*r, depth as int);
    }
    let result: HitResult = world.hit(r, T_GUARD, T_CAP);
    if result.hit {
        let rec = result.hit_record;
        let dir: Vec3 = random_in_hemisphere(rec.normal);
        proof {
            lemma_scatter_origin_ok(*r, rec.t as int, depth as int);
        }
        let target: Vec3 = rec.p.add(dir);
        let scattered: Ray = ray(rec.p, target.sub(rec.p));
        let inner: Vec3 = ray_color(&scattered, world, depth - 1);
        let half: Vec3 = inner.scale(32768);
        proof {
            assert(scattered.direction == dir);
            assert(scattered == scatter_ray(rec, dir));
            assert(is_scan_result(*world, *r, rec));
            assert(hemisphere_sample(dir, rec.normal));
            assert(scene_hits(*world, *r));
            assert(possible_color(scatter_ray(rec, dir), *world, depth as int - 1, inner));
            assert(half.x == fx_mul_spec(inner.x as int, 32768));
            assert(possible_color(*r, *world, depth as int, half));
        }
        return half;
    }

    let unit_direction: Vec3 = unit_vector(r.direction());
    let t: i64 = fx_mul(32768, unit_direction.y + SCALE);
    let s_white: Vec3 = Vec3::one().scale(SCALE - t);
    let s_blue: Vec3 = Vec3::new(32768, 45875, SCALE).scale(t);
    proof {
        lemma_blend_in_unit(t as int, 32768);
        lemma_blend_in_unit(t as int, 45875);
        lemma_blend_in_unit(t as int, SCALE as int);
    }
    s_white.add(s_blue)
}

/// A ray the estimator accepts is a ray the intersection protocol accepts.
proof fn lemma_rc_ray_is_query_ok(r: Ray, depth: int)
    requires
        rc_ray_ok(r, depth),
        0 <= depth <= MAX_DEPTH as int,
    ensures
        hit_ray_ok(r),
{
}

/// A hit point within the window moves the origin by at most `T_CAP`
/// per remaining bounce, so the scattered ray is again acceptable.
proof fn lemma_scatter_origin_ok(r: Ray, t: int, depth: int)
    requires
        rc_ray_ok(r, depth),
        1 <= depth <= MAX_DEPTH as int,
        0 <= t <= T_CAP as int,
    ensures
        -(SCATTER_ORIGIN_MAX as int + (MAX_DEPTH as int - (depth - 1)) * (T_CAP as int))
            <= ray_at_x(r, t)
            <= SCATTER_ORIGIN_MAX as int + (MAX_DEPTH as int - (depth - 1)) * (T_CAP as int),
        -(SCATTER_ORIGIN_MAX as int + (MAX_DEPTH as int - (depth - 1)) * (T_CAP as int))
            <= ray_at_y(r, t)
            <= SCATTER_ORIGIN_MAX as int + (MAX_DEPTH as int - (depth - 1)) * (T_CAP as int),
        -(SCATTER_ORIGIN_MAX as int + (MAX_DEPTH as int - (depth - 1)) * (T_CAP as int))
            <= ray_at_z(r, t)
            <= SCATTER_ORIGIN_MAX as int + (MAX_DEPTH as int - (depth - 1)) * (T_CAP as int),
{
    lemma_scatter_comp(r.origin.x as int, r.direction.x as int, t, depth);
    lemma_scatter_comp(r.origin.y as int, r.direction.y as int, t, depth);
    lemma_scatter_comp(r.origin.z as int, r.direction.z as int, t, depth);
}

/// One component of the bound above.
proof fn lemma_scatter_comp(o: int, d: int, t: int, depth: int)
    requires
        1 <= depth <= MAX_DEPTH as int,
        0 <= t <= T_CAP as int,
        -(DIR_MAX as int) <= d <= DIR_MAX as int,
        (-(PRIMARY_ORIGIN_MAX as int) <= o <= PRIMARY_ORIGIN_MAX as int)
            || ((-(SCATTER_ORIGIN_MAX as int + (MAX_DEPTH as int - depth) * (T_CAP as int))
                    <= o <= SCATTER_ORIGIN_MAX as int + (MAX_DEPTH as int - depth) * (T_CAP as int))
                && -(SCALE as int) <= d <= SCALE as int),
    ensures
        -(SCATTER_ORIGIN_MAX as int + (MAX_DEPTH as int - (depth - 1)) * (T_CAP as int))
            <= o + fx_mul_spec(t, d)
            <= SCATTER_ORIGIN_MAX as int + (MAX_DEPTH as int - (depth - 1)) * (T_CAP as int),
{
    if -(SCALE as int) <= d <= SCALE as int {
        lemma_mul_bound(t, d, T_CAP as int, SCALE as int);
        lemma_tdiv_monotone(t * d, (T_CAP as int) * (SCALE as int), SCALE as int);
        lemma_tdiv_monotone(-((T_CAP as int) * (SCALE as int)), t * d, SCALE as int);
        lemma_tdiv_neg((T_CAP as int) * (SCALE as int), SCALE as int);
        lemma_tdiv_exact(T_CAP as int, SCALE as int);
        assert((T_CAP as int) * (SCALE as int) == (T_CAP as int) * (SCALE as int));
        assert(tdiv((T_CAP as int) * (SCALE as int), SCALE as int) == T_CAP as int);
        assert((MAX_DEPTH as int - (depth - 1)) * (T_CAP as int)
            == (MAX_DEPTH as int - depth) * (T_CAP as int) + T_CAP as int) by (nonlinear_arith);
    } else {
        lemma_mul_bound(t, d, T_CAP as int, DIR_MAX as int);
        lemma_tdiv_monotone(t * d, (T_CAP as int) * (DIR_MAX as int), SCALE as int);
        lemma_tdiv_monotone(-((T_CAP as int) * (DIR_MAX as int)), t * d, SCALE as int);
        lemma_tdiv_neg((T_CAP as int) * (DIR_MAX as int), SCALE as int);
        assert(tdiv((T_CAP as int) * (DIR_MAX as int), SCALE as int) == 0x800000000);
        assert((MAX_DEPTH as int - (depth - 1)) * (T_CAP as int) >= (T_CAP as int))
            by (nonlinear_arith)
            requires
                1 <= depth <= MAX_DEPTH as int,
        ;
    }
}

/// The tone-mapped value of one accumulated channel: the sample average,
/// gamma-2 corrected by a square root, clamped just below one, scaled to
/// the byte range and truncated.
pub open spec fn tonemap_channel(c: int, n: int) -> int {
    let avg = tdiv(c, n);
    let g = sqrt_int(avg * (SCALE as int));
    let q = if g > 65470 { 65470int } else { g };
    tdiv(q * 255999, 65536000)
}

/// One channel of the tone map, exactly as `tonemap_channel` states it.
fn tonemap_channel_exec(c: i64, n: i64) -> (b: u8)
    requires
        0 <= c,
        0 < n,
    ensures
        b as int == tonemap_channel(c as int, n as int),
{
    let avg: i64 = div_trunc(c as i128, n as i128) as i64;
    proof {
        lemma_tdiv_bounds(c as int, n as int);
    }
    let g128: u128 = isqrt_u128((avg as u128) * 65536);
    proof {
        let m = (avg as int) * (SCALE as int);
        lemma_sqrt_int_props(m);
        assert(sqrt_int(m) < 0x100000000000int) by (nonlinear_arith)
            requires
                0 <= sqrt_int(m),
                sqrt_int(m) * sqrt_int(m) <= m,
                m < 0x10000000000000000000000int,
        ;
    }
    let g: i64 = g128 as i64;
    let q: i64 = if g > 65470 { 65470 } else { g };
    let out: i128 = div_trunc((q as i128) * 255999, 65536000);
    proof {
        lemma_tdiv_bounds((q as int) * 255999, 65536000);
    }
    out as u8
}

/// The accumulated color of a pixel, averaged over its samples, gamma
/// corrected, quantized per channel to a byte.
pub fn tonemap_pixel(color: Vec3, samples: i64) -> (px: (u8, u8, u8))
    requires
        0 <= color.x,
        0 <= color.y,
        0 <= color.z,
        0 < samples,
    ensures
        px.0 as int == tonemap_channel(color.x as int, samples as int),
        px.1 as int == tonemap_channel(color.y as int, samples as int),
        px.2 as int == tonemap_channel(color.z as int, samples as int),
{
    (
        tonemap_channel_exec(color.x, samples),
        tonemap_channel_exec(color.y, samples),
        tonemap_channel_exec(color.z, samples),
    )
}

/// An accumulator of `n` samples of pure white tone-maps to a full byte on
/// every channel: the average is exactly one unit, its square root is one
/// unit, and the clamp and byte scaling land on 255.
pub proof fn lemma_tonemap_white(n: int)
    requires
        0 < n <= 0x100000000,
    ensures
        tonemap_channel(n * (SCALE as int), n) == 255,
{
    lemma_tdiv_exact(SCALE as int, n);
    assert(n * (SCALE as int) == (SCALE as int) * n) by (nonlinear_arith);
    assert(tdiv(n * (SCALE as int), n) == SCALE as int);
    crate::fixed::lemma_sqrt_int_unique((SCALE as int) * (SCALE as int), SCALE as int);
    assert(tonemap_channel(n * (SCALE as int), n) == tdiv(65470int * 255999, 65536000));
}

/// A viewport coordinate the jitter can produce for pixel index `i` of a
/// `dim`-pixel axis: the index plus a drawn half-open unit-interval
/// offset, divided by the axis length less one.
pub open spec fn possible_jitter(i: int, dim: int, u: int) -> bool {
    exists|j: int|
        0 <= j < SCALE as int
            && u == #[trigger] fx_div_spec(i * (SCALE as int) + j, (dim - 1) * (SCALE as int))
}

/// One jittered image coordinate, as a fixed-point viewport fraction: the
/// pixel index plus a unit-interval jitter, divided by the image dimension
/// less one. The result always lies within two viewport widths.
fn jitter_coord(i: u32, dim: u32) -> (c: i64)
    requires
        2 <= dim,
        i < dim,
    ensures
        0 <= c <= 2 * SCALE as int,
        possible_jitter(i as int, dim as int, c as int),
{
    let j: i64 = random_float();
    let num: i64 = (i as i64) * SCALE + j;
    let den: i64 = ((dim - 1) as i64) * SCALE;
    proof {
        lemma_jitter_coord_bound(num as int, den as int, i as int, dim as int, j as int);
    }
    let c: i64 = fx_div(num, den);
    proof {
        assert(c as int == fx_div_spec(
            (i as int) * (SCALE as int) + (j as int),
            ((dim as int) - 1) * (SCALE as int),
        ));
    }
    c
}

/// The jittered coordinate's quotient stays within twice the unit.
proof fn lemma_jitter_coord_bound(num: int, den: int, i: int, dim: int, j: int)
    requires
        2 <= dim,
        0 <= i < dim,
        0 <= j < SCALE as int,
        num == i * (SCALE as int) + j,
        den == (dim - 1) * (SCALE as int),
    ensures
        0 <= fx_div_spec(num, den) <= 2 * SCALE as int,
        0 < den,
        i64::MIN <= fx_div_spec(num, den) <= i64::MAX,
{
    assert(0 < den && 0 <= num && num <= 2 * den) by (nonlinear_arith)
        requires
            2 <= dim,
            0 <= i < dim,
            0 <= j < SCALE as int,
            num == i * (SCALE as int) + j,
            den == (dim - 1) * (SCALE as int),
    ;
    assert(0 <= num * (SCALE as int) && num * (SCALE as int) <= (2 * SCALE as int) * den)
        by (nonlinear_arith)
        requires
            0 <= num,
            num <= 2 * den,
            0 < den,
    ;
    lemma_tdiv_monotone(0, num * (SCALE as int), den);
    lemma_tdiv_monotone(num * (SCALE as int), (2 * SCALE as int) * den, den);
    lemma_tdiv_exact(2 * SCALE as int, den);
}

/// An estimate the pixel loop can add for pixel `(x, y)`: the color of a
/// camera ray through jittered coordinates of that pixel, at the given
/// depth budget.
pub open spec fn possible_pixel_sample<T: Hittable>(
    cam: Camera,
    world: HittableList<T>,
    x: int,
    y: int,
    width: int,
    height: int,
    depth: int,
    c: Vec3,
) -> bool {
    exists|u: int, v: int|
        possible_jitter(x, width, u) && possible_jitter(y, height, v)
            && #[trigger] possible_color(cam.camera_ray(u, v), world, depth, c)
}

/// The componentwise sum of a sequence of sample colors.
pub open spec fn color_sum(s: Seq<Vec3>) -> (int, int, int)
    decreases s.len(),
{
    if s.len() == 0 {
        (0int, 0int, 0int)
    } else {
        let rest = color_sum(s.drop_last());
        (rest.0 + s.last().x, rest.1 + s.last().y, rest.2 + s.last().z)
    }
}

/// The color of one output pixel: `samples` jittered camera rays traced
/// through the scene, their estimates summed, and the sum tone-mapped.
/// Whatever the jitter and scattering drew, the result is the tone map of
/// the sum of `samples` estimates, each one a possible color of a camera
/// ray through a jittered coordinate of this pixel.
pub fn sample_pixel<T: Hittable>(
    cam: &Camera,
    world: &HittableList<T>,
    x: u32,
    y: u32,
    width: u32,
    height: u32,
    samples: u32,
    depth: u32,
) -> (px: (u8, u8, u8))
    requires
        cam.wf(),
        world.wf(),
        2 <= width,
        2 <= height,
        x < width,
        y < height,
        1 <= samples <= 0x10000,
        depth <= MAX_DEPTH,
    ensures
        exists|trace: Seq<Vec3>|
            (#[trigger] trace.len()) == samples as int
                && (forall|k: int|
                    0 <= k < trace.len() ==> color_ok(#[trigger] trace[k])
                        && possible_pixel_sample(*cam, *world, x as int, y as int,
                            width as int, height as int, depth as int, trace[k]))
                && px.0 as int == tonemap_channel(color_sum(trace).0, samples as int)
                && px.1 as int == tonemap_channel(color_sum(trace).1, samples as int)
                && px.2 as int == tonemap_channel(color_sum(trace).2, samples as int),
{
    let mut pixel_color: Vec3 = Vec3::zero();
    let mut s: u32 = 0;
    let ghost mut trace: Seq<Vec3> = Seq::empty();
    while s < samples
        invariant
            cam.wf(),
            world.wf(),
            2 <= width,
            2 <= height,
            x < width,
            y < height,
            1 <= samples <= 0x10000,
            depth <= MAX_DEPTH,
            s <= samples,
            0 <= pixel_color.x <= s as int * (SCALE as int),
            0 <= pixel_color.y <= s as int * (SCALE as int),
            0 <= pixel_color.z <= s as int * (SCALE as int),
            trace.len() == s as int,
            forall|k: int|
                0 <= k < trace.len() ==> color_ok(#[trigger] trace[k])
                    && possible_pixel_sample(*cam, *world, x as int, y as int, width as int,
                        height as int, depth as int, trace[k]),
            pixel_color.x as int == color_sum(trace).0,
            pixel_color.y as int == color_sum(trace).1,
            pixel_color.z as int == color_sum(trace).2,
        decreases samples - s,
    {
        let u: i64 = jitter_coord(x, width);
        let v: i64 = jitter_coord(y, height);
        let r: Ray = cam.get_ray(u, v);
        let sample: Vec3 = ray_color(&r, world, depth);
        pixel_color = pixel_color.add(sample);
        proof {
            assert(possible_color(cam.camera_ray(u as int, v as int), *world, depth as int,
                sample));
            assert(possible_pixel_sample(*cam, *world, x as int, y as int, width as int,
                height as int, depth as int, sample));
            let old_trace = trace;
            trace = trace.push(sample);
            assert(trace.drop_last() =~= old_trace);
            assert(trace.last() == sample);
            assert forall|k: int| 0 <= k < trace.len() implies color_ok(#[trigger] trace[k])
                && possible_pixel_sample(*cam, *world, x as int, y as int, width as int,
                    height as int, depth as int, trace[k]) by {
                if k < trace.len() - 1 {
                    assert(trace[k] == old_trace[k]);
                } else {
                    assert(trace[k] == sample);
                }
            }
        }
        s = s + 1;
    }
    let px: (u8, u8, u8) = tonemap_pixel(pixel_color, samples as i64);
    proof {
        assert(trace.len() == samples as int
            && (forall|k: int|
                0 <= k < trace.len() ==> color_ok(#[trigger] trace[k])
                    && possible_pixel_sample(*cam, *world, x as int, y as int, width as int,
                        height as int, depth as int, trace[k]))
            && px.0 as int == tonemap_channel(color_sum(trace).0, samples as int)
            && px.1 as int == tonemap_channel(color_sum(trace).1, samples as int)
            && px.2 as int == tonemap_channel(color_sum(trace).2, samples as int));
    }
    px
}

/// Blending a channel by a factor in the unit interval keeps it there:
/// the white share contributes exactly `SCALE - t`, and the colored share
/// at most `t`.
proof fn lemma_blend_in_unit(t: int, channel: int)
    requires
        0 <= t <= SCALE as int,
        0 <= channel <= SCALE as int,
    ensures
        fx_mul_spec(SCALE as int - t, SCALE as int) == SCALE as int - t,
        0 <= fx_mul_spec(t, channel) <= t,
        0 <= fx_mul_spec(SCALE as int - t, SCALE as int) + fx_mul_spec(t, channel) <= SCALE as int,
{
    lemma_tdiv_exact(SCALE as int - t, SCALE as int);
    lemma_mul_bound(t, channel, SCALE as int, SCALE as int);
    assert(t * channel <= t * (SCALE as int)) by (nonlinear_arith)
        requires
            0 <= t,
            channel <= SCALE as int,
    ;
    assert(0 <= t * channel) by (nonlinear_arith)
        requires
            0 <= t,
            0 <= channel,
    ;
    lemma_tdiv_monotone(0, t * channel, SCALE as int);
    lemma_tdiv_monotone(t * channel, t * (SCALE as int), SCALE as int);
    lemma_tdiv_exact(t, SCALE as int);
}

} // verus!
