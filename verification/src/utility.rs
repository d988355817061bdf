//! Random sampling utilities feeding the diffuse scattering choice.

use vstd::prelude::*;
use rand::Rng;
use crate::fixed::{SCALE, ONE, tdiv};
use crate::vec3::{Vec3, dot_raw, fx_dot_spec, vec_bounded, normalized_of, RAW_MAX,
    lemma_dot_self_nonneg, lemma_normalize_length_floor};
use crate::fixed::lemma_tdiv_bounds;

verus! {

/// Relies on rand::Rng::gen_range over a half-open `i64` range: the sample
/// always lies in `[min, max)`, and the call panics only on an empty range,
/// which the precondition excludes.
#[verifier::external_body]
fn rand_i64(min: i64, max: i64) -> (r: i64)
    requires
        min < max,
    ensures
        min <= r < max,
{
    rand::thread_rng().gen_range(min..max)
}

/// A uniform fixed-point sample from the half-open unit interval, the
/// jitter offset's range.
pub fn random_float() -> (r: i64)
    ensures
        0 <= r < ONE,
{
    rand_i64(0, ONE)
}

/// A uniform fixed-point sample from `[min, max)`.
pub fn random_float_in_range(min: i64, max: i64) -> (r: i64)
    requires
        min < max,
    ensures
        min <= r < max,
{
    rand_i64(min, max)
}

/// A nonzero vector strictly inside the unit sphere, sampled uniformly by
/// rejection; after a generous retry budget a fixed interior vector stands
/// in, so the search provably terminates.
pub fn random_in_unit_sphere() -> (v: Vec3)
    ensures
        vec_bounded(v, SCALE as int),
        0 < dot_raw(v, v),
        0 < fx_dot_spec(v, v) < SCALE,
{
    let mut tries: u32 = 0;
    while tries < 1024
        decreases 1024 - tries,
    {
        let p: Vec3 = Vec3::random_in_range(-SCALE, SCALE);
        let ls: i64 = p.length_squared();
        if 0 < ls && ls < SCALE {
            proof {
                lemma_dot_self_nonneg(p);
                lemma_tdiv_bounds(dot_raw(p, p), SCALE as int);
            }
            return p;
        }
        tries = tries + 1;
    }
    let fallback: Vec3 = Vec3::new(SCALE / 2, 0, 0);
    proof {
        assert(dot_raw(fallback, fallback) == 32768int * 32768int);
        lemma_tdiv_bounds(dot_raw(fallback, fallback), SCALE as int);
        assert(0 < tdiv(32768int * 32768int, SCALE as int) < SCALE);
    }
    fallback
}

/// The normalization of a fresh unit-sphere sample: a vector whose squared
/// length is one unit within the sample's rounding tolerance.
pub fn random_unit_vector() -> (v: Vec3)
    ensures
        exists|s: Vec3|
            vec_bounded(s, SCALE as int) && 0 < dot_raw(s, s) && 0 < fx_dot_spec(s, s) < SCALE
                && v == #[trigger] normalized_of(s),
        vec_bounded(v, SCALE as int),
        SCALE as int - 7 <= fx_dot_spec(v, v) <= SCALE as int + 518,
{
    let s: Vec3 = random_in_unit_sphere();
    let v: Vec3 = s.normalize();
    proof {
        lemma_normalize_length_floor(s);
        assert(vec_bounded(s, SCALE as int) && 0 < dot_raw(s, s)
            && 0 < fx_dot_spec(s, s) < SCALE && v == normalized_of(s));
    }
    v
}

/// A nonzero vector inside the unit sphere that does not point away from
/// the hemisphere around `normal`: the sample is kept when its raw dot
/// with the normal is positive, negated otherwise.
pub fn random_in_hemisphere(normal: Vec3) -> (v: Vec3)
    requires
        vec_bounded(normal, RAW_MAX as int),
    ensures
        vec_bounded(v, SCALE as int),
        0 < dot_raw(v, v),
        0 < fx_dot_spec(v, v) < SCALE,
        dot_raw(v, normal) >= 0,
{
    let in_unit_sphere: Vec3 = random_in_unit_sphere();
    if Vec3::dot_raw_sign(&in_unit_sphere, &normal) > 0 {
        in_unit_sphere
    } else {
        let n: Vec3 = in_unit_sphere.neg();
        proof {
            lemma_dot_neg(in_unit_sphere, normal);
        }
        n
    }
}

/// Negating one side of a dot product negates the raw dot product, and
/// negation preserves the self dot product.
proof fn lemma_dot_neg(a: Vec3, b: Vec3)
    requires
        i64::MIN < a.x,
        i64::MIN < a.y,
        i64::MIN < a.z,
    ensures
        dot_raw(Vec3 { x: (-a.x) as i64, y: (-a.y) as i64, z: (-a.z) as i64 }, b)
            == -dot_raw(a, b),
        dot_raw(Vec3 { x: (-a.x) as i64, y: (-a.y) as i64, z: (-a.z) as i64 },
            Vec3 { x: (-a.x) as i64, y: (-a.y) as i64, z: (-a.z) as i64 }) == dot_raw(a, a),
{
    let m = Vec3 { x: (-a.x) as i64, y: (-a.y) as i64, z: (-a.z) as i64 };
    assert(dot_raw(m, b) == -dot_raw(a, b) && dot_raw(m, m) == dot_raw(a, a))
        by (nonlinear_arith)
        requires
            m.x == -a.x,
            m.y == -a.y,
            m.z == -a.z,
    ;
}

} // verus!
