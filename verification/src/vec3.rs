//! Three-component vector and point algebra over fixed-point scalars.

use vstd::prelude::*;
use crate::fixed::{SCALE, tdiv, fx_mul_spec, fx_div_spec, fx_mul, fx_div, sqrt_int, isqrt_u128,
    lemma_tdiv_bounds, lemma_tdiv_monotone, lemma_tdiv_exact, lemma_sqrt_int_props,
    lemma_sqrt_int_unique, lemma_tdiv_remainder};
use crate::utility::random_float_in_range;

verus! {

/// Componentwise bound on the raw values a dot product may take without
/// overflowing its `i128` intermediates.
pub const RAW_MAX: i64 = 0x1000000000000000;

/// Componentwise bound under which squared length and length fit an `i64`.
pub const LEN_MAX: i64 = 0x100000000;

/// A vector of three fixed-point components.
#[derive(Clone, Copy, PartialEq, Eq, Structural, Debug)]
pub struct Vec3 {
    pub x: i64,
    pub y: i64,
    pub z: i64,
}

/// A location in space; same representation as a direction.
pub type Point = Vec3;

/// Every component of `v` lies within `b` of zero.
pub open spec fn vec_bounded(v: Vec3, b: int) -> bool {
    -b <= v.x <= b && -b <= v.y <= b && -b <= v.z <= b
}

/// The unscaled dot product: a sum of raw component products, in units of
/// `SCALE` squared.
pub open spec fn dot_raw(a: Vec3, b: Vec3) -> int {
    (a.x as int) * (b.x as int) + (a.y as int) * (b.y as int) + (a.z as int) * (b.z as int)
}

/// The fixed-point dot product: the raw sum rescaled by `SCALE`.
pub open spec fn fx_dot_spec(a: Vec3, b: Vec3) -> int {
    tdiv(dot_raw(a, b), SCALE as int)
}

/// A product of values bounded by `ba` and `bb` is bounded by `ba * bb`.
pub proof fn lemma_mul_bound(a: int, b: int, ba: int, bb: int)
    by (nonlinear_arith)
    requires
        -ba <= a <= ba,
        -bb <= b <= bb,
        0 <= ba,
        0 <= bb,
    ensures
        -(ba * bb) <= a * b <= ba * bb,
{
}

/// A vector's dot product with itself is a sum of squares, hence nonnegative.
pub proof fn lemma_dot_self_nonneg(v: Vec3)
    by (nonlinear_arith)
    ensures
        dot_raw(v, v) >= 0,
{
}

/// No component of a vector outweighs the vector's own length.
pub proof fn lemma_component_le_sqrt_dot(v: Vec3)
    requires
        vec_bounded(v, LEN_MAX as int),
    ensures
        -sqrt_int(dot_raw(v, v)) <= v.x <= sqrt_int(dot_raw(v, v)),
        -sqrt_int(dot_raw(v, v)) <= v.y <= sqrt_int(dot_raw(v, v)),
        -sqrt_int(dot_raw(v, v)) <= v.z <= sqrt_int(dot_raw(v, v)),
{
    lemma_dot_self_nonneg(v);
    let n = dot_raw(v, v);
    let s = sqrt_int(n);
    lemma_sqrt_int_props(n);
    assert(-s <= v.x <= s && -s <= v.y <= s && -s <= v.z <= s) by (nonlinear_arith)
        requires
            n == (v.x as int) * (v.x as int) + (v.y as int) * (v.y as int)
                + (v.z as int) * (v.z as int),
            0 <= s,
            n < (s + 1) * (s + 1),
    ;
}

impl Vec3 {
    /// The vector with the given components.
    pub fn new(x: i64, y: i64, z: i64) -> (v: Vec3)
        ensures
            v == (Vec3 { x, y, z }),
    {
        Vec3 { x, y, z }
    }

    /// The zero vector.
    pub fn zero() -> (v: Vec3)
        ensures
            v == (Vec3 { x: 0i64, y: 0i64, z: 0i64 }),
    {
        Vec3 { x: 0, y: 0, z: 0 }
    }

    /// The all-ones vector: one world unit on each axis.
    pub fn one() -> (v: Vec3)
        ensures
            v == (Vec3 { x: SCALE, y: SCALE, z: SCALE }),
    {
        Vec3 { x: SCALE, y: SCALE, z: SCALE }
    }

    /// Componentwise sum.
    pub fn add(self, o: Vec3) -> (r: Vec3)
        requires
            i64::MIN <= self.x + o.x <= i64::MAX,
            i64::MIN <= self.y + o.y <= i64::MAX,
            i64::MIN <= self.z + o.z <= i64::MAX,
        ensures
            r.x == self.x + o.x,
            r.y == self.y + o.y,
            r.z == self.z + o.z,
    {
        Vec3 { x: self.x + o.x, y: self.y + o.y, z: self.z + o.z }
    }

    /// Componentwise difference.
    pub fn sub(self, o: Vec3) -> (r: Vec3)
        requires
            i64::MIN <= self.x - o.x <= i64::MAX,
            i64::MIN <= self.y - o.y <= i64::MAX,
            i64::MIN <= self.z - o.z <= i64::MAX,
        ensures
            r.x == self.x - o.x,
            r.y == self.y - o.y,
            r.z == self.z - o.z,
    {
        Vec3 { x: self.x - o.x, y: self.y - o.y, z: self.z - o.z }
    }

    /// Componentwise negation.
    pub fn neg(self) -> (r: Vec3)
        requires
            i64::MIN < self.x,
            i64::MIN < self.y,
            i64::MIN < self.z,
        ensures
            r.x == -self.x,
            r.y == -self.y,
            r.z == -self.z,
    {
        Vec3 { x: -self.x, y: -self.y, z: -self.z }
    }

    /// The vector scaled by the fixed-point factor `s`.
    pub fn scale(self, s: i64) -> (r: Vec3)
        requires
            i64::MIN <= fx_mul_spec(self.x as int, s as int) <= i64::MAX,
            i64::MIN <= fx_mul_spec(self.y as int, s as int) <= i64::MAX,
            i64::MIN <= fx_mul_spec(self.z as int, s as int) <= i64::MAX,
        ensures
            r.x == fx_mul_spec(self.x as int, s as int),
            r.y == fx_mul_spec(self.y as int, s as int),
            r.z == fx_mul_spec(self.z as int, s as int),
    {
        Vec3 { x: fx_mul(self.x, s), y: fx_mul(self.y, s), z: fx_mul(self.z, s) }
    }

    /// The vector divided by the positive fixed-point scalar `s`.
    pub fn div_s(self, s: i64) -> (r: Vec3)
        requires
            0 < s,
            i64::MIN <= fx_div_spec(self.x as int, s as int) <= i64::MAX,
            i64::MIN <= fx_div_spec(self.y as int, s as int) <= i64::MAX,
            i64::MIN <= fx_div_spec(self.z as int, s as int) <= i64::MAX,
        ensures
            r.x == fx_div_spec(self.x as int, s as int),
            r.y == fx_div_spec(self.y as int, s as int),
            r.z == fx_div_spec(self.z as int, s as int),
    {
        Vec3 { x: fx_div(self.x, s), y: fx_div(self.y, s), z: fx_div(self.z, s) }
    }

    /// The sign of the raw (unscaled) dot product: exact, unlike the sign
    /// of the fixed-point dot, which truncation can round to zero.
    pub fn dot_raw_sign(a: &Vec3, b: &Vec3) -> (r: i64)
        requires
            vec_bounded(*a, RAW_MAX as int),
            vec_bounded(*b, RAW_MAX as int),
        ensures
            (r == -1) <==> dot_raw(*a, *b) < 0,
            (r == 0) <==> dot_raw(*a, *b) == 0,
            (r == 1) <==> dot_raw(*a, *b) > 0,
    {
        proof {
            lemma_mul_bound(a.x as int, b.x as int, RAW_MAX as int, RAW_MAX as int);
            lemma_mul_bound(a.y as int, b.y as int, RAW_MAX as int, RAW_MAX as int);
            lemma_mul_bound(a.z as int, b.z as int, RAW_MAX as int, RAW_MAX as int);
        }
        let p: i128 = (a.x as i128) * (b.x as i128) + (a.y as i128) * (b.y as i128)
            + (a.z as i128) * (b.z as i128);
        if p < 0 {
            -1
        } else if p == 0 {
            0
        } else {
            1
        }
    }

    /// The fixed-point dot product of two vectors.
    pub fn dot(a: &Vec3, b: &Vec3) -> (r: i64)
        requires
            vec_bounded(*a, RAW_MAX as int),
            vec_bounded(*b, RAW_MAX as int),
            i64::MIN <= fx_dot_spec(*a, *b) <= i64::MAX,
        ensures
            r == fx_dot_spec(*a, *b),
    {
        proof {
            lemma_mul_bound(a.x as int, b.x as int, RAW_MAX as int, RAW_MAX as int);
            lemma_mul_bound(a.y as int, b.y as int, RAW_MAX as int, RAW_MAX as int);
            lemma_mul_bound(a.z as int, b.z as int, RAW_MAX as int, RAW_MAX as int);
        }
        let p: i128 = (a.x as i128) * (b.x as i128) + (a.y as i128) * (b.y as i128)
            + (a.z as i128) * (b.z as i128);
        let q: i128 = crate::fixed::div_trunc(p, SCALE as i128);
        proof {
            lemma_tdiv_bounds(p as int, SCALE as int);
        }
        q as i64
    }

    /// The squared length, as a fixed-point scalar.
    pub fn length_squared(self) -> (r: i64)
        requires
            vec_bounded(self, LEN_MAX as int),
        ensures
            r == fx_dot_spec(self, self),
            r >= 0,
    {
        proof {
            lemma_dot_self_nonneg(self);
            lemma_mul_bound(self.x as int, self.x as int, LEN_MAX as int, LEN_MAX as int);
            lemma_mul_bound(self.y as int, self.y as int, LEN_MAX as int, LEN_MAX as int);
            lemma_mul_bound(self.z as int, self.z as int, LEN_MAX as int, LEN_MAX as int);
            lemma_tdiv_bounds(dot_raw(self, self), SCALE as int);
        }
        Vec3::dot(&self, &self)
    }

    /// The length: the integer square root of the raw self dot product,
    /// which lands directly on the fixed-point scale.
    pub fn length(self) -> (r: i64)
        requires
            vec_bounded(self, LEN_MAX as int),
        ensures
            r == sqrt_int(dot_raw(self, self)),
            r >= 0,
    {
        proof {
            lemma_dot_self_nonneg(self);
            lemma_mul_bound(self.x as int, self.x as int, LEN_MAX as int, LEN_MAX as int);
            lemma_mul_bound(self.y as int, self.y as int, LEN_MAX as int, LEN_MAX as int);
            lemma_mul_bound(self.z as int, self.z as int, LEN_MAX as int, LEN_MAX as int);
        }
        let p: i128 = (self.x as i128) * (self.x as i128) + (self.y as i128) * (self.y as i128)
            + (self.z as i128) * (self.z as i128);
        let s: u128 = isqrt_u128(p as u128);
        proof {
            let n = dot_raw(self, self);
            lemma_sqrt_int_props(n);
            assert(n < 0x40000000000000000int);
            assert(sqrt_int(n) < 0x200000000int) by (nonlinear_arith)
                requires
                    0 <= sqrt_int(n),
                    sqrt_int(n) * sqrt_int(n) <= n,
                    n < 0x40000000000000000int,
            ;
        }
        s as i64
    }

    /// The vector rescaled to unit length, within fixed-point rounding;
    /// undefined for the zero vector, which is excluded.
    pub fn normalize(self) -> (r: Vec3)
        requires
            vec_bounded(self, LEN_MAX as int),
            dot_raw(self, self) > 0,
        ensures
            r.x == fx_div_spec(self.x as int, sqrt_int(dot_raw(self, self))),
            r.y == fx_div_spec(self.y as int, sqrt_int(dot_raw(self, self))),
            r.z == fx_div_spec(self.z as int, sqrt_int(dot_raw(self, self))),
            r == normalized_of(self),
            vec_bounded(r, SCALE as int),
    {
        let len: i64 = self.length();
        proof {
            let n = dot_raw(self, self);
            lemma_sqrt_int_props(n);
            if sqrt_int(n) == 0 {
                assert((sqrt_int(n) + 1) * (sqrt_int(n) + 1) == 1) by (nonlinear_arith)
                    requires
                        sqrt_int(n) == 0,
                ;
                assert(false);
            }
            lemma_component_le_sqrt_dot(self);
            lemma_div_unit_bound(self.x as int, len as int);
            lemma_div_unit_bound(self.y as int, len as int);
            lemma_div_unit_bound(self.z as int, len as int);
        }
        self.div_s(len)
    }

    /// A vector whose components are each drawn uniformly from
    /// `[min, max)`.
    pub fn random_in_range(min: i64, max: i64) -> (v: Vec3)
        requires
            min < max,
        ensures
            min <= v.x < max,
            min <= v.y < max,
            min <= v.z < max,
    {
        Vec3 {
            x: random_float_in_range(min, max),
            y: random_float_in_range(min, max),
            z: random_float_in_range(min, max),
        }
    }
}

/// The vector `v` rescaled to unit length, as `normalize` computes it:
/// each component times `SCALE`, divided by the length, rounded toward
/// zero.
pub open spec fn normalized_of(v: Vec3) -> Vec3 {
    Vec3 {
        x: fx_div_spec(v.x as int, sqrt_int(dot_raw(v, v))) as i64,
        y: fx_div_spec(v.y as int, sqrt_int(dot_raw(v, v))) as i64,
        z: fx_div_spec(v.z as int, sqrt_int(dot_raw(v, v))) as i64,
    }
}

/// One normalized component, squared and rescaled by the squared length:
/// it tracks the exact square within the rounding slack of one division.
proof fn lemma_unit_comp_square(x: int, l: int)
    requires
        0 < l,
        -l <= x <= l,
    ensures
        -(SCALE as int) <= fx_div_spec(x, l) <= SCALE as int,
        (fx_div_spec(x, l) * fx_div_spec(x, l)) * (l * l)
            <= (x * x) * 4294967296 + 131072 * (l * l) + (l * l),
        (fx_div_spec(x, l) * fx_div_spec(x, l)) * (l * l)
            >= (x * x) * 4294967296 - 131072 * (l * l) - (l * l),
{
    lemma_div_unit_bound(x, l);
    lemma_tdiv_remainder(x * (SCALE as int), l);
    let q = fx_div_spec(x, l);
    let d = q * l - x * 65536;
    assert((q * q) * (l * l) == (x * x) * 4294967296 + d * (2 * (x * 65536) + d))
        by (nonlinear_arith)
        requires
            d == q * l - x * 65536,
    ;
    assert(-(131072 * (l * l)) - (l * l) <= d * (2 * (x * 65536) + d)
        && d * (2 * (x * 65536) + d) <= 131072 * (l * l) + (l * l))
        by (nonlinear_arith)
        requires
            -l < d < l,
            -l <= x <= l,
            0 < l,
    ;
}

/// Normalizing any vector at least one unit long yields a vector of unit
/// length within rounding tolerance: its squared length strays from one
/// unit by less than eight parts in `SCALE`. (Shorter vectors keep fewer
/// significant digits and may stray further.)
pub proof fn lemma_normalize_unit_length(v: Vec3)
    requires
        vec_bounded(v, LEN_MAX as int),
        sqrt_int(dot_raw(v, v)) >= SCALE as int,
    ensures
        SCALE as int - 7 <= fx_dot_spec(normalized_of(v), normalized_of(v)),
        fx_dot_spec(normalized_of(v), normalized_of(v)) <= SCALE as int + 8,
{
    let n = dot_raw(v, v);
    let l = sqrt_int(n);
    lemma_dot_self_nonneg(v);
    lemma_sqrt_int_props(n);
    lemma_component_le_sqrt_dot(v);
    let qx = fx_div_spec(v.x as int, l);
    let qy = fx_div_spec(v.y as int, l);
    let qz = fx_div_spec(v.z as int, l);
    lemma_unit_comp_square(v.x as int, l);
    lemma_unit_comp_square(v.y as int, l);
    lemma_unit_comp_square(v.z as int, l);
    let sumq = qx * qx + qy * qy + qz * qz;
    assert((l * l) * sumq == (qx * qx) * (l * l) + (qy * qy) * (l * l) + (qz * qz) * (l * l))
        by (nonlinear_arith)
        requires
            sumq == qx * qx + qy * qy + qz * qz,
    ;
    assert(4294967296 * n == ((v.x as int) * (v.x as int)) * 4294967296
        + ((v.y as int) * (v.y as int)) * 4294967296
        + ((v.z as int) * (v.z as int)) * 4294967296) by (nonlinear_arith)
        requires
            n == (v.x as int) * (v.x as int) + (v.y as int) * (v.y as int)
                + (v.z as int) * (v.z as int),
    ;
    // Sum the three component bounds, then bound the exact square sum by
    // the bracketing of `n` between the squares of `l` and `l + 1`.
    assert((l * l) * sumq <= 4294967296 * n + 393216 * (l * l) + 3 * (l * l));
    assert((l * l) * sumq >= 4294967296 * n - 393216 * (l * l) - 3 * (l * l));
    assert(n <= (l * l) + 2 * l) by (nonlinear_arith)
        requires
            n < (l + 1) * (l + 1),
    ;
    assert(n >= (l * l));
    assert(8589934592 * l <= 131072 * (l * l)) by (nonlinear_arith)
        requires
            l >= 65536,
    ;
    assert((l * l) * sumq <= 4295491587 * (l * l));
    assert((l * l) * sumq >= 4294574077 * (l * l));
    assert(sumq <= 4295491587 && sumq >= 4294574077) by (nonlinear_arith)
        requires
            (l * l) * sumq <= 4295491587 * (l * l),
            (l * l) * sumq >= 4294574077 * (l * l),
            l >= 1,
    ;
    let u = normalized_of(v);
    assert(u.x as int == qx && u.y as int == qy && u.z as int == qz);
    assert(dot_raw(u, u) == sumq);
    lemma_tdiv_monotone(sumq, 4295491587, 65536);
    lemma_tdiv_monotone(4294574077, sumq, 65536);
    assert(tdiv(4295491587, 65536) == 65544);
    assert(tdiv(4294574077, 65536) == 65529);
}

/// Normalizing a vector whose fixed-point squared length is at least one
/// step — so whose length is at least 1/256 unit, as every accepted
/// unit-sphere sample's is — yields a squared length within 518 parts in
/// `SCALE` of one unit. The shorter the vector, the fewer significant
/// digits survive the division, hence the wider band than the one-unit
/// law's.
pub proof fn lemma_normalize_length_floor(v: Vec3)
    requires
        vec_bounded(v, LEN_MAX as int),
        1 <= fx_dot_spec(v, v),
    ensures
        SCALE as int - 7 <= fx_dot_spec(normalized_of(v), normalized_of(v)),
        fx_dot_spec(normalized_of(v), normalized_of(v)) <= SCALE as int + 518,
{
    let n = dot_raw(v, v);
    let l = sqrt_int(n);
    lemma_dot_self_nonneg(v);
    lemma_sqrt_int_props(n);
    assert(n >= 65536);
    if l <= 255 {
        assert((l + 1) * (l + 1) <= 65536) by (nonlinear_arith)
            requires
                0 <= l <= 255,
        ;
        assert(false);
    }
    lemma_component_le_sqrt_dot(v);
    let qx = fx_div_spec(v.x as int, l);
    let qy = fx_div_spec(v.y as int, l);
    let qz = fx_div_spec(v.z as int, l);
    lemma_unit_comp_square(v.x as int, l);
    lemma_unit_comp_square(v.y as int, l);
    lemma_unit_comp_square(v.z as int, l);
    let sumq = qx * qx + qy * qy + qz * qz;
    assert((l * l) * sumq == (qx * qx) * (l * l) + (qy * qy) * (l * l) + (qz * qz) * (l * l))
        by (nonlinear_arith)
        requires
            sumq == qx * qx + qy * qy + qz * qz,
    ;
    assert(4294967296 * n == ((v.x as int) * (v.x as int)) * 4294967296
        + ((v.y as int) * (v.y as int)) * 4294967296
        + ((v.z as int) * (v.z as int)) * 4294967296) by (nonlinear_arith)
        requires
            n == (v.x as int) * (v.x as int) + (v.y as int) * (v.y as int)
                + (v.z as int) * (v.z as int),
    ;
    assert((l * l) * sumq <= 4294967296 * n + 393216 * (l * l) + 3 * (l * l));
    assert((l * l) * sumq >= 4294967296 * n - 393216 * (l * l) - 3 * (l * l));
    assert(n <= (l * l) + 2 * l) by (nonlinear_arith)
        requires
            n < (l + 1) * (l + 1),
    ;
    assert(n >= (l * l));
    assert(8589934592 * l <= 33554432 * (l * l)) by (nonlinear_arith)
        requires
            l >= 256,
    ;
    assert((l * l) * sumq <= 4328914947 * (l * l));
    assert((l * l) * sumq >= 4294574077 * (l * l));
    assert(sumq <= 4328914947 && sumq >= 4294574077) by (nonlinear_arith)
        requires
            (l * l) * sumq <= 4328914947 * (l * l),
            (l * l) * sumq >= 4294574077 * (l * l),
            l >= 1,
    ;
    let u = normalized_of(v);
    assert(u.x as int == qx && u.y as int == qy && u.z as int == qz);
    assert(dot_raw(u, u) == sumq);
    lemma_tdiv_monotone(sumq, 4328914947, 65536);
    lemma_tdiv_monotone(4294574077, sumq, 65536);
    assert(tdiv(4328914947, 65536) == 66054);
    assert(tdiv(4294574077, 65536) == 65529);
}

/// A vector's dot product with itself is its squared length: `dot` and
/// `length_squared` promise the very same value, the raw sum of squared
/// components rescaled by `SCALE`, and that value is never negative.
pub proof fn lemma_dot_self_is_length_squared(v: Vec3)
    ensures
        fx_dot_spec(v, v) == tdiv(dot_raw(v, v), SCALE as int),
        dot_raw(v, v) == (v.x as int) * (v.x as int) + (v.y as int) * (v.y as int)
            + (v.z as int) * (v.z as int),
        fx_dot_spec(v, v) >= 0,
{
    lemma_dot_self_nonneg(v);
    lemma_tdiv_bounds(dot_raw(v, v), SCALE as int);
}

/// Vector addition and subtraction are mutual inverses, exactly: adding
/// `b` and subtracting it again — in either order — recovers `a`
/// componentwise.
pub proof fn lemma_add_sub_inverse(a: Vec3, b: Vec3)
    ensures
        (a.x + b.x) - b.x == a.x && (a.y + b.y) - b.y == a.y && (a.z + b.z) - b.z == a.z,
        (a.x - b.x) + b.x == a.x && (a.y - b.y) + b.y == a.y && (a.z - b.z) + b.z == a.z,
{
}

/// Normalizing an axis-aligned vector lands exactly on unit length: the
/// nonzero component becomes one unit, and the result's squared length is
/// exactly one unit. (For general vectors the unit length holds only
/// within rounding tolerance.)
pub proof fn lemma_normalize_axis_unit(v: Vec3)
    requires
        0 < v.x <= LEN_MAX,
        v.y == 0,
        v.z == 0,
    ensures
        sqrt_int(dot_raw(v, v)) == v.x,
        fx_div_spec(v.x as int, sqrt_int(dot_raw(v, v))) == SCALE as int,
        fx_dot_spec(Vec3 { x: SCALE, y: 0i64, z: 0i64 }, Vec3 { x: SCALE, y: 0i64, z: 0i64 })
            == SCALE as int,
{
    let n = dot_raw(v, v);
    assert(n == (v.x as int) * (v.x as int));
    assert((v.x as int) * (v.x as int) < ((v.x as int) + 1) * ((v.x as int) + 1))
        by (nonlinear_arith)
        requires
            0 < v.x,
    ;
    lemma_sqrt_int_unique(n, v.x as int);
    lemma_tdiv_exact(SCALE as int, v.x as int);
    assert((v.x as int) * (SCALE as int) == (SCALE as int) * (v.x as int));
    assert((SCALE as int) * (SCALE as int) == 0x100000000int) by (nonlinear_arith);
}

/// A component no larger than the length divides to at most one unit.
proof fn lemma_div_unit_bound(x: int, len: int)
    requires
        0 < len,
        -len <= x <= len,
    ensures
        -(SCALE as int) <= fx_div_spec(x, len) <= SCALE as int,
{
    assert(x * (SCALE as int) <= len * (SCALE as int)) by (nonlinear_arith)
        requires
            x <= len,
            0 < SCALE,
    ;
    assert(-(len * (SCALE as int)) <= x * (SCALE as int)) by (nonlinear_arith)
        requires
            -len <= x,
            0 < SCALE,
    ;
    lemma_tdiv_monotone(x * (SCALE as int), len * (SCALE as int), len);
    lemma_tdiv_monotone(-(len * (SCALE as int)), x * (SCALE as int), len);
    lemma_tdiv_exact(SCALE as int, len);
    assert(tdiv(len * (SCALE as int), len) == SCALE as int) by {
        assert(len * (SCALE as int) == (SCALE as int) * len) by (nonlinear_arith);
    }
    assert(tdiv(-(len * (SCALE as int)), len) == -(SCALE as int)) by {
        assert(-(len * (SCALE as int)) == (-(SCALE as int)) * len) by (nonlinear_arith);
        lemma_tdiv_exact(-(SCALE as int), len);
    }
}

} // verus!
