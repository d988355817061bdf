//! Fixed-point scalar arithmetic.
//!
//! A scalar is an `i64` counting `SCALE` steps per world unit. Products and
//! quotients are computed in `i128` and rounded toward zero; each operation's
//! contract states the exact result over mathematical integers.

use vstd::prelude::*;

verus! {

/// Number of fixed-point steps in one world unit.
pub const SCALE: i64 = 65536;

/// One world unit, as a fixed-point scalar.
pub const ONE: i64 = 65536;

/// Quotient of `n` by `d` rounded toward zero, for a positive divisor.
pub open spec fn tdiv(n: int, d: int) -> int {
    if n >= 0 {
        n / d
    } else {
        -((-n) / d)
    }
}

/// The exact value of a fixed-point product: `a * b` rescaled by `SCALE`,
/// rounded toward zero.
pub open spec fn fx_mul_spec(a: int, b: int) -> int {
    tdiv(a * b, SCALE as int)
}

/// The exact value of a fixed-point quotient with a positive divisor:
/// `a / b` rescaled by `SCALE`, rounded toward zero.
pub open spec fn fx_div_spec(a: int, b: int) -> int {
    tdiv(a * (SCALE as int), b)
}

/// Truncating division brackets the real quotient: `q * d` never overshoots
/// `n`, and misses it by less than `d`.
pub proof fn lemma_tdiv_props(n: int, d: int)
    by (nonlinear_arith)
    requires
        0 < d,
    ensures
        n >= 0 ==> 0 <= tdiv(n, d) && tdiv(n, d) * d <= n < (tdiv(n, d) + 1) * d,
        n < 0 ==> tdiv(n, d) <= 0 && (tdiv(n, d) - 1) * d < n <= tdiv(n, d) * d,
{
}

/// Truncating division shrinks magnitude: the quotient lies between 0 and `n`.
pub proof fn lemma_tdiv_bounds(n: int, d: int)
    by (nonlinear_arith)
    requires
        0 < d,
    ensures
        n >= 0 ==> 0 <= tdiv(n, d) <= n,
        n < 0 ==> n <= tdiv(n, d) <= 0,
{
}

/// Truncating division is monotone in the dividend.
pub proof fn lemma_tdiv_monotone(a: int, b: int, d: int)
    by (nonlinear_arith)
    requires
        0 < d,
        a <= b,
    ensures
        tdiv(a, d) <= tdiv(b, d),
{
}

/// The truncating quotient times the divisor lands within one divisor of
/// the dividend.
pub proof fn lemma_tdiv_remainder(n: int, d: int)
    requires
        0 < d,
    ensures
        -d < tdiv(n, d) * d - n,
        tdiv(n, d) * d - n < d,
{
    lemma_tdiv_props(n, d);
    let q = tdiv(n, d);
    if n >= 0 {
        assert((q + 1) * d == q * d + d) by (nonlinear_arith);
    } else {
        assert((q - 1) * d == q * d - d) by (nonlinear_arith);
    }
}

/// Negating the dividend negates the truncating quotient.
pub proof fn lemma_tdiv_neg(n: int, d: int)
    requires
        0 < d,
    ensures
        tdiv(-n, d) == -tdiv(n, d),
{
}

/// Dividing an exact multiple of `d` by `d` recovers the factor.
pub proof fn lemma_tdiv_exact(a: int, d: int)
    by (nonlinear_arith)
    requires
        0 < d,
    ensures
        tdiv(a * d, d) == a,
{
}

/// Quotient of `n` by the positive divisor `d`, rounded toward zero.
pub fn div_trunc(n: i128, d: i128) -> (q: i128)
    requires
        0 < d,
        i128::MIN < n,
    ensures
        q == tdiv(n as int, d as int),
{
    if n >= 0 {
        let q: u128 = (n as u128) / (d as u128);
        proof {
            lemma_tdiv_bounds(n as int, d as int);
        }
        q as i128
    } else {
        let m: i128 = -n;
        let q: u128 = (m as u128) / (d as u128);
        proof {
            lemma_tdiv_bounds(n as int, d as int);
        }
        -(q as i128)
    }
}

/// Fixed-point product of two scalars, exact up to rounding toward zero.
pub fn fx_mul(a: i64, b: i64) -> (r: i64)
    requires
        i64::MIN <= fx_mul_spec(a as int, b as int) <= i64::MAX,
    ensures
        r == fx_mul_spec(a as int, b as int),
{
    proof {
        assert((a as int) * (b as int) < i128::MAX && i128::MIN < (a as int) * (b as int))
            by (nonlinear_arith)
            requires
                i64::MIN <= a <= i64::MAX,
                i64::MIN <= b <= i64::MAX,
        ;
    }
    let p: i128 = (a as i128) * (b as i128);
    let q: i128 = div_trunc(p, SCALE as i128);
    q as i64
}

/// Fixed-point quotient of a scalar by a positive scalar, exact up to
/// rounding toward zero.
pub fn fx_div(a: i64, b: i64) -> (r: i64)
    requires
        0 < b,
        i64::MIN <= fx_div_spec(a as int, b as int) <= i64::MAX,
    ensures
        r == fx_div_spec(a as int, b as int),
{
    let p: i128 = (a as i128) * (SCALE as i128);
    let q: i128 = div_trunc(p, b as i128);
    q as i64
}

/// The integer square root: the largest integer whose square does not
/// exceed `n` (and 0 for negative `n`).
pub open spec fn sqrt_int(n: int) -> int
    decreases n,
{
    if n <= 0 {
        0
    } else if (sqrt_int(n - 1) + 1) * (sqrt_int(n - 1) + 1) <= n {
        sqrt_int(n - 1) + 1
    } else {
        sqrt_int(n - 1)
    }
}

/// `sqrt_int(n)` squared brackets `n` from below, and the next square
/// exceeds it.
pub proof fn lemma_sqrt_int_props(n: int)
    requires
        n >= 0,
    ensures
        0 <= sqrt_int(n),
        sqrt_int(n) * sqrt_int(n) <= n,
        n < (sqrt_int(n) + 1) * (sqrt_int(n) + 1),
    decreases n,
{
    if n == 0 {
    } else {
        lemma_sqrt_int_props(n - 1);
        let s = sqrt_int(n - 1);
        if (s + 1) * (s + 1) <= n {
            assert(n - 1 < (s + 1) * (s + 1));
            assert((s + 1) * (s + 1) == n);
            assert((s + 2) * (s + 2) > n) by (nonlinear_arith)
                requires
                    s >= 0,
                    (s + 1) * (s + 1) == n,
            ;
        }
    }
}

/// Any integer bracketed the same way as `sqrt_int(n)` is `sqrt_int(n)`.
pub proof fn lemma_sqrt_int_unique(n: int, r: int)
    requires
        n >= 0,
        r >= 0,
        r * r <= n,
        n < (r + 1) * (r + 1),
    ensures
        r == sqrt_int(n),
{
    lemma_sqrt_int_props(n);
    let s = sqrt_int(n);
    if r < s {
        assert((r + 1) * (r + 1) <= s * s) by (nonlinear_arith)
            requires
                0 <= r,
                r + 1 <= s,
        ;
    }
    if s < r {
        assert((s + 1) * (s + 1) <= r * r) by (nonlinear_arith)
            requires
                0 <= s,
                s + 1 <= r,
        ;
    }
}

/// Integer square root of `n`, by binary search on the root.
pub fn isqrt_u128(n: u128) -> (r: u128)
    requires
        n < 0x40000000000000000000000000000000u128,
    ensures
        r == sqrt_int(n as int),
        r * r <= n,
{
    let mut lo: u128 = 0;
    let mut hi: u128 = 0x8000000000000000u128;
    proof {
        assert(0x8000000000000000u128 * 0x8000000000000000u128
            == 0x40000000000000000000000000000000u128) by (nonlinear_arith);
    }
    while lo + 1 < hi
        invariant
            lo < hi <= 0x8000000000000000u128,
            (lo as int) * (lo as int) <= n as int,
            (n as int) < (hi as int) * (hi as int),
        decreases hi - lo,
    {
        let mid: u128 = lo + (hi - lo) / 2;
        proof {
            assert((mid as int) * (mid as int) < 0x40000000000000000000000000000000int)
                by (nonlinear_arith)
                requires
                    mid < 0x8000000000000000u128,
            ;
        }
        let sq: u128 = mid * mid;
        if sq <= n {
            lo = mid;
        } else {
            hi = mid;
        }
    }
    proof {
        lemma_sqrt_int_unique(n as int, lo as int);
    }
    lo
}

} // verus!
