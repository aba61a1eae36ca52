//! Affine rescaling of milli-unit values between closed ranges, with
//! bounds on what fixed-point truncation costs a round trip.

use vstd::prelude::*;

verus! {

use crate::SCALE;
use vstd::arithmetic::div_mod::{lemma_fundamental_div_mod, lemma_mod_bound};

/// Largest magnitude a milli-unit value may have when it is rescaled;
/// keeps every intermediate product inside `i64`.
pub const RANGE_LIMIT: i64 = 1_000_000_000;

/// Where `value` sits inside `[a, b]`, as a milli-unit fraction.
pub open spec fn normalize_spec(a: int, b: int, value: int) -> int {
    ((value - a) * (SCALE as int)) / (b - a)
}

/// The value the milli-unit fraction `f` of the way from `a` to `b`.
pub open spec fn lerp_spec(a: int, b: int, f: int) -> int {
    a + ((b - a) * f) / (SCALE as int)
}

/// `value` rescaled from `[left_min, left_max]` to
/// `[right_min, right_max]`.
pub open spec fn map_spec(
    left_min: int,
    left_max: int,
    value: int,
    right_min: int,
    right_max: int,
) -> int {
    lerp_spec(right_min, right_max, normalize_spec(left_min, left_max, value))
}

/// Linear interpolation: walks the fraction `f` (in milli-units, so
/// `0 ..= 1000` spans the range) of the way from `a` to `b`.
pub fn lerp(a: i64, b: i64, f: i64) -> (r: i64)
    requires
        -RANGE_LIMIT <= a <= b <= RANGE_LIMIT,
        0 <= f <= crate::SCALE,
    ensures
        r == lerp_spec(a as int, b as int, f as int),
        a <= r <= b,
{
    proof {
        let d = (b - a) as int;
        let s = crate::SCALE as int;
        assert(0 <= d * f <= d * s) by (nonlinear_arith)
            requires 0 <= d, 0 <= f <= s;
        assert((d * f) / s <= (d * s) / s) by (nonlinear_arith)
            requires 0 <= d * f <= d * s, 0 < s;
        assert((d * s) / s == d) by (nonlinear_arith)
            requires 0 < s;
    }
    a + ((b - a) * f) / SCALE
}

/// Where `value` sits inside `[a, b]`, as a milli-unit fraction:
/// `a` maps to `0`, `b` maps to `1000`, and values past `b`
/// extrapolate beyond `1000`.
pub fn normalize(a: i64, b: i64, value: i64) -> (r: i64)
    requires
        -RANGE_LIMIT <= a < b <= RANGE_LIMIT,
        a <= value <= RANGE_LIMIT,
    ensures
        r == normalize_spec(a as int, b as int, value as int),
        r >= 0,
        value <= b ==> r <= crate::SCALE,
{
    proof {
        let n = (value - a) as int;
        let d = (b - a) as int;
        let s = crate::SCALE as int;
        assert(0 <= n * s) by (nonlinear_arith)
            requires 0 <= n, 0 <= s;
        assert(0 <= (n * s) / d) by (nonlinear_arith)
            requires 0 <= n * s, 0 < d;
        if value <= b {
            assert(n * s <= d * s) by (nonlinear_arith)
                requires 0 <= n <= d, 0 <= s;
            assert((n * s) / d <= (d * s) / d) by (nonlinear_arith)
                requires n * s <= d * s, 0 < d;
            assert((d * s) / d == s) by (nonlinear_arith)
                requires 0 < d;
        }
    }
    ((value - a) * SCALE) / (b - a)
}

/// Rescales `value` from the range `[left_min, left_max]` into the range
/// `[right_min, right_max]`, in milli-unit precision.
pub fn map(left_min: i64, left_max: i64, value: i64, right_min: i64, right_max: i64) -> (r: i64)
    requires
        -RANGE_LIMIT <= left_min < left_max <= RANGE_LIMIT,
        left_min <= value <= left_max,
        -RANGE_LIMIT <= right_min <= right_max <= RANGE_LIMIT,
    ensures
        r == map_spec(
            left_min as int, left_max as int, value as int,
            right_min as int, right_max as int,
        ),
        right_min <= r <= right_max,
{
    let f: i64 = normalize(left_min, left_max, value);
    lerp(right_min, right_max, f)
}

/// What fixed-point truncation costs the exact inverse law
/// `map(a, b, v, a, b) == v`: rescaling a value onto its own range
/// comes back at most one quantization step (a thousandth of the
/// range, plus one) below it, never above.
pub proof fn lemma_map_identity_error(a: int, b: int, v: int)
    requires
        a < b,
        a <= v <= b,
    ensures
        map_spec(a, b, v, a, b) <= v,
        v - map_spec(a, b, v, a, b) <= (b - a) / (SCALE as int) + 1,
{
    let s = SCALE as int;
    let d = b - a;
    let w = v - a;
    let f = (w * s) / d;
    let q = (d * f) / s;
    lemma_fundamental_div_mod(w * s, d);
    lemma_fundamental_div_mod(d * f, s);
    lemma_mod_bound(w * s, d);
    lemma_mod_bound(d * f, s);
    let r1 = (w * s) % d;
    let r2 = (d * f) % s;
    assert(s * (w - q) == r1 + r2) by (nonlinear_arith)
        requires w * s == d * f + r1, d * f == s * q + r2;
    assert(0 <= w - q) by (nonlinear_arith)
        requires s * (w - q) == r1 + r2, 0 <= r1 + r2, 0 < s;
    lemma_fundamental_div_mod(d, s);
    lemma_mod_bound(d, s);
    assert(w - q <= d / s + 1) by (nonlinear_arith)
        requires
            s * (w - q) == r1 + r2,
            r1 < d,
            r2 < s,
            d == s * (d / s) + d % s,
            0 <= d % s < s,
            0 < s;
    assert(map_spec(a, b, v, a, b) == a + q);
}

/// The matching bound for the other direction,
/// `normalize(a, b, lerp(a, b, f)) == f`: the fraction comes back at
/// most one quantization step of the fraction scale below itself,
/// never above.
pub proof fn lemma_normalize_lerp_error(a: int, b: int, f: int)
    requires
        a < b,
        0 <= f <= SCALE as int,
    ensures
        normalize_spec(a, b, lerp_spec(a, b, f)) <= f,
        f - normalize_spec(a, b, lerp_spec(a, b, f))
            <= (SCALE as int) / (b - a) + 1,
{
    let s = SCALE as int;
    let d = b - a;
    let q = (d * f) / s;
    let g = (q * s) / d;
    lemma_fundamental_div_mod(d * f, s);
    lemma_fundamental_div_mod(q * s, d);
    lemma_mod_bound(d * f, s);
    assert(0 <= q) by (nonlinear_arith)
        requires d * f == s * q + (d * f) % s, 0 <= d * f, 0 <= (d * f) % s < s, 0 < s;
    lemma_mod_bound(q * s, d);
    let r1 = (d * f) % s;
    let r2 = (q * s) % d;
    assert(d * (f - g) == r1 + r2) by (nonlinear_arith)
        requires d * f == s * q + r1, q * s == d * g + r2;
    assert(0 <= f - g) by (nonlinear_arith)
        requires d * (f - g) == r1 + r2, 0 <= r1 + r2, 0 < d;
    lemma_fundamental_div_mod(s, d);
    lemma_mod_bound(s, d);
    assert(f - g <= s / d + 1) by (nonlinear_arith)
        requires
            d * (f - g) == r1 + r2,
            r1 < s,
            r2 < d,
            s == d * (s / d) + s % d,
            0 <= s % d < d,
            0 < d;
    assert(lerp_spec(a, b, f) == a + q);
    assert(normalize_spec(a, b, a + q) == g);
}

} // verus!
