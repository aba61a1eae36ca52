//! Integer square root and distances between milli-unit positions.

use vstd::prelude::*;

verus! {

use crate::trajectory::{Vec3, MAX_SQ, MAX_DIST, coord_ok};

/// `r` is the integer square root of `n`.
pub open spec fn is_sqrt(n: int, r: int) -> bool {
    0 <= r && r * r <= n && n < (r + 1) * (r + 1)
}

/// The integer square root, as a recursively defined function.
pub open spec fn isqrt_spec(n: nat) -> nat
    decreases n,
{
    if n == 0 {
        0
    } else {
        let r = isqrt_spec((n - 1) as nat);
        if (r + 1) * (r + 1) <= n {
            r + 1
        } else {
            r
        }
    }
}

pub proof fn lemma_isqrt_spec_correct(n: nat)
    ensures
        is_sqrt(n as int, isqrt_spec(n) as int),
    decreases n,
{
    if n == 0 {
    } else {
        lemma_isqrt_spec_correct((n - 1) as nat);
        let r = isqrt_spec((n - 1) as nat) as int;
        if (r + 1) * (r + 1) <= n {
            assert(n == (r + 1) * (r + 1));
            assert((r + 1 + 1) * (r + 1 + 1) > (r + 1) * (r + 1)) by (nonlinear_arith)
                requires r >= 0;
        }
    }
}

pub proof fn lemma_isqrt_unique(n: int, a: int, b: int)
    requires
        is_sqrt(n, a),
        is_sqrt(n, b),
    ensures
        a == b,
{
    if a < b {
        assert((a + 1) * (a + 1) <= b * b) by (nonlinear_arith)
            requires 0 <= a, a < b;
    }
    if b < a {
        assert((b + 1) * (b + 1) <= a * a) by (nonlinear_arith)
            requires 0 <= b, b < a;
    }
}

/// The integer square root of `n`, by binary search.
pub fn isqrt(n: i64) -> (r: i64)
    requires
        0 <= n <= MAX_SQ,
    ensures
        r as nat == isqrt_spec(n as nat),
        is_sqrt(n as int, r as int),
        0 <= r < MAX_DIST,
{
    let mut lo: i64 = 0;
    let mut hi: i64 = MAX_DIST;
    while hi - lo > 1
        invariant
            0 <= lo < hi <= MAX_DIST,
            lo * lo <= n,
            n < hi * hi,
        decreases hi - lo,
    {
        let mid: i64 = lo + (hi - lo) / 2;
        proof {
            assert(mid * mid <= MAX_DIST * MAX_DIST) by (nonlinear_arith)
                requires 0 < mid < MAX_DIST;
        }
        if mid * mid <= n {
            lo = mid;
        } else {
            hi = mid;
        }
    }
    proof {
        assert(is_sqrt(n as int, lo as int));
        lemma_isqrt_spec_correct(n as nat);
        lemma_isqrt_unique(n as int, lo as int, isqrt_spec(n as nat) as int);
    }
    lo
}

/// Squared distance between two in-range positions.
pub open spec fn dist_sq_spec(a: Vec3, b: Vec3) -> int {
    let dx = a.x - b.x;
    let dy = a.y - b.y;
    let dz = a.z - b.z;
    dx * dx + dy * dy + dz * dz
}

/// Distance between two positions, in milli-units: the integer square
/// root of the squared milli-unit distance.
pub open spec fn dist_spec(a: Vec3, b: Vec3) -> int {
    isqrt_spec(dist_sq_spec(a, b) as nat) as int
}

pub open spec fn vec3_ok(p: Vec3) -> bool {
    coord_ok(p.x as int) && coord_ok(p.y as int) && coord_ok(p.z as int)
}

/// The distance between two in-range positions.
pub fn dist(a: Vec3, b: Vec3) -> (r: i64)
    requires
        vec3_ok(a),
        vec3_ok(b),
    ensures
        r == dist_spec(a, b),
        0 <= r < MAX_DIST,
{
    let dx: i64 = a.x - b.x;
    let dy: i64 = a.y - b.y;
    let dz: i64 = a.z - b.z;
    proof {
        assert(0 <= dx * dx <= 4_000_000_000_000) by (nonlinear_arith)
            requires -2_000_000 <= dx <= 2_000_000;
        assert(0 <= dy * dy <= 4_000_000_000_000) by (nonlinear_arith)
            requires -2_000_000 <= dy <= 2_000_000;
        assert(0 <= dz * dz <= 4_000_000_000_000) by (nonlinear_arith)
            requires -2_000_000 <= dz <= 2_000_000;
    }
    let sq: i64 = dx * dx + dy * dy + dz * dz;
    isqrt(sq)
}

} // verus!
