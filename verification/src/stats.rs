//! Integer statistics over milli-unit samples: sum, mean, and mean
//! absolute deviation around the mean, each with an exact contract.

use vstd::prelude::*;

verus! {

/// Largest value a statistics sample may carry (milli-units).
pub const STAT_BOUND: i64 = 4_000_000_000;

/// Largest number of samples a statistics call accepts.
pub const STAT_LEN: usize = 200_000;

/// The mathematical integer view of a vector of milli-unit values.
pub open spec fn vals(v: Seq<i64>) -> Seq<int> {
    v.map_values(|x: i64| x as int)
}

pub open spec fn abs_spec(x: int) -> int {
    if x >= 0 {
        x
    } else {
        -x
    }
}

pub open spec fn sum_spec(s: Seq<int>) -> int
    decreases s.len(),
{
    if s.len() == 0 {
        0
    } else {
        sum_spec(s.drop_last()) + s.last()
    }
}

/// The mean with truncating integer division; meaningful only for a
/// non-empty sequence.
pub open spec fn mean_spec(s: Seq<int>) -> int {
    sum_spec(s) / (s.len() as int)
}

/// Per-element absolute deviations from the mean of `s`.
pub open spec fn devs_spec(s: Seq<int>) -> Seq<int> {
    s.map_values(|x: int| abs_spec(x - mean_spec(s)))
}

/// Mean absolute deviation around the mean.
pub open spec fn mad_spec(s: Seq<int>) -> int {
    sum_spec(devs_spec(s)) / (s.len() as int)
}

pub proof fn lemma_sum_bounds(s: Seq<int>, lo: int, hi: int)
    requires
        forall|i: int| 0 <= i < s.len() ==> lo <= #[trigger] s[i] <= hi,
    ensures
        s.len() * lo <= sum_spec(s) <= s.len() * hi,
    decreases s.len(),
{
    if s.len() == 0 {
    } else {
        lemma_sum_bounds(s.drop_last(), lo, hi);
        let n = s.len() as int;
        assert((n - 1) * lo + lo == n * lo) by (nonlinear_arith);
        assert((n - 1) * hi + hi == n * hi) by (nonlinear_arith);
    }
}

/// Division keeps the bounds of a non-empty sum of bounded values.
pub proof fn lemma_mean_bounds(s: Seq<int>, lo: int, hi: int)
    requires
        s.len() > 0,
        0 <= lo,
        forall|i: int| 0 <= i < s.len() ==> lo <= #[trigger] s[i] <= hi,
    ensures
        lo <= mean_spec(s) <= hi,
{
    lemma_sum_bounds(s, lo, hi);
    let n = s.len() as int;
    assert(n * lo <= sum_spec(s) <= n * hi);
    assert(lo <= (n * lo) / n && (n * hi) / n <= hi && (n * lo) / n <= sum_spec(s) / n
        <= (n * hi) / n) by (nonlinear_arith)
        requires n > 0, 0 <= lo, n * lo <= sum_spec(s) <= n * hi;
}

/// The mean absolute deviation of bounded non-negative values stays
/// within the same bound.
pub proof fn lemma_mad_bounds(s: Seq<int>, hi: int)
    requires
        s.len() > 0,
        0 <= hi,
        forall|i: int| 0 <= i < s.len() ==> 0 <= #[trigger] s[i] <= hi,
    ensures
        0 <= mad_spec(s) <= hi,
{
    lemma_mean_bounds(s, 0, hi);
    let ds = devs_spec(s);
    assert(ds.len() == s.len());
    assert forall|i: int| 0 <= i < ds.len() implies 0 <= #[trigger] ds[i] <= hi by {
        assert(0 <= s[i] <= hi);
    }
    lemma_mean_bounds(ds, 0, hi);
    assert(mad_spec(s) == mean_spec(ds));
}

/// Sum of the first `i` elements of a milli-unit vector, in bounds.
fn sum_prefix(v: &Vec<i64>) -> (r: i64)
    requires
        v@.len() <= STAT_LEN,
        forall|i: int| 0 <= i < v@.len() ==> 0 <= #[trigger] v@[i] <= STAT_BOUND,
    ensures
        r == sum_spec(vals(v@)),
        0 <= r <= v@.len() * STAT_BOUND,
{
    let mut total: i64 = 0;
    let mut i: usize = 0;
    while i < v.len()
        invariant
            0 <= i <= v@.len(),
            v@.len() <= STAT_LEN,
            forall|k: int| 0 <= k < v@.len() ==> 0 <= #[trigger] v@[k] <= STAT_BOUND,
            total == sum_spec(vals(v@).take(i as int)),
            0 <= total <= i * STAT_BOUND,
        decreases v@.len() - i,
    {
        proof {
            let pre = vals(v@).take(i as int);
            let post = vals(v@).take(i as int + 1);
            assert(post.drop_last() =~= pre);
            assert(post.last() == v@[i as int] as int);
            assert((i as int) * STAT_BOUND + STAT_BOUND == (i as int + 1) * STAT_BOUND)
                by (nonlinear_arith);
            assert((i as int + 1) * STAT_BOUND <= STAT_LEN * STAT_BOUND) by (nonlinear_arith)
                requires i as int + 1 <= STAT_LEN;
        }
        total = total + v[i];
        i += 1;
    }
    proof {
        assert(vals(v@).take(v@.len() as int) =~= vals(v@));
    }
    total
}

/// The mean of a non-empty vector of milli-unit values.
pub fn mean(v: &Vec<i64>) -> (r: i64)
    requires
        0 < v@.len() <= STAT_LEN,
        forall|i: int| 0 <= i < v@.len() ==> 0 <= #[trigger] v@[i] <= STAT_BOUND,
    ensures
        r == mean_spec(vals(v@)),
        0 <= r <= STAT_BOUND,
{
    let total = sum_prefix(v);
    proof {
        assert(vals(v@).len() == v@.len());
        lemma_mean_bounds(vals(v@), 0, STAT_BOUND as int);
    }
    total / (v.len() as i64)
}

/// The mean absolute deviation around the mean of a non-empty vector.
pub fn mad(v: &Vec<i64>) -> (r: i64)
    requires
        0 < v@.len() <= STAT_LEN,
        forall|i: int| 0 <= i < v@.len() ==> 0 <= #[trigger] v@[i] <= STAT_BOUND,
    ensures
        r == mad_spec(vals(v@)),
        0 <= r <= STAT_BOUND,
{
    let m = mean(v);
    let mut devs: Vec<i64> = Vec::new();
    let mut i: usize = 0;
    while i < v.len()
        invariant
            0 <= i <= v@.len(),
            v@.len() <= STAT_LEN,
            forall|k: int| 0 <= k < v@.len() ==> 0 <= #[trigger] v@[k] <= STAT_BOUND,
            0 <= m <= STAT_BOUND,
            m == mean_spec(vals(v@)),
            vals(devs@) =~= devs_spec(vals(v@)).take(i as int),
            forall|k: int| 0 <= k < devs@.len() ==> 0 <= #[trigger] devs@[k] <= STAT_BOUND,
            devs@.len() == i,
        decreases v@.len() - i,
    {
        let x: i64 = v[i];
        let d: i64 = if x >= m {
            x - m
        } else {
            m - x
        };
        devs.push(d);
        proof {
            assert(vals(devs@) =~= devs_spec(vals(v@)).take(i as int + 1));
        }
        i += 1;
    }
    proof {
        assert(devs_spec(vals(v@)).take(v@.len() as int) =~= devs_spec(vals(v@)));
        assert(vals(devs@) =~= devs_spec(vals(v@)));
        lemma_mean_bounds(vals(devs@), 0, STAT_BOUND as int);
    }
    let total = sum_prefix(&devs);
    total / (devs.len() as i64)
}

} // verus!
