//! Data preparation for the final report charts: the valid fitness
//! scores in ascending order, the frequency-table color limits for the
//! hot/cold scatter plot, the color index of one score, and the
//! chunked averages for the fitness-over-time line. Rendering is the
//! caller's concern.

use vstd::prelude::*;

verus! {

use crate::state::TrialResult;
use crate::stats::{sum_spec, vals, lemma_sum_bounds};

/// Upper bound on a fitness value handed to the report helpers.
pub const FITNESS_BOUND: i64 = 1_000_000_000_000;

/// Largest number of scores the report helpers accept.
pub const REPORT_LEN: usize = 1_000_000;

pub open spec fn sorted_le(s: Seq<i64>) -> bool {
    forall|i: int, j: int| 0 <= i < j < s.len() ==> s[i] <= s[j]
}

/// The fitness values of the non-degenerate trials, in log order.
pub open spec fn valid_fitnesses(trials: Seq<TrialResult>) -> Seq<i64>
    decreases trials.len(),
{
    if trials.len() == 0 {
        Seq::empty()
    } else {
        let rest = valid_fitnesses(trials.drop_last());
        match trials.last().fitness {
            Some(f) => rest.push(f),
            None => rest,
        }
    }
}

/// Collects the fitness values of the non-degenerate trials, in log
/// order; degenerate trials are excluded from all statistics.
pub fn collect_valid_fitnesses(trials: &Vec<TrialResult>) -> (r: Vec<i64>)
    ensures
        r@ == valid_fitnesses(trials@),
{
    let mut out: Vec<i64> = Vec::new();
    let mut i: usize = 0;
    while i < trials.len()
        invariant
            0 <= i <= trials@.len(),
            out@ == valid_fitnesses(trials@.take(i as int)),
        decreases trials@.len() - i,
    {
        proof {
            assert(trials@.take(i as int + 1).drop_last() =~= trials@.take(i as int));
        }
        match trials[i].fitness {
            Some(f) => {
                out.push(f);
            },
            None => {},
        }
        i += 1;
    }
    proof {
        assert(trials@.take(trials@.len() as int) =~= trials@);
    }
    out
}

/// Sorts scores ascending by repeated minimum selection: the result is
/// an ordered rearrangement of the input, nothing added or dropped.
pub fn sort_ascending(scores: Vec<i64>) -> (r: Vec<i64>)
    ensures
        sorted_le(r@),
        r@.to_multiset() == scores@.to_multiset(),
        r@.len() == scores@.len(),
{
    broadcast use vstd::seq_lib::group_to_multiset_ensures;

    let mut work = scores;
    let mut out: Vec<i64> = Vec::new();
    let ghost orig = work@;
    while work.len() > 0
        invariant
            out@.to_multiset().add(work@.to_multiset()) =~= orig.to_multiset(),
            out@.len() + work@.len() == orig.len(),
            sorted_le(out@),
            forall|a: int, b: int| 0 <= a < out@.len() && 0 <= b < work@.len()
                ==> out@[a] <= work@[b],
        decreases work@.len(),
    {
        let mut min_idx: usize = 0;
        let mut j: usize = 1;
        while j < work.len()
            invariant
                0 <= min_idx < work@.len(),
                j <= work@.len(),
                forall|k: int| 0 <= k < j ==> work@[min_idx as int] <= #[trigger] work@[k],
            decreases work@.len() - j,
        {
            if work[j] < work[min_idx] {
                min_idx = j;
            }
            j += 1;
        }
        let m: i64 = work[min_idx];
        let ghost pre_out = out@;
        let ghost pre_work = work@;
        out.push(m);
        let _removed: i64 = work.remove(min_idx);
        proof {
            pre_work.to_multiset_ensures();
            pre_out.to_multiset_ensures();
            assert(pre_work.remove(min_idx as int).to_multiset()
                =~= pre_work.to_multiset().remove(m));
            assert(pre_out.push(m).to_multiset() =~= pre_out.to_multiset().insert(m));
            assert(pre_work.to_multiset().count(m) > 0) by {
                assert(pre_work.contains(m)) by {
                    assert(pre_work[min_idx as int] == m);
                }
            }
            assert(out@.to_multiset().add(work@.to_multiset()) =~= orig.to_multiset());
            assert forall|a: int, b: int|
                0 <= a < out@.len() && 0 <= b < work@.len() implies out@[a] <= work@[b] by {
                if a < pre_out.len() {
                    assert(pre_out[a] <= pre_work[b]);
                } else {
                    if b < min_idx {
                        assert(work@[b] == pre_work[b]);
                    } else {
                        assert(work@[b] == pre_work[b + 1]);
                    }
                }
            }
        }
    }
    out
}

/// The frequency-table color limits: bucket `j`'s limit is the largest
/// score in the lowest `(j+1)/steps` share of the sorted scores. The
/// limits are themselves ascending.
pub fn hot_cold_limits(sorted: &Vec<i64>, steps: usize) -> (r: Vec<i64>)
    requires
        sorted_le(sorted@),
        0 < sorted@.len() <= REPORT_LEN,
        0 < steps <= REPORT_LEN,
    ensures
        r@.len() == steps,
        forall|j: int| 0 <= j < steps ==> #[trigger] r@[j] == sorted@[limit_index(
            sorted@.len() as int, steps as int, j)],
{
    let n: usize = sorted.len();
    let mut out: Vec<i64> = Vec::new();
    let mut j: usize = 0;
    while j < steps
        invariant
            0 <= j <= steps,
            steps <= REPORT_LEN,
            n == sorted@.len(),
            0 < n <= REPORT_LEN,
            sorted_le(sorted@),
            out@.len() == j,
            forall|k: int| 0 <= k < j ==> #[trigger] out@[k] == sorted@[limit_index(
                n as int, steps as int, k)],
        decreases steps - j,
    {
        proof {
            assert((steps as int) * (n as int) <= 1_000_000_000_000) by (nonlinear_arith)
                requires 0 <= steps as int <= 1_000_000, 0 <= n as int <= 1_000_000;
            assert((j as int + 1) * (n as int) <= (steps as int) * (n as int))
                by (nonlinear_arith)
                requires 0 <= j as int + 1 <= steps as int, 0 <= n as int;
            assert(0 <= (j as int + 1) * (n as int)) by (nonlinear_arith)
                requires 0 <= j as int + 1, 0 <= n as int;
            assert((steps as int) * (n as int) / (steps as int) == n as int)
                by (nonlinear_arith)
                requires 0 < steps as int;
            assert((j as int + 1) * (n as int) / (steps as int)
                <= (steps as int) * (n as int) / (steps as int)) by (nonlinear_arith)
                requires (j as int + 1) * (n as int) <= (steps as int) * (n as int),
                    0 < steps as int;
        }
        let wide: u64 = ((j as u64 + 1) * (n as u64)) / (steps as u64);
        let idx: usize = wide as usize;
        let pick: usize = if idx == 0 {
            0
        } else {
            idx - 1
        };
        proof {
            assert(pick as int == limit_index(n as int, steps as int, j as int));
        }
        out.push(sorted[pick]);
        j += 1;
    }
    out
}

/// The sorted-score index whose value bounds bucket `j` from above.
pub open spec fn limit_index(n: int, steps: int, j: int) -> int {
    let idx = ((j + 1) * n) / steps;
    if idx == 0 {
        0
    } else {
        idx - 1
    }
}

/// The color limits are themselves ascending: a later bucket's limit
/// never falls below an earlier one's.
pub proof fn lemma_limits_ascending(sorted: Seq<i64>, n: int, steps: int, j1: int, j2: int)
    requires
        sorted_le(sorted),
        n == sorted.len(),
        0 < n,
        0 < steps,
        0 <= j1 <= j2 < steps,
    ensures
        sorted[limit_index(n, steps, j1)] <= sorted[limit_index(n, steps, j2)],
{
    assert((j1 + 1) * n <= (j2 + 1) * n) by (nonlinear_arith)
        requires 0 <= j1 + 1 <= j2 + 1, 0 <= n;
    assert(((j1 + 1) * n) / steps <= ((j2 + 1) * n) / steps) by (nonlinear_arith)
        requires (j1 + 1) * n <= (j2 + 1) * n, 0 < steps;
    assert(0 <= (j1 + 1) * n) by (nonlinear_arith)
        requires 0 <= j1 + 1, 0 <= n;
    assert((j2 + 1) * n <= steps * n) by (nonlinear_arith)
        requires 0 <= j2 + 1 <= steps, 0 <= n;
    assert((steps * n) / steps == n) by (nonlinear_arith)
        requires 0 < steps;
    assert(((j2 + 1) * n) / steps <= (steps * n) / steps) by (nonlinear_arith)
        requires (j2 + 1) * n <= steps * n, 0 < steps;
    let a = limit_index(n, steps, j1);
    let b = limit_index(n, steps, j2);
    assert(0 <= a <= b < n);
    if a < b {
        assert(sorted[a] <= sorted[b]);
    }
}

/// How one score is ranked against the color limits: one more than
/// the number of limits scanned before the first that exceeds it.
pub open spec fn color_index_spec(limits: Seq<i64>, f: i64) -> int
    decreases limits.len(),
{
    if limits.len() == 0 {
        0
    } else if f < limits[0] {
        1
    } else {
        1 + color_index_spec(limits.drop_first(), f)
    }
}

/// Ranks a score against the color limits, scanning until the first
/// limit above it; a score at or past every limit ranks last.
pub fn color_index(limits: &Vec<i64>, f: i64) -> (r: usize)
    ensures
        r as int == color_index_spec(limits@, f),
        r <= limits@.len(),
{
    proof {
        assert(limits@.skip(0) =~= limits@);
    }
    let mut i: usize = 0;
    while i < limits.len()
        invariant
            0 <= i <= limits@.len(),
            color_index_spec(limits@, f) == i + color_index_spec(
                limits@.skip(i as int), f),
            forall|k: int| 0 <= k < i ==> f >= #[trigger] limits@[k],
        decreases limits@.len() - i,
    {
        proof {
            assert(limits@.skip(i as int).drop_first() =~= limits@.skip(i as int + 1));
            assert(limits@.skip(i as int)[0] == limits@[i as int]);
        }
        if f < limits[i] {
            return i + 1;
        }
        i += 1;
    }
    proof {
        assert(limits@.skip(limits@.len() as int) =~= Seq::<i64>::empty());
    }
    i
}

/// The chunk size for the averaged fitness line: one and a half
/// times the worker count, never less than one.
pub fn report_chunk_size() -> (n: usize)
    ensures
        1 <= n,
{
    let c: usize = crate::wrappers::cpu_count();
    if c > usize::MAX / 3 {
        c
    } else {
        c * 3 / 2
    }
}

/// The mean of chunk `j` of size `chunk` (the final chunk may be
/// shorter).
pub open spec fn chunk_mean_spec(s: Seq<i64>, chunk: int, j: int) -> int {
    let lo = j * chunk;
    let hi = if (j + 1) * chunk <= s.len() {
        (j + 1) * chunk
    } else {
        s.len() as int
    };
    sum_spec(vals(s).subrange(lo, hi)) / (hi - lo)
}

/// Number of chunks of size `chunk` covering `n` scores.
pub open spec fn n_chunks(n: int, chunk: int) -> int {
    (n + chunk - 1) / chunk
}

/// Averages consecutive chunks of scores: the smoothed line drawn
/// over the per-trial fitness scatter.
pub fn chunk_means(scores: &Vec<i64>, chunk: usize) -> (r: Vec<i64>)
    requires
        0 < chunk <= REPORT_LEN,
        scores@.len() <= REPORT_LEN,
        forall|i: int| 0 <= i < scores@.len() ==> 0 <= #[trigger] scores@[i] <= FITNESS_BOUND,
    ensures
        r@.len() == n_chunks(scores@.len() as int, chunk as int),
        forall|j: int| 0 <= j < r@.len()
            ==> #[trigger] r@[j] == chunk_mean_spec(scores@, chunk as int, j),
{
    let n: usize = scores.len();
    let mut out: Vec<i64> = Vec::new();
    let mut start: usize = 0;
    let mut j: usize = 0;
    while start < n
        invariant
            0 <= start <= n,
            n == scores@.len(),
            n <= REPORT_LEN,
            0 < chunk <= REPORT_LEN,
            forall|i: int| 0 <= i < scores@.len()
                ==> 0 <= #[trigger] scores@[i] <= FITNESS_BOUND,
            start as int == (if (j as int) * (chunk as int) <= n as int {
                (j as int) * (chunk as int)
            } else {
                n as int
            }),
            j > 0 ==> (j as int - 1) * (chunk as int) < n as int,
            j <= n,
            out@.len() == j,
            forall|m: int| 0 <= m < j
                ==> #[trigger] out@[m] == chunk_mean_spec(scores@, chunk as int, m),
        decreases n - start,
    {
        let hi: usize = if n - start < chunk {
            n
        } else {
            start + chunk
        };
        let mut total: i64 = 0;
        let mut i: usize = start;
        while i < hi
            invariant
                start <= i <= hi <= n,
                n == scores@.len(),
                hi - start <= chunk <= REPORT_LEN,
                forall|m: int| 0 <= m < scores@.len()
                    ==> 0 <= #[trigger] scores@[m] <= FITNESS_BOUND,
                total == sum_spec(vals(scores@).subrange(start as int, i as int)),
                0 <= total <= (i - start) * FITNESS_BOUND,
            decreases hi - i,
        {
            proof {
                let pre = vals(scores@).subrange(start as int, i as int);
                let post = vals(scores@).subrange(start as int, i as int + 1);
                assert(post.drop_last() =~= pre);
                assert(post.last() == scores@[i as int] as int);
                assert((i as int - start as int) * FITNESS_BOUND + FITNESS_BOUND
                    == (i as int + 1 - start as int) * FITNESS_BOUND) by (nonlinear_arith);
                assert((i as int + 1 - start as int) * FITNESS_BOUND
                    <= (REPORT_LEN as int) * FITNESS_BOUND) by (nonlinear_arith)
                    requires i as int + 1 - start as int <= REPORT_LEN as int;
            }
            total = total + scores[i];
            i += 1;
        }
        let width: usize = hi - start;
        let m: i64 = total / (width as i64);
        proof {
            let lo_i = start as int;
            let hi_i = hi as int;
            let sub = vals(scores@).subrange(lo_i, hi_i);
            assert forall|q: int| 0 <= q < sub.len() implies 0 <= #[trigger] sub[q] by {
                assert(sub[q] == scores@[lo_i + q] as int);
            }
            lemma_sum_bounds(sub, 0, FITNESS_BOUND as int);
            assert(0 <= sum_spec(sub));
            assert((j as int + 1) * (chunk as int) == j * chunk + chunk) by (nonlinear_arith);
            assert(hi_i == if (j as int + 1) * (chunk as int) <= scores@.len() {
                (j as int + 1) * (chunk as int)
            } else {
                scores@.len() as int
            });
            assert(m == chunk_mean_spec(scores@, chunk as int, j as int));
        }
        out.push(m);
        proof {
            assert(j as int <= (j as int) * (chunk as int)) by (nonlinear_arith)
                requires 1 <= chunk as int, 0 <= j as int;
        }
        start = hi;
        j += 1;
        proof {
            assert((j as int) * (chunk as int) == (j as int - 1) * (chunk as int)
                + chunk as int) by (nonlinear_arith);
        }
    }
    proof {
        let ni = n as int;
        let ci = chunk as int;
        let ji = j as int;
        if ni == 0 {
            assert(ji == 0);
            assert((ni + ci - 1) / ci == 0) by (nonlinear_arith)
                requires 0 < ci, ni == 0;
        } else {
            assert(ji * ci >= ni);
            assert((ji - 1) * ci < ni);
            assert(ji == (ni + ci - 1) / ci) by (nonlinear_arith)
                requires 0 < ci, 0 < ni, ni <= ji * ci, (ji - 1) * ci < ni, 0 <= ji;
        }
    }
    out
}

} // verus!
