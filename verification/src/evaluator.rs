//! The fitness score of a trajectory: walks simulated time in fixed
//! steps, aggregates the non-central entities' distances to the
//! central entity and their velocities, tracks the stability streak,
//! and combines the three final statistics into one scalar cost.
//! Lower is better. A step in which the central entity is present but
//! no distance or velocity exists yet contributes a zero mean to the
//! corresponding average.
//!
//! All quantities are milli-unit fixed point. The instability metric is
//! the product `mad * mean * 100` of the raw milli-unit statistics, so
//! its threshold carries a factor `SCALE * SCALE` against the unit
//! threshold of 180.

use vstd::prelude::*;

verus! {

use crate::trajectory::{Trajectory, Sample, Vec3, pos_at_spec, sample_ok, MAX_DIST};
use crate::geometry::{dist, dist_spec, vec3_ok};
use crate::stats::{mean_spec, mad_spec, vals, abs_spec};

/// The walk's time step, in milli-units (0.1 time units).
pub const STEP: i64 = 100;

/// Instability threshold: 180 unit-scale, carried to milli scale.
pub const THRESHOLD: i64 = 180_000_000;

/// The distance the search drives toward, in milli-units.
pub const TARGET_DIST: i64 = 3000;

/// Weight of the distance error in the fitness.
pub const DIST_WEIGHT: i64 = 200;

/// Weight of the mean velocity in the fitness.
pub const VEL_WEIGHT: i64 = 250;

/// Upper bound on a per-step velocity, in milli-units.
pub const VEL_BOUND: i64 = 3_464_101_000;

/// Distances from every non-central entity that has a position at time
/// `t` to the central position, over the first `i` entities.
pub open spec fn dists_fold(
    samples: Seq<Sample>,
    entities: Seq<u64>,
    t: int,
    cpos: Vec3,
    i: nat,
) -> Seq<int>
    decreases i,
{
    if i == 0 {
        Seq::empty()
    } else {
        let prev = dists_fold(samples, entities, t, cpos, (i - 1) as nat);
        if i - 1 == 0 {
            prev
        } else {
            match pos_at_spec(samples, entities[i - 1], t) {
                None => prev,
                Some(p) => prev.push(dist_spec(p, cpos)),
            }
        }
    }
}

/// Velocity bookkeeping state: the velocities collected this step and,
/// per entity index, the latest known position with its step time.
pub ghost struct VelAcc {
    pub vels: Seq<int>,
    pub last: Seq<Option<(Vec3, int)>>,
}

/// One step's velocity pass over the first `i` entities: a non-central
/// entity with a position now and a recorded earlier position
/// contributes `distance * SCALE / elapsed`; the central entity is the
/// reference point and contributes no velocity of its own. Every
/// present entity's record is refreshed to time `t`.
pub open spec fn vel_fold(
    samples: Seq<Sample>,
    entities: Seq<u64>,
    t: int,
    last0: Seq<Option<(Vec3, int)>>,
    i: nat,
) -> VelAcc
    decreases i,
{
    if i == 0 {
        VelAcc { vels: Seq::empty(), last: last0 }
    } else {
        let prev = vel_fold(samples, entities, t, last0, (i - 1) as nat);
        match pos_at_spec(samples, entities[i - 1], t) {
            None => prev,
            Some(p) => VelAcc {
                vels: if i - 1 == 0 {
                    prev.vels
                } else {
                    match prev.last[i - 1] {
                        Some(pl) => prev.vels.push((dist_spec(p, pl.0) * 1000) / (t - pl.1)),
                        None => prev.vels,
                    }
                },
                last: prev.last.update(i - 1, Some((p, t))),
            },
        }
    }
}

/// The streak update: a streak starts when instability falls below the
/// threshold and is cleared whenever it is back at or above it.
pub open spec fn streak_step(cur: Option<int>, inst: int, t: int) -> Option<int> {
    match cur {
        Some(s) => if inst >= THRESHOLD {
            None
        } else {
            Some(s)
        },
        None => if inst < THRESHOLD {
            Some(t)
        } else {
            None
        },
    }
}

/// The instability of step `k`: `mad * mean * 100` over that step's
/// distances, or `None` when the central entity is absent or no other
/// entity has a position yet (the streak is then left unchanged).
pub open spec fn instability_at(tr: Trajectory, k: int) -> Option<int> {
    let time = (STEP as int) * k;
    if tr.entities@.len() == 0 {
        None
    } else {
        match pos_at_spec(tr.samples@, tr.entities@[0], time) {
            None => None,
            Some(cpos) => {
                let ds = dists_fold(tr.samples@, tr.entities@, time, cpos, tr.entities@.len());
                if ds.len() == 0 {
                    None
                } else {
                    Some(mad_spec(ds) * mean_spec(ds) * 100)
                }
            },
        }
    }
}

/// Aggregate state of the walk after some number of steps.
pub ghost struct EvalAcc {
    pub last: Seq<Option<(Vec3, int)>>,
    pub dist_means: Seq<int>,
    pub vel_means: Seq<int>,
    pub streak: Option<int>,
}

pub open spec fn init_acc(n: nat) -> EvalAcc {
    EvalAcc {
        last: Seq::new(n, |i: int| None),
        dist_means: Seq::empty(),
        vel_means: Seq::empty(),
        streak: None,
    }
}

/// One full step at index `k`: when the central entity has a position,
/// collect distances and velocities and append the step means - a step
/// with none counts as a zero mean, diluting the final averages - and
/// update the streak where the instability is defined; when the
/// central entity is absent the whole step is skipped.
pub open spec fn step_spec(tr: Trajectory, k: int, acc: EvalAcc) -> EvalAcc {
    let time = (STEP as int) * k;
    if tr.entities@.len() == 0 {
        acc
    } else {
        match pos_at_spec(tr.samples@, tr.entities@[0], time) {
            None => acc,
            Some(cpos) => {
                let ds = dists_fold(tr.samples@, tr.entities@, time, cpos, tr.entities@.len());
                let va = vel_fold(tr.samples@, tr.entities@, time, acc.last, tr.entities@.len());
                EvalAcc {
                    last: va.last,
                    dist_means: acc.dist_means.push(
                        if ds.len() > 0 {
                            mean_spec(ds)
                        } else {
                            0
                        },
                    ),
                    vel_means: acc.vel_means.push(
                        if va.vels.len() > 0 {
                            mean_spec(va.vels)
                        } else {
                            0
                        },
                    ),
                    streak: match instability_at(tr, k) {
                        Some(x) => streak_step(acc.streak, x, time),
                        None => acc.streak,
                    },
                }
            },
        }
    }
}

/// Number of walk steps: times `0, STEP, ..., <= duration`.
pub open spec fn n_steps(duration: int) -> nat {
    (duration / (STEP as int) + 1) as nat
}

/// The walk state after the first `k` steps.
pub open spec fn eval_fold(tr: Trajectory, k: nat) -> EvalAcc
    decreases k,
{
    if k == 0 {
        init_acc(tr.entities@.len())
    } else {
        step_spec(tr, k - 1, eval_fold(tr, (k - 1) as nat))
    }
}

/// The start of the last still-open stability streak, or the full
/// duration when no streak is open at the end of the walk.
pub open spec fn stable_time_spec(streak: Option<int>, duration: int) -> int {
    match streak {
        Some(s) => s,
        None => duration,
    }
}

/// The fitness formula over the three final statistics.
pub open spec fn fitness_formula(avg_dist: int, stable: int, mean_vel: int) -> int {
    (DIST_WEIGHT as int) * abs_spec((TARGET_DIST as int) - avg_dist) + stable
        + (VEL_WEIGHT as int) * mean_vel
}

/// The fitness of a trajectory, or `None` when it is degenerate: no
/// entities at all, or the central entity has a position at no step
/// of the walk, so that no step contributed to the averages.
pub open spec fn evaluate_spec(tr: Trajectory) -> Option<int> {
    if tr.entities@.len() == 0 {
        None
    } else {
        let acc = eval_fold(tr, n_steps(tr.duration as int));
        if acc.dist_means.len() == 0 || acc.vel_means.len() == 0 {
            None
        } else {
            Some(
                fitness_formula(
                    mean_spec(acc.dist_means),
                    stable_time_spec(acc.streak, tr.duration as int),
                    mean_spec(acc.vel_means),
                ),
            )
        }
    }
}

/// The integer view of an executable optional fitness.
pub open spec fn view_opt(o: Option<i64>) -> Option<int> {
    match o {
        Some(x) => Some(x as int),
        None => None,
    }
}

/// The integer view of the executable velocity bookkeeping.
pub open spec fn last_view(s: Seq<Option<(Vec3, i64)>>) -> Seq<Option<(Vec3, int)>> {
    s.map_values(
        |o: Option<(Vec3, i64)>| match o {
            Some(pl) => Some((pl.0, pl.1 as int)),
            None => None,
        },
    )
}

/// A position returned by the as-of-time query is always one of the
/// trajectory's in-range sample positions.
pub proof fn lemma_pos_at_in_range(samples: Seq<Sample>, e: u64, time: int)
    requires
        forall|i: int| 0 <= i < samples.len() ==> sample_ok(#[trigger] samples[i]),
    ensures
        pos_at_spec(samples, e, time) is Some
            ==> vec3_ok(pos_at_spec(samples, e, time).unwrap()),
    decreases samples.len(),
{
    if samples.len() == 0 {
    } else if samples.last().entity == e && samples.last().time <= time {
        assert(sample_ok(samples[samples.len() - 1]));
    } else {
        assert forall|i: int| 0 <= i < samples.drop_last().len()
            implies sample_ok(#[trigger] samples.drop_last()[i]) by {
            assert(samples.drop_last()[i] == samples[i]);
        }
        lemma_pos_at_in_range(samples.drop_last(), e, time);
    }
}

/// Scores a trajectory by walking simulated time in `STEP` increments.
/// Returns `None` exactly when the trajectory is degenerate: no
/// entities at all, or the central entity has a position at no step.
/// The trajectory is only read, through the as-of-time query, and the
/// result is a function of its data alone: the postcondition pins it
/// to `evaluate_spec` of the borrowed value, which the caller keeps
/// unchanged.
pub fn evaluate(t: &Trajectory) -> (r: Option<i64>)
    requires
        t.wf(),
    ensures
        view_opt(r) == evaluate_spec(*t),
{
    let n: usize = t.entities.len();
    if n == 0 {
        return None;
    }
    let central: u64 = t.entities[0];
    let mut last: Vec<Option<(Vec3, i64)>> = Vec::new();
    let mut li: usize = 0;
    while li < n
        invariant
            0 <= li <= n,
            last@.len() == li,
            forall|j: int| 0 <= j < li ==> (#[trigger] last@[j]) is None,
        decreases n - li,
    {
        last.push(None);
        li += 1;
    }
    proof {
        assert(last_view(last@) =~= init_acc(t.entities@.len()).last);
    }
    let mut dist_means: Vec<i64> = Vec::new();
    let mut vel_means: Vec<i64> = Vec::new();
    let mut streak: Option<i64> = None;
    let steps: usize = (t.duration / STEP + 1) as usize;
    let mut k: usize = 0;
    while k < steps
        invariant
            t.wf(),
            0 <= k <= steps,
            steps == n_steps(t.duration as int),
            steps <= 100_001,
            n == t.entities@.len(),
            0 < n,
            central == t.entities@[0],
            last@.len() == n,
            last_view(last@) == eval_fold(*t, k as nat).last,
            vals(dist_means@) == eval_fold(*t, k as nat).dist_means,
            vals(vel_means@) == eval_fold(*t, k as nat).vel_means,
            view_opt(streak) == eval_fold(*t, k as nat).streak,
            dist_means@.len() <= k,
            vel_means@.len() <= k,
            forall|j: int| 0 <= j < dist_means@.len()
                ==> 0 <= #[trigger] dist_means@[j] < MAX_DIST,
            forall|j: int| 0 <= j < vel_means@.len()
                ==> 0 <= #[trigger] vel_means@[j] <= VEL_BOUND,
            forall|j: int| 0 <= j < n ==> ((#[trigger] last@[j]) is Some ==> (
                0 <= last@[j].unwrap().1 <= STEP * (k as int) - STEP
                    && vec3_ok(last@[j].unwrap().0)
            )),
            streak is Some ==> 0 <= streak.unwrap() <= STEP * (k as int) - STEP,
        decreases steps - k,
    {
        let ghost acc = eval_fold(*t, k as nat);
        let time: i64 = STEP * (k as i64);
        proof {
            assert(eval_fold(*t, (k + 1) as nat) == step_spec(*t, k as int, acc));
        }
        match t.pos_at(central, time) {
            None => {
                proof {
                    assert(step_spec(*t, k as int, acc) == acc);
                }
            },
            Some(cpos) => {
                proof {
                    lemma_pos_at_in_range(t.samples@, central, time as int);
                }
                let mut dists: Vec<i64> = Vec::new();
                let mut vels: Vec<i64> = Vec::new();
                let mut i: usize = 0;
                while i < n
                    invariant
                        t.wf(),
                        0 <= i <= n,
                        n == t.entities@.len(),
                        0 < n,
                        central == t.entities@[0],
                        last@.len() == n,
                        acc.last.len() == n,
                        Some(cpos) == pos_at_spec(t.samples@, central, time as int),
                        vec3_ok(cpos),
                        time == STEP * (k as int),
                        0 <= time,
                        vals(dists@) == dists_fold(
                            t.samples@, t.entities@, time as int, cpos, i as nat),
                        vals(vels@) == vel_fold(
                            t.samples@, t.entities@, time as int, acc.last, i as nat).vels,
                        last_view(last@) == vel_fold(
                            t.samples@, t.entities@, time as int, acc.last, i as nat).last,
                        dists@.len() <= i,
                        vels@.len() <= i,
                        forall|j: int| 0 <= j < dists@.len()
                            ==> 0 <= #[trigger] dists@[j] < MAX_DIST,
                        forall|j: int| 0 <= j < vels@.len()
                            ==> 0 <= #[trigger] vels@[j] <= VEL_BOUND,
                        forall|j: int| 0 <= j < n ==> ((#[trigger] acc.last[j]) is Some ==> (
                            0 <= acc.last[j].unwrap().1 <= time - STEP
                                && vec3_ok(acc.last[j].unwrap().0)
                        )),
                        forall|j: int| 0 <= j < n ==> ((#[trigger] last@[j]) is Some ==> (
                            0 <= last@[j].unwrap().1 <= time
                                && vec3_ok(last@[j].unwrap().0)
                        )),
                    decreases n - i,
                {
                    let e: u64 = t.entities[i];
                    let ghost prev = vel_fold(
                        t.samples@, t.entities@, time as int, acc.last, i as nat);
                    proof {
                        lemma_vel_fold_frame(
                            t.samples@, t.entities@, time as int, acc.last, i as nat);
                        assert(prev.last[i as int] == acc.last[i as int]);
                    }
                    match t.pos_at(e, time) {
                        None => {
                            proof {
                                assert(vel_fold(t.samples@, t.entities@, time as int,
                                    acc.last, (i + 1) as nat) == prev);
                                assert(dists_fold(t.samples@, t.entities@, time as int,
                                    cpos, (i + 1) as nat)
                                    == dists_fold(t.samples@, t.entities@, time as int,
                                        cpos, i as nat));
                            }
                        },
                        Some(p) => {
                            proof {
                                lemma_pos_at_in_range(t.samples@, e, time as int);
                                assert(last_view(last@)[i as int] == prev.last[i as int]);
                            }
                            if i > 0 {
                                match last[i] {
                                    Some(pl) => {
                                        let lp: Vec3 = pl.0;
                                        let lt: i64 = pl.1;
                                        proof {
                                            assert(acc.last[i as int]
                                                == Some((lp, lt as int)));
                                        }
                                        let d: i64 = dist(p, lp);
                                        let dt: i64 = time - lt;
                                        proof {
                                            let di = d as int;
                                            let dti = dt as int;
                                            assert((di * 1000) / dti <= di * 1000
                                                && 0 <= (di * 1000) / dti)
                                                by (nonlinear_arith)
                                                requires 0 <= di, 1 <= dti;
                                        }
                                        let v: i64 = (d * 1000) / dt;
                                        vels.push(v);
                                    },
                                    None => {},
                                }
                            }
                            last.set(i, Some((p, time)));
                            if i > 0 {
                                let dd: i64 = dist(p, cpos);
                                dists.push(dd);
                            }
                            proof {
                                let nxt = vel_fold(t.samples@, t.entities@, time as int,
                                    acc.last, (i + 1) as nat);
                                assert(last_view(last@) =~= prev.last.update(
                                    i as int, Some((p, time as int))));
                                assert(nxt.last == prev.last.update(
                                    i as int, Some((p, time as int))));
                                assert(vals(vels@) =~= nxt.vels);
                                assert(vals(dists@) =~= dists_fold(t.samples@, t.entities@,
                                    time as int, cpos, (i + 1) as nat));
                            }
                        },
                    }
                    i += 1;
                }
                let ghost ds = dists_fold(
                    t.samples@, t.entities@, time as int, cpos, n as nat);
                let ghost va = vel_fold(
                    t.samples@, t.entities@, time as int, acc.last, n as nat);
                if dists.len() > 0 {
                    let dm: i64 = crate::stats::mean(&dists);
                    let md: i64 = crate::stats::mad(&dists);
                    proof {
                        crate::stats::lemma_mean_bounds(
                            vals(dists@), 0, MAX_DIST as int - 1);
                        crate::stats::lemma_mad_bounds(vals(dists@), MAX_DIST as int - 1);
                        assert(0 <= md * dm <= (MAX_DIST - 1) * (MAX_DIST - 1))
                            by (nonlinear_arith)
                            requires 0 <= md <= MAX_DIST - 1, 0 <= dm <= MAX_DIST - 1;
                    }
                    let inst: i64 = md * dm * 100;
                    proof {
                        assert(instability_at(*t, k as int) == Some(inst as int));
                    }
                    match streak {
                        Some(_) => {
                            if inst >= THRESHOLD {
                                streak = None;
                            }
                        },
                        None => {
                            if inst < THRESHOLD {
                                streak = Some(time);
                            }
                        },
                    }
                    dist_means.push(dm);
                    proof {
                        assert(vals(dist_means@) =~= acc.dist_means.push(mean_spec(ds)));
                    }
                } else {
                    dist_means.push(0);
                    proof {
                        assert(instability_at(*t, k as int) is None);
                        assert(vals(dist_means@) =~= acc.dist_means.push(0));
                    }
                }
                if vels.len() > 0 {
                    let vm: i64 = crate::stats::mean(&vels);
                    proof {
                        crate::stats::lemma_mean_bounds(vals(vels@), 0, VEL_BOUND as int);
                    }
                    vel_means.push(vm);
                    proof {
                        assert(vals(vel_means@) =~= acc.vel_means.push(mean_spec(va.vels)));
                    }
                } else {
                    vel_means.push(0);
                    proof {
                        assert(vals(vel_means@) =~= acc.vel_means.push(0));
                    }
                }
            },
        }
        k += 1;
    }
    if dist_means.len() == 0 || vel_means.len() == 0 {
        return None;
    }
    let avg: i64 = crate::stats::mean(&dist_means);
    let mv: i64 = crate::stats::mean(&vel_means);
    proof {
        crate::stats::lemma_mean_bounds(vals(dist_means@), 0, MAX_DIST as int - 1);
        crate::stats::lemma_mean_bounds(vals(vel_means@), 0, VEL_BOUND as int);
    }
    let stable: i64 = match streak {
        Some(s) => s,
        None => t.duration,
    };
    let diff: i64 = if avg >= TARGET_DIST {
        avg - TARGET_DIST
    } else {
        TARGET_DIST - avg
    };
    let fit: i64 = DIST_WEIGHT * diff + stable + VEL_WEIGHT * mv;
    Some(fit)
}

/// The velocity pass over the first `i` entities leaves the records of
/// entities at or past `i` alone.
pub proof fn lemma_vel_fold_frame(
    samples: Seq<Sample>,
    entities: Seq<u64>,
    t: int,
    last0: Seq<Option<(Vec3, int)>>,
    i: nat,
)
    requires
        i <= entities.len(),
        i <= last0.len(),
    ensures
        vel_fold(samples, entities, t, last0, i).last.len() == last0.len(),
        forall|j: int| i <= j < last0.len()
            ==> vel_fold(samples, entities, t, last0, i).last[j] == last0[j],
    decreases i,
{
    if i == 0 {
    } else {
        lemma_vel_fold_frame(samples, entities, t, last0, (i - 1) as nat);
    }
}

proof fn lemma_streak_none_upto(tr: Trajectory, m: int, k: nat)
    requires
        k <= m,
        forall|j: int| 0 <= j < m ==> ((#[trigger] instability_at(tr, j)) is Some
            ==> instability_at(tr, j).unwrap() >= THRESHOLD as int),
    ensures
        eval_fold(tr, k).streak is None,
    decreases k,
{
    if k == 0 {
    } else {
        lemma_streak_none_upto(tr, m, (k - 1) as nat);
        let x = instability_at(tr, k - 1);
        if x is Some {
            assert(x.unwrap() >= THRESHOLD as int);
        }
    }
}

proof fn lemma_streak_some_upto(tr: Trajectory, s: int, k: nat)
    requires
        0 <= s,
        s < k,
        forall|j: int| 0 <= j < s ==> ((#[trigger] instability_at(tr, j)) is Some
            ==> instability_at(tr, j).unwrap() >= THRESHOLD as int),
        forall|j: int| s <= j < k ==> (#[trigger] instability_at(tr, j)) is Some
            && instability_at(tr, j).unwrap() < THRESHOLD as int,
    ensures
        eval_fold(tr, k).streak == Some((STEP as int) * s),
    decreases k,
{
    if k == s + 1 {
        lemma_streak_none_upto(tr, s, s as nat);
        let x = instability_at(tr, s);
        assert(x is Some && x.unwrap() < THRESHOLD as int);
    } else {
        lemma_streak_some_upto(tr, s, (k - 1) as nat);
        let x = instability_at(tr, k - 1);
        assert(x is Some && x.unwrap() < THRESHOLD as int);
    }
}

/// A walk whose instability never falls below the threshold at any
/// step keeps the streak closed, so the stable time is the whole
/// duration, not zero.
pub proof fn lemma_never_stable(tr: Trajectory)
    requires
        forall|j: int| 0 <= j < n_steps(tr.duration as int)
            ==> ((#[trigger] instability_at(tr, j)) is Some
                ==> instability_at(tr, j).unwrap() >= THRESHOLD as int),
    ensures
        eval_fold(tr, n_steps(tr.duration as int)).streak is None,
        stable_time_spec(
            eval_fold(tr, n_steps(tr.duration as int)).streak,
            tr.duration as int,
        ) == tr.duration as int,
{
    lemma_streak_none_upto(
        tr,
        n_steps(tr.duration as int) as int,
        n_steps(tr.duration as int),
    );
}

/// A walk whose instability stays at or above the threshold before
/// step `s`, then falls below it at `s` and never rises again, opens
/// its last streak exactly at step `s`: the stable time is `STEP * s`.
pub proof fn lemma_instability_settles(tr: Trajectory, s: int)
    requires
        0 <= s < n_steps(tr.duration as int),
        forall|j: int| 0 <= j < s ==> ((#[trigger] instability_at(tr, j)) is Some
            ==> instability_at(tr, j).unwrap() >= THRESHOLD as int),
        forall|j: int| s <= j < n_steps(tr.duration as int)
            ==> (#[trigger] instability_at(tr, j)) is Some
                && instability_at(tr, j).unwrap() < THRESHOLD as int,
    ensures
        eval_fold(tr, n_steps(tr.duration as int)).streak == Some((STEP as int) * s),
        stable_time_spec(
            eval_fold(tr, n_steps(tr.duration as int)).streak,
            tr.duration as int,
        ) == (STEP as int) * s,
{
    lemma_streak_some_upto(tr, s, n_steps(tr.duration as int));
}

proof fn lemma_eval_fold_congruence(a: Trajectory, b: Trajectory, k: nat)
    requires
        a.samples@ == b.samples@,
        a.entities@ == b.entities@,
        a.duration == b.duration,
    ensures
        eval_fold(a, k) == eval_fold(b, k),
    decreases k,
{
    if k == 0 {
    } else {
        lemma_eval_fold_congruence(a, b, (k - 1) as nat);
        assert(instability_at(a, k - 1) == instability_at(b, k - 1));
    }
}

/// The evaluator is a pure function of the trajectory data alone: two
/// trajectories with the same samples, entities and duration get the
/// same fitness, with no hidden state.
pub proof fn lemma_evaluate_deterministic(a: Trajectory, b: Trajectory)
    requires
        a.samples@ == b.samples@,
        a.entities@ == b.entities@,
        a.duration == b.duration,
    ensures
        evaluate_spec(a) == evaluate_spec(b),
{
    lemma_eval_fold_congruence(a, b, n_steps(a.duration as int));
}

} // verus!
