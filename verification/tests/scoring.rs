use parameter_optimizer::evaluator::evaluate;
use parameter_optimizer::geometry::{dist, isqrt};
use parameter_optimizer::stats::{mad, mean};
use parameter_optimizer::trajectory::{Sample, Trajectory, Vec3};
use parameter_optimizer::util::{lerp, normalize};

fn v3(x: i64, y: i64, z: i64) -> Vec3 {
    Vec3 { x, y, z }
}

fn sample(entity: u64, time: i64, x: i64, y: i64, z: i64) -> Sample {
    Sample { entity, time, pos: v3(x, y, z) }
}

#[test]
fn isqrt_exact_values() {
    assert_eq!(isqrt(0), 0);
    assert_eq!(isqrt(1), 1);
    assert_eq!(isqrt(15), 3);
    assert_eq!(isqrt(16), 4);
    assert_eq!(isqrt(12_000_000_000_000), 3_464_101);
}

#[test]
fn dist_pythagorean() {
    assert_eq!(dist(v3(0, 0, 0), v3(3000, 4000, 0)), 5000);
    assert_eq!(dist(v3(1000, 1000, 1000), v3(1000, 1000, 1000)), 0);
    // 1, 2, 2 scaled: sqrt(9) = 3
    assert_eq!(dist(v3(0, 0, 0), v3(1000, 2000, 2000)), 3000);
}

#[test]
fn mean_and_mad_exact() {
    let xs: Vec<i64> = vec![1000, 9000];
    assert_eq!(mean(&xs), 5000);
    assert_eq!(mad(&xs), 4000);
    let ys: Vec<i64> = vec![1, 2, 3];
    assert_eq!(mean(&ys), 2);
    let zs: Vec<i64> = vec![1, 2];
    assert_eq!(mean(&zs), 1); // truncating division
}

#[test]
fn trajectory_new_collects_sorted_entities() {
    let samples = vec![
        sample(7, 0, 0, 0, 0),
        sample(2, 0, 1000, 0, 0),
        sample(7, 100, 0, 0, 0),
        sample(2, 100, 1000, 0, 0),
    ];
    let t = Trajectory::new(samples, 1000).expect("well-formed");
    assert_eq!(t.entities, vec![2, 7]);
    assert_eq!(t.duration, 1000);
}

#[test]
fn trajectory_new_rejects_bad_input() {
    // times out of order
    let bad_order = vec![sample(1, 100, 0, 0, 0), sample(1, 0, 0, 0, 0)];
    assert!(Trajectory::new(bad_order, 1000).is_none());
    // coordinate out of range
    let bad_coord = vec![sample(1, 0, 2_000_000, 0, 0)];
    assert!(Trajectory::new(bad_coord, 1000).is_none());
    // negative duration
    let bad_duration = vec![sample(1, 0, 0, 0, 0)];
    assert!(Trajectory::new(bad_duration, -1).is_none());
    // too many samples
    let mut too_many = Vec::new();
    for i in 0..100_001i64 {
        too_many.push(sample(1, i, 0, 0, 0));
    }
    assert!(Trajectory::new(too_many, 1000).is_none());
}

#[test]
fn pos_at_returns_most_recent_sample() {
    let samples = vec![
        sample(1, 0, 0, 0, 0),
        sample(1, 500, 1000, 0, 0),
        sample(1, 900, 2000, 0, 0),
    ];
    let t = Trajectory::new(samples, 1000).expect("well-formed");
    assert_eq!(t.pos_at(1, 0), Some(v3(0, 0, 0)));
    assert_eq!(t.pos_at(1, 499), Some(v3(0, 0, 0)));
    assert_eq!(t.pos_at(1, 500), Some(v3(1000, 0, 0)));
    assert_eq!(t.pos_at(1, 1000), Some(v3(2000, 0, 0)));
    assert_eq!(t.pos_at(2, 1000), None);
}

/// Two entities, one fixed at distance 3 from the other for the whole
/// run, zero relative velocity: the distance cost and the velocity
/// cost both vanish, and the streak opens at time zero, so the total
/// fitness is exactly zero.
#[test]
fn fixed_pair_at_target_distance_scores_zero() {
    let samples = vec![sample(1, 0, 0, 0, 0), sample(2, 0, 3000, 0, 0)];
    let t = Trajectory::new(samples, 1000).expect("well-formed");
    assert_eq!(evaluate(&t), Some(0));
}

/// The evaluator is a pure function: the same trajectory scored twice
/// gives the same fitness.
#[test]
fn evaluate_is_deterministic() {
    let make = || {
        let samples = vec![
            sample(1, 0, 0, 0, 0),
            sample(2, 0, 9000, 0, 0),
            sample(2, 500, 1000, 0, 0),
        ];
        Trajectory::new(samples, 1000).expect("well-formed")
    };
    let a = make();
    let first = evaluate(&a);
    assert_eq!(evaluate(&a), first);
    let b = make();
    assert_eq!(evaluate(&b), first);
}

/// Instability at or above the threshold for the whole walk: the
/// stable time is the full duration, not zero.
#[test]
fn never_stable_walk_scores_full_duration() {
    // distances 1 and 9: mean 5000, mad 4000, instability 2e9 >= 1.8e8
    let samples = vec![
        sample(0, 0, 0, 0, 0),
        sample(1, 0, 1000, 0, 0),
        sample(2, 0, 9000, 0, 0),
    ];
    let t = Trajectory::new(samples, 1000).expect("well-formed");
    // 200 * |3000 - 5000| + 1000 (duration) + 250 * 0
    assert_eq!(evaluate(&t), Some(401_000));
}

/// Instability drops below the threshold at time 5 and never rises
/// again: the stable time is exactly 5 time units.
#[test]
fn walk_settling_at_five_scores_that_time() {
    let samples = vec![
        sample(0, 0, 0, 0, 0),
        sample(1, 0, 1000, 0, 0),
        sample(2, 0, 9000, 0, 0),
        sample(1, 5000, 3000, 0, 0),
        sample(2, 5000, 3000, 0, 0),
    ];
    let t = Trajectory::new(samples, 10_000).expect("well-formed");
    // avg distance: (50 * 5000 + 51 * 3000) / 101 = 3990
    // stable time: 5000
    // mean velocity (non-central entities only): step 50 has
    //   (20000 + 60000) / 2 = 40000, the other 100 steps are 0:
    //   40000 / 101 = 396
    // fitness: 200 * 990 + 5000 + 250 * 396 = 302000
    assert_eq!(evaluate(&t), Some(302_000));
}

/// The central entity is the reference point: its own movement adds
/// no velocity to the per-step mean.
#[test]
fn central_entity_velocity_is_not_counted() {
    let samples = vec![
        sample(1, 0, 0, 0, 0),
        sample(2, 0, 3000, 0, 0),
        sample(1, 100, 1000, 0, 0),
    ];
    let t = Trajectory::new(samples, 100).expect("well-formed");
    // two steps: distances 3000 then 2000, avg 2500; entity 2 never
    // moves, so every velocity mean is 0 although the central entity
    // moved a full unit; the streak opens at time zero
    // fitness: 200 * |3000 - 2500| + 0 + 250 * 0 = 100000
    assert_eq!(evaluate(&t), Some(100_000));
}

#[test]
fn degenerate_trajectories_have_no_fitness() {
    // no samples at all
    let empty = Trajectory::new(Vec::new(), 1000).expect("well-formed");
    assert_eq!(evaluate(&empty), None);
    // the central entity's first sample lies past the whole walk, so
    // every step is skipped and no average exists
    let late = Trajectory::new(vec![sample(1, 2000, 0, 0, 0)], 1000).expect("well-formed");
    assert_eq!(evaluate(&late), None);
}

/// A single entity has no distances at any step; each step still
/// counts a zero mean, so the distance average dilutes to zero and
/// the streak never opens.
#[test]
fn lonely_entity_scores_zero_distances_for_full_duration() {
    let lonely = Trajectory::new(vec![sample(1, 0, 0, 0, 0)], 1000).expect("well-formed");
    // fitness: 200 * |3000 - 0| + 1000 (duration) + 250 * 0
    assert_eq!(evaluate(&lonely), Some(601_000));
}

#[test]
fn rescaling_helpers_exact() {
    assert_eq!(normalize(0, 1000, 250), 250);
    assert_eq!(normalize(0, 1000, 1000), 1000);
    assert_eq!(lerp(0, 10_000, 250), 2500);
    assert_eq!(lerp(500, 500, 700), 500);
    assert_eq!(parameter_optimizer::util::map(0, 1000, 500, 0, 10_000), 5000);
    assert_eq!(parameter_optimizer::util::map(0, 10, 5, 100, 200), 150);
    assert_eq!(parameter_optimizer::util::map(0, 1000, 0, -500, 500), -500);
    // rescaling onto the same range loses at most one quantization
    // step to truncation, never overshoots
    assert_eq!(parameter_optimizer::util::map(0, 3000, 1000, 0, 3000), 999);
}
