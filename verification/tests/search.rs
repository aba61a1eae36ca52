use parameter_optimizer::report::{
    chunk_means, collect_valid_fitnesses, color_index, hot_cold_limits, report_chunk_size,
    sort_ascending,
};
use parameter_optimizer::state::{
    Param, SearchError, SearchState, TrialResult, INITIAL_BEST, SEED_VALUE,
};
use parameter_optimizer::trajectory::{Sample, Trajectory, Vec3};
use parameter_optimizer::worker::{
    begin_trial, finish_trial, loop_step, worker_count, TrialOutcome, WorkerPhase,
};

fn two_params() -> Vec<Param> {
    vec![
        Param { name: "a".to_string(), lo: 0, hi: 10_000 },
        Param { name: "r".to_string(), lo: 0, hi: 10_000 },
    ]
}

fn fresh_state() -> SearchState {
    SearchState::new(two_params()).expect("intervals are non-degenerate")
}

#[test]
fn new_rejects_degenerate_interval() {
    let params = vec![Param { name: "a".to_string(), lo: 5, hi: 5 }];
    match SearchState::new(params) {
        Err(SearchError::DegenerateInterval) => {}
        _ => panic!("a degenerate interval must be rejected"),
    }
}

#[test]
fn seed_observations_one_per_parameter() {
    let st = fresh_state();
    let seeds = st.seed_observations();
    assert_eq!(seeds.len(), 2);
    for s in seeds {
        assert_eq!(s, (SEED_VALUE, INITIAL_BEST));
    }
}

#[test]
fn accept_candidate_checks_arity_and_range() {
    let st = fresh_state();
    assert!(st.accept_candidate(&vec![500, 500]).is_ok());
    // values on the closed interval's ends are accepted
    assert!(st.accept_candidate(&vec![0, 10_000]).is_ok());
    assert_eq!(
        st.accept_candidate(&vec![500]),
        Err(SearchError::CandidateArity)
    );
    assert_eq!(
        st.accept_candidate(&vec![500, 10_001]),
        Err(SearchError::CandidateOutOfRange)
    );
    assert_eq!(
        st.accept_candidate(&vec![-1, 500]),
        Err(SearchError::CandidateOutOfRange)
    );
}

#[test]
fn commit_trial_appends_and_keeps_arity() {
    let mut st = fresh_state();
    st.commit_trial(vec![500, 600], Some(5000), 1).expect("valid candidate");
    st.commit_trial(vec![700, 800], None, 2).expect("valid candidate");
    assert_eq!(st.trials.len(), 2);
    for tr in &st.trials {
        assert_eq!(tr.values.len(), st.params.len());
    }
    assert_eq!(st.trials[0].values, vec![500, 600]);
    assert_eq!(st.trials[1].fitness, None);
}

#[test]
fn commit_trial_rejects_malformed_candidate_whole() {
    let mut st = fresh_state();
    let r = st.commit_trial(vec![500, 20_000], Some(10), 1);
    assert_eq!(r, Err(SearchError::CandidateOutOfRange));
    assert_eq!(st.trials.len(), 0);
    assert_eq!(st.best_fitness, INITIAL_BEST);
}

#[test]
fn best_fitness_never_increases_and_skips_degenerate() {
    let mut st = fresh_state();
    let mut seen: Vec<i64> = vec![st.best_fitness];
    st.commit_trial(vec![1, 1], Some(5000), 1).unwrap();
    seen.push(st.best_fitness);
    st.commit_trial(vec![2, 2], None, 2).unwrap();
    seen.push(st.best_fitness);
    st.commit_trial(vec![3, 3], Some(7000), 3).unwrap();
    seen.push(st.best_fitness);
    st.commit_trial(vec![4, 4], Some(4000), 4).unwrap();
    seen.push(st.best_fitness);
    assert_eq!(seen, vec![INITIAL_BEST, 5000, 5000, 5000, 4000]);
    for w in seen.windows(2) {
        assert!(w[1] <= w[0]);
    }
}

#[test]
fn loop_step_observes_cancellation() {
    assert_eq!(loop_step(WorkerPhase::Idle, true), WorkerPhase::Stopped);
    assert_eq!(loop_step(WorkerPhase::Idle, false), WorkerPhase::Running);
    assert_eq!(loop_step(WorkerPhase::Running, true), WorkerPhase::Idle);
    assert_eq!(loop_step(WorkerPhase::Stopped, false), WorkerPhase::Stopped);
    assert_eq!(loop_step(WorkerPhase::Stopped, true), WorkerPhase::Stopped);
}

#[test]
fn begin_trial_honours_the_flag_and_names_output() {
    let mut st = fresh_state();
    let name = begin_trial(&st).expect("not cancelled");
    assert_eq!(name.len(), 14);
    assert!(name.ends_with(".csv"));
    assert!(name[..10].chars().all(|c| c.is_ascii_alphanumeric()));
    let other = begin_trial(&st).expect("not cancelled");
    assert_eq!(other.len(), 14);
    st.request_cancel();
    assert!(begin_trial(&st).is_none());
}

fn pair_at(distance: i64) -> Trajectory {
    let samples = vec![
        Sample { entity: 1, time: 0, pos: Vec3 { x: 0, y: 0, z: 0 } },
        Sample { entity: 2, time: 0, pos: Vec3 { x: distance, y: 0, z: 0 } },
    ];
    Trajectory::new(samples, 1000).expect("well-formed")
}

#[test]
fn finish_trial_discards_failures_without_commit() {
    let mut st = fresh_state();
    let r = finish_trial(&mut st, vec![500, 600], None, 1);
    assert_eq!(r, Ok(TrialOutcome::Discarded));
    assert_eq!(st.trials.len(), 0);
    assert_eq!(st.best_fitness, INITIAL_BEST);
}

#[test]
fn finish_trial_archives_exactly_the_new_bests() {
    let mut st = fresh_state();
    // fitness 0: a new best, archived
    let r1 = finish_trial(&mut st, vec![500, 600], Some(pair_at(3000)), 1);
    assert_eq!(r1, Ok(TrialOutcome::CommittedArchived));
    assert_eq!(st.trials.len(), 1);
    assert_eq!(st.best_fitness, 0);
    // fitness 400000 > 0: committed but deleted
    let r2 = finish_trial(&mut st, vec![700, 800], Some(pair_at(5000)), 2);
    assert_eq!(r2, Ok(TrialOutcome::CommittedDeleted));
    assert_eq!(st.trials.len(), 2);
    assert_eq!(st.best_fitness, 0);
    // a failure afterwards changes nothing
    let r3 = finish_trial(&mut st, vec![900, 900], None, 3);
    assert_eq!(r3, Ok(TrialOutcome::Discarded));
    assert_eq!(st.trials.len(), 2);
}

#[test]
fn finish_trial_surfaces_contract_violations() {
    let mut st = fresh_state();
    let r = finish_trial(&mut st, vec![500, 20_000], Some(pair_at(3000)), 1);
    assert_eq!(r, Err(SearchError::CandidateOutOfRange));
    assert_eq!(st.trials.len(), 0);
}

fn trial(fitness: Option<i64>) -> TrialResult {
    TrialResult { values: vec![1, 2], fitness, completed_at: 0 }
}

#[test]
fn collect_valid_fitnesses_skips_degenerate() {
    let trials = vec![trial(Some(30)), trial(None), trial(Some(10)), trial(Some(20))];
    assert_eq!(collect_valid_fitnesses(&trials), vec![30, 10, 20]);
}

#[test]
fn sort_ascending_orders_scores() {
    let sorted = sort_ascending(vec![30, 10, 20, 10]);
    assert_eq!(sorted, vec![10, 10, 20, 30]);
    let empty = sort_ascending(Vec::new());
    assert!(empty.is_empty());
}

#[test]
fn hot_cold_limits_are_bucket_tops() {
    let sorted: Vec<i64> = vec![10, 20, 30, 40];
    assert_eq!(hot_cold_limits(&sorted, 4), vec![10, 20, 30, 40]);
    assert_eq!(hot_cold_limits(&sorted, 2), vec![20, 40]);
}

#[test]
fn color_index_ranks_against_limits() {
    let limits: Vec<i64> = vec![10, 20, 30, 40];
    assert_eq!(color_index(&limits, 5), 1);
    assert_eq!(color_index(&limits, 15), 2);
    assert_eq!(color_index(&limits, 20), 3);
    assert_eq!(color_index(&limits, 100), 4);
}

#[test]
fn chunk_means_average_each_chunk() {
    let scores: Vec<i64> = vec![10, 20, 30, 40, 50];
    assert_eq!(chunk_means(&scores, 2), vec![15, 35, 50]);
    assert_eq!(chunk_means(&scores, 5), vec![30]);
    let none: Vec<i64> = Vec::new();
    assert_eq!(chunk_means(&none, 3), Vec::<i64>::new());
}

#[test]
fn pool_sizes_are_positive() {
    assert!(worker_count() >= 1);
    assert!(report_chunk_size() >= 1);
}
