//! The per-worker decision logic around one trial: the loop-boundary
//! state machine that observes the cancellation flag, and the
//! bookkeeping that turns a finished (or failed) trial into a commit
//! and exactly one disposition of its raw output file. The outside
//! work itself - running the simulation and parsing its output - is
//! performed by the caller between these calls.

use vstd::prelude::*;

verus! {

use crate::state::{SearchState, SearchError, candidate_ok, new_best};
use crate::trajectory::Trajectory;
use crate::evaluator::{evaluate, evaluate_spec, view_opt};
use vstd::string::StringExecFns;

#[derive(Clone, Copy, PartialEq, Eq, Structural, Debug)]
pub enum WorkerPhase {
    /// At the top of the loop, about to observe the cancellation flag.
    Idle,
    /// Inside a trial; a trial always runs to completion.
    Running,
    /// Observed the flag and exited; terminal.
    Stopped,
}

/// What happens to a trial's raw output file; every completed trial
/// gets exactly one of these.
#[derive(Clone, Copy, PartialEq, Eq, Structural, Debug)]
pub enum TrialOutcome {
    /// The execution or the parse failed: nothing was committed, the
    /// partial output is deleted, and the optimizer is not penalized.
    Discarded,
    /// Committed as a new global best: the output is archived under a
    /// fitness-keyed name.
    CommittedArchived,
    /// Committed, not a new best: the output is deleted to bound disk
    /// usage.
    CommittedDeleted,
}

/// The worker transition at its observation points: at `Idle` a set
/// cancellation flag sends the worker to `Stopped`, otherwise into a
/// trial; a trial finishes back at `Idle`; `Stopped` is terminal.
pub open spec fn loop_step_spec(phase: WorkerPhase, cancel_requested: bool) -> WorkerPhase {
    match phase {
        WorkerPhase::Idle => if cancel_requested {
            WorkerPhase::Stopped
        } else {
            WorkerPhase::Running
        },
        WorkerPhase::Running => WorkerPhase::Idle,
        WorkerPhase::Stopped => WorkerPhase::Stopped,
    }
}

pub fn loop_step(phase: WorkerPhase, cancel_requested: bool) -> (p: WorkerPhase)
    ensures
        p == loop_step_spec(phase, cancel_requested),
{
    match phase {
        WorkerPhase::Idle => if cancel_requested {
            WorkerPhase::Stopped
        } else {
            WorkerPhase::Running
        },
        WorkerPhase::Running => WorkerPhase::Idle,
        WorkerPhase::Stopped => WorkerPhase::Stopped,
    }
}

/// Cooperative cancellation: once the flag is set and stays set, a
/// worker reaches `Stopped` within one trial's worth of transitions -
/// at most two observation points - and `Stopped` is never left.
pub proof fn lemma_cancellation_stops(phase: WorkerPhase)
    ensures
        loop_step_spec(loop_step_spec(phase, true), true) is Stopped,
        forall|c: bool| loop_step_spec(WorkerPhase::Stopped, c) is Stopped,
{
}

/// The worker pool size: one worker per available execution unit,
/// fixed at search launch.
pub fn worker_count() -> (n: usize)
    ensures
        1 <= n,
{
    crate::wrappers::cpu_count()
}

/// The top of a worker's loop: observes the cancellation flag. When
/// it is clear the trial begins, with a fresh randomly named `.csv`
/// output file to keep concurrent workers from colliding; when it is
/// set, the worker must stop instead.
pub fn begin_trial(st: &SearchState) -> (r: Option<String>)
    ensures
        r is Some <==> !st.cancel_requested,
        r is Some ==> r.unwrap()@.len() == 14
            && r.unwrap()@.subrange(10, 14) == ".csv"@,
        r is Some ==> forall|i: int| 0 <= i < 10
            ==> (('0' <= #[trigger] r.unwrap()@[i] <= '9')
                || ('a' <= r.unwrap()@[i] <= 'z')
                || ('A' <= r.unwrap()@[i] <= 'Z')),
{
    if st.cancel_requested {
        None
    } else {
        let mut name = crate::wrappers::fresh_token();
        let ghost token = name@;
        name.append(".csv");
        proof {
            reveal_strlit(".csv");
            assert(name@.subrange(10, 14) =~= ".csv"@);
            assert(forall|i: int| 0 <= i < 10 ==> name@[i] == token[i]);
        }
        Some(name)
    }
}

/// Finishes one trial. A failed execution or parse (`parsed` is
/// `None`) commits nothing and discards the output. A parsed
/// trajectory is scored, committed to the log, and its output is
/// archived exactly when the fitness is a valid new best, deleted
/// otherwise - one disposition, never both, never neither. A
/// malformed candidate is an optimizer contract violation: the error
/// is surfaced and the state is left untouched.
pub fn finish_trial(
    st: &mut SearchState,
    values: Vec<i64>,
    parsed: Option<Trajectory>,
    completed_at: i64,
) -> (r: Result<TrialOutcome, SearchError>)
    requires
        old(st).wf(),
        parsed is Some ==> parsed.unwrap().wf(),
        parsed is Some && old(st).trials@.len() > 0
            ==> old(st).trials@.last().completed_at <= completed_at,
    ensures
        final(st).wf(),
        final(st).params@ == old(st).params@,
        final(st).cancel_requested == old(st).cancel_requested,
        final(st).best_fitness <= old(st).best_fitness,
        parsed is None ==> r == Ok::<TrialOutcome, SearchError>(TrialOutcome::Discarded)
            && final(st).trials@ == old(st).trials@
            && final(st).best_fitness == old(st).best_fitness,
        parsed is Some ==> (r is Err <==> !candidate_ok(old(st).params@, values@)),
        r is Err ==> final(st).trials@ == old(st).trials@
            && final(st).best_fitness == old(st).best_fitness,
        parsed is Some && r is Ok ==> (
            final(st).trials@.len() == old(st).trials@.len() + 1
            && final(st).trials@.drop_last() == old(st).trials@
            && final(st).trials@.last().values@ == values@
            && view_opt(final(st).trials@.last().fitness) == evaluate_spec(parsed.unwrap())
            && final(st).trials@.last().completed_at == completed_at
            && final(st).best_fitness == new_best(
                old(st).best_fitness as int,
                final(st).trials@.last().fitness,
            )
            && (r == Ok::<TrialOutcome, SearchError>(TrialOutcome::CommittedArchived)
                || r == Ok::<TrialOutcome, SearchError>(TrialOutcome::CommittedDeleted))
            && (r == Ok::<TrialOutcome, SearchError>(TrialOutcome::CommittedArchived)
                <==> (evaluate_spec(parsed.unwrap()) is Some
                    && evaluate_spec(parsed.unwrap()).unwrap()
                        < old(st).best_fitness as int))
        ),
{
    match parsed {
        None => Ok(TrialOutcome::Discarded),
        Some(traj) => {
            let fitness = evaluate(&traj);
            let was_best = st.is_new_best(fitness);
            match st.commit_trial(values, fitness, completed_at) {
                Err(e) => Err(e),
                Ok(()) => {
                    proof {
                        assert(st.trials@.drop_last() =~= old(st).trials@);
                    }
                    if was_best {
                        Ok(TrialOutcome::CommittedArchived)
                    } else {
                        Ok(TrialOutcome::CommittedDeleted)
                    }
                },
            }
        },
    }
}

} // verus!
