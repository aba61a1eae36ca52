//! The shared search state: the registered parameters with their
//! closed intervals, the append-only log of completed trials, the best
//! fitness seen so far, and the cooperative cancellation flag. One
//! instance is shared by every worker; callers serialize access (a
//! single lock around each operation), so each operation here is a
//! single atomic transition of the whole state.

use vstd::prelude::*;

verus! {


/// The sentinel best fitness before any real trial completes
/// (10000 unit-scale, in milli-units).
pub const INITIAL_BEST: i64 = 10_000_000;

/// The synthetic seed observation value for every parameter
/// (1.0 unit-scale, in milli-units).
pub const SEED_VALUE: i64 = 1000;

/// One searchable parameter: a name and a closed interval, in
/// milli-units.
pub struct Param {
    pub name: String,
    pub lo: i64,
    pub hi: i64,
}

/// One completed trial: the candidate values in parameter order, the
/// fitness (`None` stands for a degenerate, non-comparable score), and
/// the commit timestamp.
pub struct TrialResult {
    pub values: Vec<i64>,
    pub fitness: Option<i64>,
    pub completed_at: i64,
}

#[derive(Clone, Copy, PartialEq, Eq, Structural, Debug)]
pub enum SearchError {
    /// A parameter interval with `lo >= hi`.
    DegenerateInterval,
    /// A candidate whose arity differs from the registered parameters.
    CandidateArity,
    /// A candidate with a value outside its parameter's interval.
    CandidateOutOfRange,
}

/// A candidate matches the registry: one value per parameter, each
/// inside its closed interval.
pub open spec fn candidate_ok(params: Seq<Param>, values: Seq<i64>) -> bool {
    &&& values.len() == params.len()
    &&& forall|i: int| 0 <= i < params.len()
        ==> params[i].lo <= #[trigger] values[i] <= params[i].hi
}

/// The best fitness after a sequence of committed trials: the least
/// valid fitness seen, starting from the sentinel. Degenerate trials
/// do not take part.
pub open spec fn best_after(trials: Seq<TrialResult>) -> int
    decreases trials.len(),
{
    if trials.len() == 0 {
        INITIAL_BEST as int
    } else {
        let prev = best_after(trials.drop_last());
        match trials.last().fitness {
            Some(f) => if f < prev {
                f as int
            } else {
                prev
            },
            None => prev,
        }
    }
}

/// How one commit moves the best fitness.
pub open spec fn new_best(old_best: int, fitness: Option<i64>) -> int {
    match fitness {
        Some(f) => if f < old_best {
            f as int
        } else {
            old_best
        },
        None => old_best,
    }
}

pub struct SearchState {
    pub params: Vec<Param>,
    pub trials: Vec<TrialResult>,
    pub best_fitness: i64,
    pub cancel_requested: bool,
}

impl SearchState {
    /// Well-formedness: non-degenerate intervals, every logged trial
    /// matches the registry, the log's timestamps never decrease
    /// (insertion order is completion order), and the cached best
    /// fitness agrees with the log.
    pub open spec fn wf(self) -> bool {
        &&& forall|i: int| 0 <= i < self.params@.len()
            ==> (#[trigger] self.params@[i]).lo < self.params@[i].hi
        &&& forall|j: int| 0 <= j < self.trials@.len()
            ==> candidate_ok(self.params@, (#[trigger] self.trials@[j]).values@)
        &&& forall|i: int, j: int| 0 <= i < j < self.trials@.len()
            ==> self.trials@[i].completed_at <= self.trials@[j].completed_at
        &&& self.best_fitness == best_after(self.trials@)
    }

    /// Builds the state from the registered parameters, pre-seeded
    /// best fitness and an empty log. Fails exactly when an interval
    /// is degenerate.
    pub fn new(params: Vec<Param>) -> (r: Result<SearchState, SearchError>)
        ensures
            match r {
                Ok(s) => {
                    &&& forall|i: int| 0 <= i < params@.len()
                        ==> (#[trigger] params@[i]).lo < params@[i].hi
                    &&& s.params@ == params@
                    &&& s.trials@.len() == 0
                    &&& s.best_fitness == INITIAL_BEST
                    &&& s.cancel_requested == false
                    &&& s.wf()
                },
                Err(e) => {
                    &&& e == SearchError::DegenerateInterval
                    &&& exists|i: int| 0 <= i < params@.len()
                        && (#[trigger] params@[i]).lo >= params@[i].hi
                },
            },
    {
        let mut i: usize = 0;
        while i < params.len()
            invariant
                0 <= i <= params@.len(),
                forall|k: int| 0 <= k < i ==> (#[trigger] params@[k]).lo < params@[k].hi,
            decreases params@.len() - i,
        {
            if params[i].lo >= params[i].hi {
                return Err(SearchError::DegenerateInterval);
            }
            i += 1;
        }
        Ok(
            SearchState {
                params,
                trials: Vec::new(),
                best_fitness: INITIAL_BEST,
                cancel_requested: false,
            },
        )
    }

    /// The synthetic observation every parameter's optimizer is told
    /// before any real trial: value `SEED_VALUE`, fitness the
    /// sentinel. One pair per parameter.
    pub fn seed_observations(&self) -> (r: Vec<(i64, i64)>)
        ensures
            r@.len() == self.params@.len(),
            forall|i: int| 0 <= i < r@.len()
                ==> #[trigger] r@[i] == (SEED_VALUE, INITIAL_BEST),
    {
        let mut out: Vec<(i64, i64)> = Vec::new();
        let mut i: usize = 0;
        while i < self.params.len()
            invariant
                0 <= i <= self.params@.len(),
                out@.len() == i,
                forall|k: int| 0 <= k < i
                    ==> #[trigger] out@[k] == (SEED_VALUE, INITIAL_BEST),
            decreases self.params@.len() - i,
        {
            out.push((SEED_VALUE, INITIAL_BEST));
            i += 1;
        }
        out
    }

    /// Checks a drawn candidate against the registry: accepted exactly
    /// when it has one value per parameter and every value lies inside
    /// its closed interval. A rejection is an optimizer contract
    /// violation and fatal to the search.
    pub fn accept_candidate(&self, values: &Vec<i64>) -> (r: Result<(), SearchError>)
        ensures
            r is Ok <==> candidate_ok(self.params@, values@),
            r is Err ==> (r == Err::<(), SearchError>(SearchError::CandidateArity)
                <==> values@.len() != self.params@.len()),
            r is Err ==> (r == Err::<(), SearchError>(SearchError::CandidateArity)
                || r == Err::<(), SearchError>(SearchError::CandidateOutOfRange)),
    {
        if values.len() != self.params.len() {
            return Err(SearchError::CandidateArity);
        }
        let mut i: usize = 0;
        while i < self.params.len()
            invariant
                0 <= i <= self.params@.len(),
                values@.len() == self.params@.len(),
                forall|k: int| 0 <= k < i
                    ==> self.params@[k].lo <= #[trigger] values@[k] <= self.params@[k].hi,
            decreases self.params@.len() - i,
        {
            if values[i] < self.params[i].lo || values[i] > self.params[i].hi {
                return Err(SearchError::CandidateOutOfRange);
            }
            i += 1;
        }
        Ok(())
    }

    /// Commits one finished trial: records the observation, appends to
    /// the log, and lowers the best fitness if the trial's valid
    /// fitness beats it. A malformed candidate is rejected whole: the
    /// state is left untouched. The timestamp is the commit's
    /// wall-clock order, so it may not fall behind the log's tail.
    pub fn commit_trial(
        &mut self,
        values: Vec<i64>,
        fitness: Option<i64>,
        completed_at: i64,
    ) -> (r: Result<(), SearchError>)
        requires
            old(self).wf(),
            old(self).trials@.len() > 0
                ==> old(self).trials@.last().completed_at <= completed_at,
        ensures
            final(self).wf(),
            r is Ok <==> candidate_ok(old(self).params@, values@),
            r is Err ==> (r == Err::<(), SearchError>(SearchError::CandidateArity)
                <==> values@.len() != old(self).params@.len()),
            r is Err ==> (r == Err::<(), SearchError>(SearchError::CandidateArity)
                || r == Err::<(), SearchError>(SearchError::CandidateOutOfRange)),
            r is Ok ==> final(self).trials@ == old(self).trials@.push(
                (TrialResult { values, fitness, completed_at }),
            ),
            r is Ok ==> final(self).best_fitness
                == new_best(old(self).best_fitness as int, fitness),
            r is Err ==> final(self).trials@ == old(self).trials@
                && final(self).best_fitness == old(self).best_fitness,
            final(self).params@ == old(self).params@,
            final(self).cancel_requested == old(self).cancel_requested,
            final(self).best_fitness <= old(self).best_fitness,
    {
        match self.accept_candidate(&values) {
            Ok(()) => {},
            Err(e) => {
                return Err(e);
            },
        }
        let tr = TrialResult { values, fitness, completed_at };
        self.trials.push(tr);
        proof {
            assert(self.trials@.drop_last() =~= old(self).trials@);
        }
        match fitness {
            Some(f) => {
                if f < self.best_fitness {
                    self.best_fitness = f;
                }
            },
            None => {},
        }
        Ok(())
    }

    /// Whether a fitness would be recorded as a new global best: only
    /// a valid fitness strictly below the current best.
    pub fn is_new_best(&self, fitness: Option<i64>) -> (r: bool)
        ensures
            r <==> (fitness is Some && fitness.unwrap() < self.best_fitness),
    {
        match fitness {
            Some(f) => f < self.best_fitness,
            None => false,
        }
    }

    /// Raises the cooperative cancellation flag; everything else is
    /// untouched. Setting it again changes nothing.
    pub fn request_cancel(&mut self)
        ensures
            final(self).cancel_requested == true,
            final(self).params@ == old(self).params@,
            final(self).trials@ == old(self).trials@,
            final(self).best_fitness == old(self).best_fitness,
    {
        self.cancel_requested = true;
    }
}

/// Every value of every committed trial lies inside its parameter's
/// closed interval: candidates enter the log only through the
/// validated commit path.
pub proof fn lemma_committed_values_in_range(s: SearchState, j: int, i: int)
    requires
        s.wf(),
        0 <= j < s.trials@.len(),
        0 <= i < s.params@.len(),
    ensures
        s.trials@[j].values@.len() == s.params@.len(),
        s.params@[i].lo <= s.trials@[j].values@[i] <= s.params@[i].hi,
{
    assert(candidate_ok(s.params@, s.trials@[j].values@));
}

/// The best fitness is monotonically non-increasing along any prefix
/// of the trial log: more commits can only lower it, never raise it.
pub proof fn lemma_best_fitness_monotone(trials: Seq<TrialResult>, i: nat, j: nat)
    requires
        i <= j <= trials.len(),
    ensures
        best_after(trials.take(j as int)) <= best_after(trials.take(i as int)),
    decreases j - i,
{
    if i == j {
        assert(trials.take(j as int) == trials.take(i as int));
    } else {
        lemma_best_fitness_monotone(trials, i, (j - 1) as nat);
        assert(trials.take(j as int).drop_last() =~= trials.take(j as int - 1));
    }
}

} // verus!
