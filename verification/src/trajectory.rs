//! Trajectory data model: time-stamped positions of a set of entities,
//! in milli-unit fixed point, with the "position as of time T" query.

use vstd::prelude::*;

verus! {

/// Largest magnitude of a position coordinate, in milli-units.
pub const MAX_COORD: i64 = 1_000_000;

/// Largest simulation duration, in milli-units of time.
pub const MAX_DURATION: i64 = 10_000_000;

/// Largest number of samples in a trajectory.
pub const MAX_SAMPLES: usize = 100_000;

/// Upper bound on any squared distance between in-range positions:
/// `3 * (2 * MAX_COORD)^2`.
pub const MAX_SQ: i64 = 12_000_000_000_000;

/// Strict upper bound on any distance between in-range positions
/// (`MAX_DIST * MAX_DIST > MAX_SQ`).
pub const MAX_DIST: i64 = 3_464_102;

/// A position in space, each coordinate in milli-units.
#[derive(Clone, Copy, PartialEq, Eq, Structural, Debug)]
pub struct Vec3 {
    pub x: i64,
    pub y: i64,
    pub z: i64,
}

/// One parsed trajectory record: where entity `entity` was at `time`.
#[derive(Clone, Copy, PartialEq, Eq, Structural, Debug)]
pub struct Sample {
    pub entity: u64,
    pub time: i64,
    pub pos: Vec3,
}

pub open spec fn coord_ok(c: int) -> bool {
    -MAX_COORD <= c <= MAX_COORD
}

pub open spec fn sample_ok(s: Sample) -> bool {
    &&& coord_ok(s.pos.x as int)
    &&& coord_ok(s.pos.y as int)
    &&& coord_ok(s.pos.z as int)
    &&& 0 <= s.time
}

pub open spec fn strictly_sorted(s: Seq<u64>) -> bool {
    forall|i: int, j: int| 0 <= i < j < s.len() ==> s[i] < s[j]
}

pub open spec fn times_nondecreasing(s: Seq<Sample>) -> bool {
    forall|i: int, j: int| 0 <= i < j < s.len() ==> s[i].time <= s[j].time
}

/// Whether some record in `samples` belongs to entity `e`.
pub open spec fn entity_has_sample(samples: Seq<Sample>, e: u64) -> bool {
    exists|i: int| 0 <= i < samples.len() && samples[i].entity == e
}

/// What the trajectory constructor accepts: a bounded number of
/// in-range samples ordered by time, and an in-range duration.
pub open spec fn trajectory_input_ok(samples: Seq<Sample>, duration: int) -> bool {
    &&& 0 <= duration <= MAX_DURATION
    &&& samples.len() <= MAX_SAMPLES
    &&& forall|i: int| 0 <= i < samples.len() ==> sample_ok(#[trigger] samples[i])
    &&& times_nondecreasing(samples)
}

/// The most recent position of entity `e` at or before time `t`:
/// the last record in file order whose time is at most `t`.
pub open spec fn pos_at_spec(samples: Seq<Sample>, e: u64, t: int) -> Option<Vec3>
    decreases samples.len(),
{
    if samples.len() == 0 {
        None
    } else if samples.last().entity == e && samples.last().time <= t {
        Some(samples.last().pos)
    } else {
        pos_at_spec(samples.drop_last(), e, t)
    }
}

/// A full simulation run: every sample, the distinct entity ids in
/// ascending order, and the run's duration (milli-units of time).
pub struct Trajectory {
    pub samples: Vec<Sample>,
    pub entities: Vec<u64>,
    pub duration: i64,
}

impl Trajectory {
    /// Well-formedness: bounded in-range samples ordered by time, and
    /// `entities` is exactly the set of ids that appear in `samples`,
    /// ascending.
    pub open spec fn wf(self) -> bool {
        &&& trajectory_input_ok(self.samples@, self.duration as int)
        &&& strictly_sorted(self.entities@)
        &&& self.entities@.len() <= self.samples@.len()
        &&& forall|i: int| 0 <= i < self.samples@.len()
                ==> self.entities@.contains(#[trigger] self.samples@[i].entity)
        &&& forall|j: int| 0 <= j < self.entities@.len()
                ==> entity_has_sample(self.samples@, #[trigger] self.entities@[j])
    }

    /// Builds a validated trajectory from parsed samples. Succeeds
    /// exactly when every sample is in range, the times are ordered,
    /// the duration is in range, and there are not too many samples.
    pub fn new(samples: Vec<Sample>, duration: i64) -> (r: Option<Trajectory>)
        ensures
            r is Some <==> trajectory_input_ok(samples@, duration as int),
            match r {
                Some(t) => t.wf() && t.samples@ == samples@ && t.duration == duration,
                None => true,
            },
    {
        if duration < 0 || duration > MAX_DURATION || samples.len() > MAX_SAMPLES {
            return None;
        }
        let mut i: usize = 0;
        while i < samples.len()
            invariant
                0 <= i <= samples@.len(),
                forall|k: int| 0 <= k < i ==> sample_ok(#[trigger] samples@[k]),
                forall|k: int, l: int| 0 <= k < l < i ==> samples@[k].time <= samples@[l].time,
            decreases samples@.len() - i,
        {
            let s = samples[i];
            if s.pos.x < -MAX_COORD || s.pos.x > MAX_COORD
                || s.pos.y < -MAX_COORD || s.pos.y > MAX_COORD
                || s.pos.z < -MAX_COORD || s.pos.z > MAX_COORD
                || s.time < 0
            {
                return None;
            }
            if i > 0 && samples[i - 1].time > s.time {
                return None;
            }
            i += 1;
        }
        let mut entities: Vec<u64> = Vec::new();
        let mut j: usize = 0;
        while j < samples.len()
            invariant
                0 <= j <= samples@.len(),
                strictly_sorted(entities@),
                entities@.len() <= j,
                forall|k: int| 0 <= k < j
                    ==> entities@.contains(#[trigger] samples@[k].entity),
                forall|x: u64| #[trigger] entities@.contains(x)
                    ==> exists|k: int| 0 <= k < j && samples@[k].entity == x,
            decreases samples@.len() - j,
        {
            let e: u64 = samples[j].entity;
            insert_sorted(&mut entities, e);
            j += 1;
        }
        let t = Trajectory { samples, entities, duration };
        proof {
            assert forall|m: int| 0 <= m < t.entities@.len()
                implies entity_has_sample(t.samples@, #[trigger] t.entities@[m]) by {
                let x = t.entities@[m];
                assert(t.entities@.contains(x));
                let k = choose|k: int|
                    0 <= k < t.samples@.len() && t.samples@[k].entity == x;
                assert(0 <= k < t.samples@.len() && t.samples@[k].entity == x);
            }
        }
        Some(t)
    }

    /// The position of entity `e` as of time `t`: the most recent sample
    /// at or before `t`, or `None` if the entity has no sample yet.
    pub fn pos_at(&self, e: u64, t: i64) -> (r: Option<Vec3>)
        ensures
            r == pos_at_spec(self.samples@, e, t as int),
    {
        let ghost all = self.samples@;
        proof {
            assert(all.take(all.len() as int) =~= all);
        }
        let mut i: usize = self.samples.len();
        while i > 0
            invariant
                0 <= i <= all.len(),
                all == self.samples@,
                pos_at_spec(all, e, t as int) == pos_at_spec(all.take(i as int), e, t as int),
            decreases i,
        {
            i -= 1;
            let s = self.samples[i];
            proof {
                assert(all.take(i as int + 1).last() == all[i as int]);
                assert(all.take(i as int + 1).drop_last() =~= all.take(i as int));
            }
            if s.entity == e && s.time <= t {
                return Some(s.pos);
            }
        }
        proof {
            assert(all.take(0) =~= Seq::<Sample>::empty());
        }
        None
    }
}

/// Inserts `e` into an ascending vector of ids, keeping it ascending and
/// duplicate-free; a value already present is left alone.
pub fn insert_sorted(v: &mut Vec<u64>, e: u64)
    requires
        strictly_sorted(old(v)@),
        old(v)@.len() < usize::MAX,
    ensures
        strictly_sorted(final(v)@),
        forall|x: u64| final(v)@.contains(x) <==> (old(v)@.contains(x) || x == e),
        old(v)@.contains(e) ==> final(v)@ == old(v)@,
        final(v)@.len() <= old(v)@.len() + 1,
{
    let ghost orig = v@;
    let mut i: usize = 0;
    while i < v.len() && v[i] < e
        invariant
            0 <= i <= v@.len(),
            v@ == orig,
            forall|k: int| 0 <= k < i ==> v@[k] < e,
        decreases v@.len() - i,
    {
        i += 1;
    }
    if i < v.len() {
        let cur: u64 = v[i];
        if cur == e {
            proof {
                assert(v@.contains(e)) by {
                    assert(v@[i as int] == e);
                }
            }
            return;
        }
    }
    v.insert(i, e);
    proof {
        let nv = v@;
        assert forall|a: int, b: int| 0 <= a < b < nv.len() implies nv[a] < nv[b] by {
            if b < i {
                assert(nv[a] == orig[a] && nv[b] == orig[b]);
            } else if a > i {
                assert(nv[a] == orig[a - 1] && nv[b] == orig[b - 1]);
            } else if b == i {
                assert(nv[b] == e && nv[a] == orig[a]);
            } else if a == i {
                assert(nv[a] == e && nv[b] == orig[b - 1]);
                assert(orig[b - 1] != e);
                assert(e <= orig[b - 1]) by {
                    if i < orig.len() {
                        assert(e < orig[i as int]);
                        if b - 1 > i {
                            assert(orig[i as int] < orig[b - 1]);
                        }
                    }
                }
            } else {
                assert(nv[a] == orig[a] && nv[b] == orig[b - 1]);
                assert(a < b - 1 || a == b - 1);
                if a == b - 1 {
                    assert(a < i && b > i);
                    assert(false);
                }
            }
        }
        assert forall|x: u64| nv.contains(x) <==> (orig.contains(x) || x == e) by {
            if nv.contains(x) {
                let k = choose|k: int| 0 <= k < nv.len() && nv[k] == x;
                if k < i {
                    assert(orig[k] == x);
                    assert(orig.contains(x));
                } else if k == i {
                    assert(x == e);
                } else {
                    assert(orig[k - 1] == x);
                    assert(orig.contains(x));
                }
            }
            if orig.contains(x) {
                let k = choose|k: int| 0 <= k < orig.len() && orig[k] == x;
                if k < i {
                    assert(nv[k] == x);
                    assert(nv.contains(x));
                } else {
                    assert(nv[k + 1] == x);
                    assert(nv.contains(x));
                }
            }
            if x == e {
                assert(nv[i as int] == e);
                assert(nv.contains(x));
            }
        }
    }
}

} // verus!
