//! The decisions of sphere tracing.
//!
//! A ray is marched by sampling the distance field at a point, advancing by
//! the sampled distance, and sampling again.  The host computes the points
//! and the samples; this module decides from each sample whether the ray has
//! left the scene, reached a surface, or marches on, and stops the march when
//! the step budget is spent.

use vstd::prelude::*;
use crate::scalar::Scalar;

verus! {

/// The bounds of a march.
#[derive(Clone, Copy, Debug)]
pub struct TraceLimits {
    /// Number of samples a ray may take.
    pub max_steps: i32,
    /// A sample at or below this distance is a hit.
    pub min_distance: Scalar,
    /// A sample above this distance means the ray has left the scene.
    pub max_distance: Scalar,
}

/// What one sample of the distance field says about the ray.
#[derive(Clone, Copy, Debug, PartialEq, Eq, Structural)]
pub enum Probe {
    /// The sample exceeds the scene bound: the ray is lost.
    Escaped,
    /// The sample is within the hit threshold: the ray is on a surface.
    Reached,
    /// Neither: the ray advances by the sampled distance.
    Clear,
}

/// Where a march stands.
#[derive(Clone, Copy, Debug, PartialEq, Eq, Structural)]
pub enum Status {
    /// The next sample is awaited.
    Marching,
    /// The ray reached a surface.
    Hit,
    /// The ray left the scene or spent its budget.
    Miss,
}

/// The state of one ray's march.
#[derive(Clone, Copy, Debug)]
pub struct Tracer {
    pub limits: TraceLimits,
    /// Index of the sample awaited while marching, and of the deciding sample
    /// after a hit or an escape; the budget after it is spent.
    pub step: i32,
    pub status: Status,
}

/// The outcome of a march.
#[derive(Clone, Copy, Debug)]
pub struct TraceResult {
    pub hit: bool,
    /// Distance travelled along the ray, as the host accumulated it.
    pub distance: Scalar,
    pub step: i32,
}

impl TraceLimits {
    /// The reading of one sample.  Leaving the scene is tested first; a
    /// sample exactly at the hit threshold is a hit; a NaN is neither.
    pub open spec fn probe(self, distance: Scalar) -> Probe {
        if self.max_distance.less_than(distance) {
            Probe::Escaped
        } else if distance.at_most(self.min_distance) {
            Probe::Reached
        } else {
            Probe::Clear
        }
    }

    /// Reads one sample.
    pub fn classify(&self, distance: Scalar) -> (p: Probe)
        ensures
            p == self.probe(distance),
    {
        if self.max_distance.lt(distance) {
            Probe::Escaped
        } else if distance.le(self.min_distance) {
            Probe::Reached
        } else {
            Probe::Clear
        }
    }
}

impl Tracer {
    /// The state before the first sample: marching, unless there is no budget.
    pub open spec fn start(limits: TraceLimits) -> Tracer {
        Tracer {
            limits,
            step: 0,
            status: if limits.max_steps > 0 {
                Status::Marching
            } else {
                Status::Miss
            },
        }
    }

    /// The state after a sample read as `probe`.  A march that has ended
    /// stays as it is.
    pub open spec fn after(self, probe: Probe) -> Tracer {
        if self.status != Status::Marching {
            self
        } else {
            match probe {
                Probe::Escaped => Tracer { status: Status::Miss, ..self },
                Probe::Reached => Tracer { status: Status::Hit, ..self },
                Probe::Clear => Tracer {
                    step: (self.step + 1) as i32,
                    status: if self.step + 1 < self.limits.max_steps {
                        Status::Marching
                    } else {
                        Status::Miss
                    },
                    ..self
                },
            }
        }
    }

    /// The step counts samples and stays within the budget; a marching ray
    /// and a hit are strictly within it.
    pub open spec fn wf(self) -> bool {
        &&& 0 <= self.step
        &&& self.status != Status::Miss ==> self.step < self.limits.max_steps
        &&& self.status == Status::Miss && self.limits.max_steps >= 0 ==> self.step
            <= self.limits.max_steps
    }

    /// Begins the march of a ray.
    pub fn new(limits: TraceLimits) -> (t: Tracer)
        ensures
            t == Tracer::start(limits),
            t.wf(),
    {
        let status = if limits.max_steps > 0 {
            Status::Marching
        } else {
            Status::Miss
        };
        Tracer { limits, step: 0, status }
    }

    /// Whether the state is well formed, as every state that `new` and
    /// `observe` give is.
    pub fn is_well_formed(&self) -> (r: bool)
        ensures
            r == self.wf(),
    {
        let in_budget = match self.status {
            Status::Miss => self.limits.max_steps < 0 || self.step <= self.limits.max_steps,
            _ => self.step < self.limits.max_steps,
        };
        0 <= self.step && in_budget
    }

    /// Whether another sample is awaited.
    pub fn is_marching(&self) -> (r: bool)
        ensures
            r == (self.status == Status::Marching),
    {
        self.status == Status::Marching
    }

    /// Takes the distance sampled at the current point of the ray and
    /// decides how the march goes on.  The host advances the ray by
    /// `distance` unless the reading is `Escaped`.
    pub fn observe(&mut self, distance: Scalar) -> (p: Probe)
        requires
            old(self).wf(),
        ensures
            p == old(self).limits.probe(distance),
            *final(self) == old(self).after(p),
            final(self).wf(),
    {
        let p = self.limits.classify(distance);
        if self.status == Status::Marching {
            match p {
                Probe::Escaped => {
                    self.status = Status::Miss;
                },
                Probe::Reached => {
                    self.status = Status::Hit;
                },
                Probe::Clear => {
                    self.step = self.step + 1;
                    if self.step >= self.limits.max_steps {
                        self.status = Status::Miss;
                    }
                },
            }
        }
        p
    }

    /// The outcome of a march that has ended, with the distance the host
    /// accumulated along the ray.
    pub fn finish(&self, distance: Scalar) -> (r: TraceResult)
        requires
            self.status != Status::Marching,
        ensures
            r.hit == (self.status == Status::Hit),
            r.distance == distance,
            r.step == self.step,
    {
        TraceResult { hit: self.status == Status::Hit, distance, step: self.step }
    }
}


/// The state of a march after the samples `distances`, taken in order.
pub open spec fn run(limits: TraceLimits, distances: Seq<Scalar>) -> Tracer
    decreases distances.len(),
{
    if distances.len() == 0 {
        Tracer::start(limits)
    } else {
        run(limits, distances.drop_last()).after(limits.probe(distances.last()))
    }
}

/// None of the first `n` samples ends the march.
pub open spec fn clear_before(limits: TraceLimits, distances: Seq<Scalar>, n: int) -> bool {
    forall|t: int| 0 <= t < n ==> limits.probe(#[trigger] distances[t]) == Probe::Clear
}

/// Every state of a march is well formed and keeps its limits.
pub proof fn lemma_run_wf(limits: TraceLimits, distances: Seq<Scalar>)
    ensures
        run(limits, distances).wf(),
        run(limits, distances).limits == limits,
    decreases distances.len(),
{
    if distances.len() > 0 {
        lemma_run_wf(limits, distances.drop_last());
    }
}

/// The step budget is a hard bound: a ray still marching has taken fewer
/// samples than the budget, so after `max_steps` samples every march has
/// ended.  The step of a marching ray is the number of samples it has taken.
pub proof fn lemma_march_is_bounded(limits: TraceLimits, distances: Seq<Scalar>)
    ensures
        run(limits, distances).status == Status::Marching ==> run(limits, distances).step
            == distances.len() && distances.len() < limits.max_steps,
        distances.len() >= limits.max_steps ==> run(limits, distances).status != Status::Marching,
    decreases distances.len(),
{
    if distances.len() > 0 {
        lemma_march_is_bounded(limits, distances.drop_last());
        lemma_run_wf(limits, distances.drop_last());
    }
}

/// A march that has ended is not changed by further samples.
pub proof fn lemma_ended_march_stays(limits: TraceLimits, distances: Seq<Scalar>, n: int)
    requires
        0 <= n <= distances.len(),
        run(limits, distances.subrange(0, n)).status != Status::Marching,
    ensures
        run(limits, distances) == run(limits, distances.subrange(0, n)),
    decreases distances.len(),
{
    if n == distances.len() {
        assert(distances.subrange(0, n) =~= distances);
    } else {
        assert(distances.drop_last().subrange(0, n) =~= distances.subrange(0, n));
        lemma_ended_march_stays(limits, distances.drop_last(), n);
    }
}

/// While every sample is clear the ray marches on, one step a sample, until
/// the budget is spent.
pub proof fn lemma_clear_samples_march(limits: TraceLimits, distances: Seq<Scalar>, n: int)
    requires
        0 <= n <= distances.len(),
        n <= limits.max_steps,
        clear_before(limits, distances, n),
    ensures
        run(limits, distances.subrange(0, n)) == (Tracer {
            limits,
            step: n as i32,
            status: if n < limits.max_steps {
                Status::Marching
            } else {
                Status::Miss
            },
        }),
    decreases n,
{
    let head = distances.subrange(0, n);
    if n > 0 {
        assert(head.drop_last() =~= distances.subrange(0, n - 1));
        assert(head.last() == distances[n - 1]);
        lemma_clear_samples_march(limits, distances, n - 1);
    }
}

/// The first sample within the hit threshold, if the budget reaches it and
/// no earlier sample escaped, makes the march a hit at that step.
pub proof fn lemma_first_reach_hits(limits: TraceLimits, distances: Seq<Scalar>, s: int)
    requires
        0 <= s < distances.len(),
        s < limits.max_steps,
        clear_before(limits, distances, s),
        limits.probe(distances[s]) == Probe::Reached,
    ensures
        run(limits, distances).status == Status::Hit,
        run(limits, distances).step == s,
{
    let head = distances.subrange(0, s + 1);
    lemma_clear_samples_march(limits, distances, s);
    assert(head.drop_last() =~= distances.subrange(0, s));
    assert(head.last() == distances[s]);
    lemma_ended_march_stays(limits, distances, s + 1);
}

/// The first sample beyond the scene bound, if the budget reaches it and no
/// earlier sample was a hit, makes the march a miss at that step.
pub proof fn lemma_first_escape_misses(limits: TraceLimits, distances: Seq<Scalar>, s: int)
    requires
        0 <= s < distances.len(),
        s < limits.max_steps,
        clear_before(limits, distances, s),
        limits.probe(distances[s]) == Probe::Escaped,
    ensures
        run(limits, distances).status == Status::Miss,
        run(limits, distances).step == s,
{
    let head = distances.subrange(0, s + 1);
    lemma_clear_samples_march(limits, distances, s);
    assert(head.drop_last() =~= distances.subrange(0, s));
    assert(head.last() == distances[s]);
    lemma_ended_march_stays(limits, distances, s + 1);
}

/// A march whose budget is spent on clear samples is a miss.
pub proof fn lemma_spent_budget_misses(limits: TraceLimits, distances: Seq<Scalar>)
    requires
        0 <= limits.max_steps <= distances.len(),
        clear_before(limits, distances, limits.max_steps as int),
    ensures
        run(limits, distances).status == Status::Miss,
        run(limits, distances).step == limits.max_steps,
{
    lemma_clear_samples_march(limits, distances, limits.max_steps as int);
    lemma_ended_march_stays(limits, distances, limits.max_steps as int);
}

/// A ray none of whose samples comes within the hit threshold never hits,
/// and once it has taken `max_steps` samples it is a miss.
pub proof fn lemma_no_reach_no_hit(limits: TraceLimits, distances: Seq<Scalar>)
    requires
        forall|t: int|
            0 <= t < distances.len() ==> limits.probe(#[trigger] distances[t]) != Probe::Reached,
    ensures
        run(limits, distances).status != Status::Hit,
        distances.len() >= limits.max_steps ==> run(limits, distances).status == Status::Miss,
    decreases distances.len(),
{
    if distances.len() > 0 {
        let front = distances.drop_last();
        assert forall|t: int| 0 <= t < front.len() implies limits.probe(#[trigger] front[t])
            != Probe::Reached by {
            assert(front[t] == distances[t]);
        }
        lemma_no_reach_no_hit(limits, front);
    }
    lemma_march_is_bounded(limits, distances);
}

} // verus!
