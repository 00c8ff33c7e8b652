//! The harness: a hashing primitive, the timer around one invocation of it,
//! the averager over a fixed number of timed invocations, and the run over an
//! ordered list of costs.

use vstd::prelude::*;
use crate::clock::{instant_now, measurement_from, millis_since};
use crate::error::BenchError;
use crate::report::{succeeded, Outcome};
use crate::stats::{mean, mean_ms};

verus! {

/// Every outcome that `primitive` can have at `cost` is an error.
pub open spec fn always_fails<T, E, F: Fn(u32) -> Result<T, E>>(primitive: F, cost: u32) -> bool {
    forall|outcome: Result<T, E>| call_ensures(primitive, (cost,), outcome) ==> outcome is Err
}

/// No outcome that `primitive` can have at `cost` is an error.
pub open spec fn never_fails<T, E, F: Fn(u32) -> Result<T, E>>(primitive: F, cost: u32) -> bool {
    forall|outcome: Result<T, E>| call_ensures(primitive, (cost,), outcome) ==> outcome is Ok
}

/// One timed invocation: the cost it was made at, and the measurement or the
/// failure that came of it.
pub struct Trial {
    pub cost: u32,
    pub result: Result<u64, BenchError>,
}

/// The measurements of trials that all succeeded, in order.
pub open spec fn values(trials: Seq<Trial>) -> Seq<u64> {
    trials.map_values(|trial: Trial| trial.result->Ok_0)
}

/// Whether `trials` are those of one benchmark at `cost` over `samples`
/// samples that ended in `r`.
///
/// Every trial is at `cost`, and every trial but the last one is a
/// measurement. A mean comes of exactly `samples` trials, all of them
/// measurements, and is their sum divided by `samples`. An error comes of no
/// trial at all if no samples were asked for, and otherwise it is the failure
/// of the last of at most `samples` trials: the first failure ends the
/// benchmark.
pub open spec fn benchmark_of(trials: Seq<Trial>, cost: u32, samples: u32, r: Result<u64, BenchError>) -> bool {
    &&& forall|i: int| 0 <= i < trials.len() ==> (#[trigger] trials[i]).cost == cost
    &&& forall|i: int| 0 <= i < trials.len() - 1 ==> (#[trigger] trials[i]).result is Ok
    &&& match r {
        Ok(mean_ms) => {
            &&& samples > 0
            &&& trials.len() == samples
            &&& trials.last().result is Ok
            &&& mean_ms == mean(values(trials))
        },
        Err(error) => if samples == 0 {
            trials.len() == 0 && error == BenchError::InvalidConfiguration
        } else {
            1 <= trials.len() <= samples && trials.last().result == Err::<u64, BenchError>(error)
        },
    }
}

/// Whether `trials` are the trials behind `outcomes`, in order.
///
/// Read from the back: the last outcome is that of one benchmark at its own
/// cost, made of the trials from some point on, and the trials before that
/// point explain the outcomes before it. No outcomes are explained by no
/// trials.
pub open spec fn explains(outcomes: Seq<Outcome>, trials: Seq<Trial>, samples: u32) -> bool
    decreases outcomes.len(),
{
    if outcomes.len() == 0 {
        trials.len() == 0
    } else {
        exists|kept: int|
            0 <= kept <= trials.len() && #[trigger] benchmark_of(
                trials.skip(kept),
                outcomes.last().cost,
                samples,
                outcomes.last().result,
            ) && explains(outcomes.drop_last(), trials.take(kept), samples)
    }
}

/// A hashing primitive, the number of times it has been invoked, and the
/// trials made of it.
///
/// The primitive is any callable from a cost to a result; what it computes
/// is never looked at, only whether it failed. It is reached through
/// [`Harness::hash_once`] alone, so the count is the number of invocations
/// made. The trials are kept for reasoning only and take no space.
pub struct Harness<F> {
    primitive: F,
    invocations: u128,
    trials: Ghost<Seq<Trial>>,
}

impl<T, E, F: Fn(u32) -> Result<T, E>> Harness<F> {
    /// The callable behind the harness.
    pub closed spec fn primitive(&self) -> F {
        self.primitive
    }

    /// How many times the callable has been invoked.
    pub closed spec fn count(&self) -> nat {
        self.invocations as nat
    }

    /// Every timed invocation made so far, oldest first.
    pub closed spec fn trials(&self) -> Seq<Trial> {
        self.trials@
    }

    /// A harness around `primitive` that has invoked and measured nothing.
    pub fn new(primitive: F) -> (harness: Self)
        ensures
            harness.primitive() == primitive,
            harness.count() == 0,
            harness.trials() == Seq::<Trial>::empty(),
    {
        Harness { primitive, invocations: 0, trials: Ghost(Seq::empty()) }
    }

    /// The number of invocations made so far.
    pub fn invocations(&self) -> (n: u128)
        ensures
            n == self.count(),
    {
        self.invocations
    }

    /// Invokes the primitive exactly once at `cost` and hands back whatever
    /// it returned.
    pub fn hash_once(&mut self, cost: u32) -> (outcome: Result<T, E>)
        requires
            old(self).count() < u128::MAX,
            call_requires(old(self).primitive(), (cost,)),
        ensures
            final(self).primitive() == old(self).primitive(),
            final(self).count() == old(self).count() + 1,
            final(self).trials() == old(self).trials(),
            call_ensures(old(self).primitive(), (cost,), outcome),
    {
        self.invocations = self.invocations + 1;
        (self.primitive)(cost)
    }

    /// Times one invocation of the primitive at `cost`.
    ///
    /// The clock is read, the primitive is invoked exactly once, and the
    /// clock is read again. The measurement is the whole milliseconds
    /// between the two readings. The value the primitive computed is
    /// dropped. If the primitive fails, the failure is reported in place of a
    /// measurement. Either way the trial joins the trials of the harness.
    pub fn measure(&mut self, cost: u32) -> (r: Result<u64, BenchError>)
        requires
            old(self).count() < u128::MAX,
            call_requires(old(self).primitive(), (cost,)),
        ensures
            final(self).primitive() == old(self).primitive(),
            final(self).count() == old(self).count() + 1,
            final(self).trials() == old(self).trials().push(Trial { cost, result: r }),
            r matches Ok(ms) ==> 0 <= ms,
            always_fails(old(self).primitive(), cost) ==> r == Err::<u64, BenchError>(
                BenchError::PrimitiveFailure,
            ),
            never_fails(old(self).primitive(), cost) ==> r != Err::<u64, BenchError>(
                BenchError::PrimitiveFailure,
            ),
            r != Err::<u64, BenchError>(BenchError::InvalidConfiguration),
    {
        let start = instant_now();
        let outcome = self.hash_once(cost);
        let elapsed = millis_since(&start);
        let measurement = measurement_from(outcome.is_ok(), elapsed);
        self.trials = Ghost(self.trials@.push(Trial { cost, result: measurement }));
        measurement
    }

    /// Benchmarks one cost: takes `samples` measurements and returns their
    /// integer mean.
    ///
    /// Zero samples are rejected before the primitive is touched. The first
    /// measurement that fails ends the benchmark with that failure; nothing
    /// is retried.
    pub fn average_latency(&mut self, cost: u32, samples: u32) -> (r: Result<u64, BenchError>)
        requires
            old(self).count() + samples <= u128::MAX,
            call_requires(old(self).primitive(), (cost,)),
        ensures
            final(self).primitive() == old(self).primitive(),
            samples == 0 <==> r == Err::<u64, BenchError>(BenchError::InvalidConfiguration),
            old(self).trials().is_prefix_of(final(self).trials()),
            final(self).trials().len() - old(self).trials().len() == final(self).count() - old(
                self,
            ).count(),
            benchmark_of(final(self).trials().skip(old(self).trials().len() as int), cost, samples, r),
            samples == 0 ==> final(self).count() == old(self).count(),
            samples > 0 ==> old(self).count() + 1 <= final(self).count() <= old(self).count()
                + samples,
            r is Ok ==> final(self).count() == old(self).count() + samples,
            samples > 0 && always_fails(old(self).primitive(), cost) ==> r == Err::<u64, BenchError>(
                BenchError::PrimitiveFailure,
            ) && final(self).count() == old(self).count() + 1,
            never_fails(old(self).primitive(), cost) ==> r != Err::<u64, BenchError>(
                BenchError::PrimitiveFailure,
            ),
    {
        if samples == 0 {
            return Err(BenchError::InvalidConfiguration);
        }
        let mut measurements: Vec<u64> = Vec::new();
        let mut taken: u32 = 0;
        let ghost base = self.trials().len() as int;
        while taken < samples
            invariant
                taken <= samples,
                measurements@.len() == taken,
                self.primitive() == old(self).primitive(),
                self.count() == old(self).count() + taken,
                base == old(self).trials().len(),
                self.trials().len() == base + taken,
                old(self).trials().is_prefix_of(self.trials()),
                forall|i: int|
                    0 <= i < taken ==> #[trigger] self.trials().skip(base)[i] == (Trial {
                        cost,
                        result: Ok(measurements@[i]),
                    }),
                old(self).count() + samples <= u128::MAX,
                call_requires(self.primitive(), (cost,)),
                taken > 0 ==> !always_fails(self.primitive(), cost),
            decreases samples - taken,
        {
            let ghost before = self.trials();
            let measurement = self.measure(cost);
            proof {
                // The trials of this benchmark so far are those from before
                // the measurement, and the one just made.
                let now = self.trials().skip(base);
                assert(now =~= before.skip(base).push(Trial { cost, result: measurement }));
            }
            match measurement {
                Ok(ms) => {
                    measurements.push(ms);
                },
                Err(e) => {
                    return Err(e);
                },
            }
            taken = taken + 1;
        }
        assert(values(self.trials().skip(base)) =~= measurements@);
        mean_ms(&measurements)
    }

    /// Benchmarks every cost in `costs`, in order, with `samples`
    /// measurements each.
    ///
    /// Zero samples are rejected before the primitive is touched. Otherwise
    /// there is exactly one outcome per cost, in the order of `costs`. A cost
    /// whose benchmark fails gets the failure as its outcome, and the run
    /// goes on with the next cost.
    pub fn run(&mut self, costs: &[u32], samples: u32) -> (r: Result<Vec<Outcome>, BenchError>)
        requires
            old(self).count() + costs@.len() * samples <= u128::MAX,
            forall|i: int| 0 <= i < costs@.len() ==> call_requires(old(self).primitive(), (costs@[i],)),
        ensures
            final(self).primitive() == old(self).primitive(),
            samples == 0 <==> r is Err,
            r is Err ==> {
                &&& r == Err::<Vec<Outcome>, BenchError>(BenchError::InvalidConfiguration)
                &&& final(self).count() == old(self).count()
                &&& final(self).trials() == old(self).trials()
            },
            r matches Ok(outcomes) ==> {
                &&& outcomes@.len() == costs@.len()
                &&& forall|i: int| 0 <= i < costs@.len() ==> (#[trigger] outcomes@[i]).cost == costs@[i]
                &&& forall|i: int|
                    0 <= i < costs@.len() ==> (#[trigger] outcomes@[i]).result != Err::<u64, BenchError>(
                        BenchError::InvalidConfiguration,
                    )
                &&& forall|i: int|
                    0 <= i < costs@.len() && always_fails(old(self).primitive(), costs@[i])
                        ==> (#[trigger] outcomes@[i]).result == Err::<u64, BenchError>(
                        BenchError::PrimitiveFailure,
                    )
                &&& forall|i: int|
                    0 <= i < costs@.len() && never_fails(old(self).primitive(), costs@[i])
                        ==> (#[trigger] outcomes@[i]).result != Err::<u64, BenchError>(
                        BenchError::PrimitiveFailure,
                    )
                &&& final(self).count() <= old(self).count() + costs@.len() * samples
                &&& final(self).count() >= old(self).count() + succeeded(outcomes@) * samples + (
                costs@.len() - succeeded(outcomes@))
                &&& succeeded(outcomes@) == costs@.len() ==> final(self).count() == old(self).count()
                    + costs@.len() * samples
                &&& old(self).trials().is_prefix_of(final(self).trials())
                &&& final(self).trials().len() - old(self).trials().len() == final(self).count() - old(
                    self,
                ).count()
                &&& explains(outcomes@, final(self).trials().skip(old(self).trials().len() as int), samples)
            },
    {
        if samples == 0 {
            return Err(BenchError::InvalidConfiguration);
        }
        let mut outcomes: Vec<Outcome> = Vec::new();
        let mut i: usize = 0;
        let ghost base = self.trials().len() as int;
        while i < costs.len()
            invariant
                samples > 0,
                i <= costs@.len(),
                outcomes@.len() == i,
                base == old(self).trials().len(),
                self.primitive() == old(self).primitive(),
                old(self).count() + costs@.len() * samples <= u128::MAX,
                forall|k: int| 0 <= k < costs@.len() ==> call_requires(self.primitive(), (costs@[k],)),
                forall|k: int| 0 <= k < i ==> (#[trigger] outcomes@[k]).cost == costs@[k],
                forall|k: int|
                    0 <= k < i ==> (#[trigger] outcomes@[k]).result != Err::<u64, BenchError>(
                        BenchError::InvalidConfiguration,
                    ),
                forall|k: int|
                    0 <= k < i && always_fails(self.primitive(), costs@[k]) ==> (#[trigger] outcomes@[k]).result
                        == Err::<u64, BenchError>(BenchError::PrimitiveFailure),
                forall|k: int|
                    0 <= k < i && never_fails(self.primitive(), costs@[k]) ==> (#[trigger] outcomes@[k]).result
                        != Err::<u64, BenchError>(BenchError::PrimitiveFailure),
                succeeded(outcomes@) <= i,
                self.count() <= old(self).count() + i * samples,
                self.count() >= old(self).count() + succeeded(outcomes@) * samples + (i - succeeded(
                    outcomes@,
                )),
                old(self).trials().is_prefix_of(self.trials()),
                self.trials().len() - old(self).trials().len() == self.count() - old(self).count(),
                explains(outcomes@, self.trials().skip(base), samples),
            decreases costs@.len() - i,
        {
            let cost = costs[i];
            let ghost before = outcomes@;
            let ghost trials_before = self.trials();
            proof {
                assert((i + 1) * samples == i * samples + samples) by (nonlinear_arith);
                assert((i + 1) * samples <= costs@.len() * samples) by (nonlinear_arith)
                    requires
                        i + 1 <= costs@.len(),
                ;
            }
            let result = self.average_latency(cost, samples);
            outcomes.push(Outcome { cost, result });
            proof {
                // The trials of this run so far, and how many of them were
                // there before this cost was benchmarked.
                let added = self.trials().skip(base);
                let kept = trials_before.len() - base;
                assert(outcomes@.drop_last() =~= before);
                assert((succeeded(before) + 1) * samples == succeeded(before) * samples + samples)
                    by (nonlinear_arith);
                assert(added.take(kept) =~= trials_before.skip(base));
                assert(added.skip(kept) =~= self.trials().skip(trials_before.len() as int));
                assert(benchmark_of(added.skip(kept), outcomes@.last().cost, samples, outcomes@.last().result));
            }
            i = i + 1;
        }
        Ok(outcomes)
    }
}

/// In a run in which nothing failed, the trials fall into one block of
/// `samples` per cost, in the order of the costs. Every trial is a
/// measurement made at the cost of its block, and every outcome is the mean
/// of its block.
pub proof fn lemma_clean_run_means(outcomes: Seq<Outcome>, trials: Seq<Trial>, samples: u32)
    requires
        explains(outcomes, trials, samples),
        forall|i: int| 0 <= i < outcomes.len() ==> (#[trigger] outcomes[i]).result is Ok,
    ensures
        trials.len() == outcomes.len() * samples,
        forall|j: int| 0 <= j < trials.len() ==> (#[trigger] trials[j]).result is Ok,
        forall|i: int, j: int|
            0 <= i < outcomes.len() && i * samples <= j < (i + 1) * samples ==> (#[trigger] trials[j]).cost
                == (#[trigger] outcomes[i]).cost,
        forall|i: int|
            0 <= i < outcomes.len() ==> (#[trigger] outcomes[i]).result == Ok::<u64, BenchError>(
                mean(values(trials.subrange(i * samples, (i + 1) * samples))) as u64,
            ),
    decreases outcomes.len(),
{
    if outcomes.len() > 0 {
        let n = outcomes.len() - 1;
        let front = outcomes.drop_last();
        let kept = choose|kept: int|
            0 <= kept <= trials.len() && #[trigger] benchmark_of(
                trials.skip(kept),
                outcomes.last().cost,
                samples,
                outcomes.last().result,
            ) && explains(front, trials.take(kept), samples);
        let earlier = trials.take(kept);
        let block = trials.skip(kept);
        assert forall|i: int| 0 <= i < front.len() implies (#[trigger] front[i]).result is Ok by {
            assert(front[i] == outcomes[i]);
        }
        lemma_clean_run_means(front, earlier, samples);
        assert((n + 1) * samples == n * samples + samples) by (nonlinear_arith);
        assert forall|j: int| 0 <= j < trials.len() implies (#[trigger] trials[j]).result is Ok by {
            if j < kept {
                assert(earlier[j] == trials[j]);
            } else {
                assert(block[j - kept] == trials[j]);
            }
        }
        assert forall|i: int, j: int|
            0 <= i < outcomes.len() && i * samples <= j < (i + 1) * samples implies (#[trigger] trials[j]).cost
                == (#[trigger] outcomes[i]).cost by {
            if i < n {
                assert(front[i] == outcomes[i]);
                assert((i + 1) * samples <= n * samples) by (nonlinear_arith)
                    requires
                        i + 1 <= n,
                ;
                assert(earlier[j] == trials[j]);
            } else {
                assert(block[j - kept] == trials[j]);
            }
        }
        assert forall|i: int| 0 <= i < outcomes.len() implies (#[trigger] outcomes[i]).result == Ok::<
            u64,
            BenchError,
        >(mean(values(trials.subrange(i * samples, (i + 1) * samples))) as u64) by {
            if i < n {
                assert(front[i] == outcomes[i]);
                assert((i + 1) * samples <= n * samples) by (nonlinear_arith)
                    requires
                        i + 1 <= n,
                ;
                assert(0 <= i * samples <= (i + 1) * samples) by (nonlinear_arith)
                    requires
                        0 <= i,
                ;
                assert(earlier.subrange(i * samples, (i + 1) * samples) =~= trials.subrange(
                    i * samples,
                    (i + 1) * samples,
                ));
            }
        }
    }
}

/// An outcome that carries an error is the failure of a trial: some trial at
/// that outcome's cost failed with that very error.
pub proof fn lemma_failed_outcome_is_a_failed_trial(
    outcomes: Seq<Outcome>,
    trials: Seq<Trial>,
    samples: u32,
    i: int,
)
    requires
        samples >= 1,
        explains(outcomes, trials, samples),
        0 <= i < outcomes.len(),
        outcomes[i].result is Err,
    ensures
        exists|j: int|
            0 <= j < trials.len() && (#[trigger] trials[j]).cost == outcomes[i].cost && trials[j].result
                == outcomes[i].result,
    decreases outcomes.len(),
{
    let kept = choose|kept: int|
        0 <= kept <= trials.len() && #[trigger] benchmark_of(
            trials.skip(kept),
            outcomes.last().cost,
            samples,
            outcomes.last().result,
        ) && explains(outcomes.drop_last(), trials.take(kept), samples);
    if i == outcomes.len() - 1 {
        let j = trials.len() - 1;
        assert(trials.skip(kept).last() == trials[j]);
        assert(trials.skip(kept)[j - kept] == trials[j]);
    } else {
        let front = outcomes.drop_last();
        let earlier = trials.take(kept);
        assert(front[i] == outcomes[i]);
        lemma_failed_outcome_is_a_failed_trial(front, earlier, samples, i);
        let j = choose|j: int|
            0 <= j < earlier.len() && (#[trigger] earlier[j]).cost == front[i].cost && earlier[j].result
                == front[i].result;
        assert(trials[j] == earlier[j]);
    }
}

} // verus!
