//! The arithmetic of averaging: sums and integer means of measurements.

use vstd::prelude::*;
use crate::error::BenchError;

verus! {

/// The sum of a sequence of measurements, in milliseconds.
pub open spec fn total(ms: Seq<u64>) -> nat
    decreases ms.len(),
{
    if ms.len() == 0 {
        0
    } else {
        total(ms.drop_last()) + ms.last() as nat
    }
}

/// The integer mean of a sequence of measurements: the sum divided by the
/// count, rounded down; zero for the empty sequence.
pub open spec fn mean(ms: Seq<u64>) -> nat {
    if ms.len() == 0 {
        0
    } else {
        total(ms) / ms.len()
    }
}

/// A sum of `n` measurements is at most `n` times the largest value a
/// measurement can hold.
pub proof fn lemma_total_bounded(ms: Seq<u64>)
    ensures
        total(ms) <= ms.len() * (u64::MAX as nat),
    decreases ms.len(),
{
    if ms.len() > 0 {
        lemma_total_bounded(ms.drop_last());
    }
}

/// The mean rounds down: it is the largest number that, taken once per
/// measurement, does not exceed the sum.
pub proof fn lemma_mean_is_floor(ms: Seq<u64>)
    requires
        ms.len() > 0,
    ensures
        mean(ms) * ms.len() <= total(ms) < (mean(ms) + 1) * ms.len(),
{
    let t = total(ms);
    let n = ms.len();
    assert((t / n) * n <= t < (t / n + 1) * n) by (nonlinear_arith)
        requires
            n > 0,
    ;
}

/// Divides the sum of the measurements by their number, rounding down.
///
/// An empty slice has no mean and is rejected.
pub fn mean_ms(measurements: &Vec<u64>) -> (r: Result<u64, BenchError>)
    ensures
        measurements@.len() == 0 ==> r == Err::<u64, BenchError>(BenchError::InvalidConfiguration),
        measurements@.len() > 0 ==> r == Ok::<u64, BenchError>(mean(measurements@) as u64),
        measurements@.len() > 0 ==> mean(measurements@) <= u64::MAX,
{
    let n: usize = measurements.len();
    if n == 0 {
        return Err(BenchError::InvalidConfiguration);
    }
    let mut sum: u128 = 0;
    let mut i: usize = 0;
    while i < n
        invariant
            n == measurements@.len(),
            i <= n,
            sum == total(measurements@.take(i as int)),
        decreases n - i,
    {
        proof {
            let next = measurements@.take(i + 1);
            assert(next.drop_last() =~= measurements@.take(i as int));
            lemma_total_bounded(measurements@.take(i as int));
        }
        sum = sum + measurements[i] as u128;
        i = i + 1;
    }
    proof {
        assert(measurements@.take(n as int) =~= measurements@);
        lemma_total_bounded(measurements@);
        assert(total(measurements@) / (n as nat) <= u64::MAX) by (nonlinear_arith)
            requires total(measurements@) <= n * (u64::MAX as nat), n > 0;
    }
    Ok((sum / n as u128) as u64)
}

} // verus!
