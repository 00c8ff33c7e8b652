//! What a run produced: one outcome per cost, the lines that present them,
//! and the exit code that sums them up.

use vstd::prelude::*;
use vstd::string::*;
use crate::error::{message_text, BenchError};
use crate::text::{decimal, push_decimal};

verus! {

/// What became of the benchmark of one cost parameter: its mean latency in
/// milliseconds, or the error that ended it.
#[derive(Clone, Copy, Debug, PartialEq, Eq)]
pub struct Outcome {
    pub cost: u32,
    pub result: Result<u64, BenchError>,
}

/// The outcomes of a run, in the order of its cost parameters, and the number
/// of times the run invoked the primitive.
#[derive(Debug, PartialEq, Eq)]
pub struct Report {
    pub outcomes: Vec<Outcome>,
    pub invocations: u128,
}

/// The exit code of a run in which every benchmark produced a mean.
pub const EXIT_SUCCESS: u8 = 0;

/// The exit code of a run in which a benchmark failed, or which could not
/// start.
pub const EXIT_FAILURE: u8 = 1;

/// The number of outcomes that carry a mean.
pub open spec fn succeeded(outcomes: Seq<Outcome>) -> nat
    decreases outcomes.len(),
{
    if outcomes.len() == 0 {
        0
    } else {
        succeeded(outcomes.drop_last()) + if outcomes.last().result is Ok {
            1nat
        } else {
            0nat
        }
    }
}

/// The positions, in ascending order, of the outcomes that carry a mean
/// (`ok`) or of those that carry an error (`!ok`).
pub open spec fn positions(outcomes: Seq<Outcome>, ok: bool) -> Seq<int>
    decreases outcomes.len(),
{
    if outcomes.len() == 0 {
        Seq::empty()
    } else if (outcomes.last().result is Ok) == ok {
        positions(outcomes.drop_last(), ok).push(outcomes.len() - 1)
    } else {
        positions(outcomes.drop_last(), ok)
    }
}

/// The line that reports a mean: the cost, a comma and a space, the mean,
/// and the unit.
pub open spec fn line_text(cost: u32, mean_ms: u64) -> Seq<char> {
    decimal(cost as nat) + seq![',', ' '] + decimal(mean_ms as nat) + seq![' ', 'm', 's']
}

/// The line that reports a failure: the cost, a colon and a space, and the
/// description of the error.
pub open spec fn failure_text(cost: u32, error: BenchError) -> Seq<char> {
    decimal(cost as nat) + seq![':', ' '] + message_text(error)
}

/// The line that presents one outcome.
pub open spec fn outcome_text(outcome: Outcome) -> Seq<char> {
    match outcome.result {
        Ok(mean_ms) => line_text(outcome.cost, mean_ms),
        Err(error) => failure_text(outcome.cost, error),
    }
}

/// The lines of the outcomes that carry a mean (`ok`) or of those that carry
/// an error (`!ok`), in the order of the outcomes.
pub open spec fn texts(outcomes: Seq<Outcome>, ok: bool) -> Seq<Seq<char>>
    decreases outcomes.len(),
{
    if outcomes.len() == 0 {
        Seq::empty()
    } else if (outcomes.last().result is Ok) == ok {
        texts(outcomes.drop_last(), ok).push(outcome_text(outcomes.last()))
    } else {
        texts(outcomes.drop_last(), ok)
    }
}

/// The exit code of a run: zero if every outcome carries a mean, one
/// otherwise.
pub open spec fn exit_status(outcomes: Seq<Outcome>) -> u8 {
    if succeeded(outcomes) == outcomes.len() {
        EXIT_SUCCESS
    } else {
        EXIT_FAILURE
    }
}

/// The positions of a selection lie inside the sequence and ascend strictly,
/// and they are exactly the positions of the selected outcomes.
pub proof fn lemma_positions_ascend(outcomes: Seq<Outcome>, ok: bool)
    ensures
        forall|j: int|
            0 <= j < positions(outcomes, ok).len() ==> 0 <= #[trigger] positions(outcomes, ok)[j]
                < outcomes.len(),
        forall|j: int, k: int|
            0 <= j < k < positions(outcomes, ok).len() ==> #[trigger] positions(outcomes, ok)[j]
                < #[trigger] positions(outcomes, ok)[k],
        forall|i: int|
            0 <= i < outcomes.len() ==> (((#[trigger] outcomes[i]).result is Ok) == ok <==> positions(
                outcomes,
                ok,
            ).contains(i)),
    decreases outcomes.len(),
{
    if outcomes.len() > 0 {
        let front = outcomes.drop_last();
        let last = outcomes.len() - 1;
        lemma_positions_ascend(front, ok);
        let p = positions(outcomes, ok);
        let q = positions(front, ok);
        assert forall|i: int| 0 <= i < outcomes.len() implies (((#[trigger] outcomes[i]).result is Ok)
            == ok <==> p.contains(i)) by {
            if i < last {
                assert(front[i] == outcomes[i]);
                if q.contains(i) {
                    let j = choose|j: int| 0 <= j < q.len() && q[j] == i;
                    assert(p[j] == i);
                }
            } else if (outcomes.last().result is Ok) == ok {
                assert(p[p.len() - 1] == last);
            }
        }
    }
}

/// Output keeps the order of the input: the lines of a selection are the
/// lines of the outcomes at its positions, one for one.
pub proof fn lemma_texts_follow_positions(outcomes: Seq<Outcome>, ok: bool)
    ensures
        texts(outcomes, ok).len() == positions(outcomes, ok).len(),
        forall|j: int|
            0 <= j < texts(outcomes, ok).len() ==> #[trigger] texts(outcomes, ok)[j] == outcome_text(
                outcomes[positions(outcomes, ok)[j]],
            ),
    decreases outcomes.len(),
{
    if outcomes.len() > 0 {
        let front = outcomes.drop_last();
        lemma_texts_follow_positions(front, ok);
        lemma_positions_ascend(front, ok);
        assert forall|j: int| 0 <= j < texts(outcomes, ok).len() implies #[trigger] texts(outcomes, ok)[j]
            == outcome_text(outcomes[positions(outcomes, ok)[j]]) by {
        }
    }
}

/// The number of lines on the output stream is the number of outcomes that
/// carry a mean, and the two streams together hold one line per outcome.
pub proof fn lemma_line_counts(outcomes: Seq<Outcome>)
    ensures
        texts(outcomes, true).len() == succeeded(outcomes),
        texts(outcomes, true).len() + texts(outcomes, false).len() == outcomes.len(),
    decreases outcomes.len(),
{
    if outcomes.len() > 0 {
        lemma_line_counts(outcomes.drop_last());
    }
}

/// Formats the line for a mean: `"<cost>, <mean_ms> ms"`.
pub fn format_line(cost: u32, mean_ms: u64) -> (line: String)
    ensures
        line@ == line_text(cost, mean_ms),
{
    let mut line = String::new();
    push_decimal(&mut line, cost as u64);
    proof {
        reveal_strlit(", ");
        reveal_strlit(" ms");
    }
    line.append(", ");
    push_decimal(&mut line, mean_ms);
    line.append(" ms");
    line
}

/// Formats the line for a failure: `"<cost>: <description>"`.
pub fn format_failure(cost: u32, error: BenchError) -> (line: String)
    ensures
        line@ == failure_text(cost, error),
{
    let mut line = String::new();
    push_decimal(&mut line, cost as u64);
    proof {
        reveal_strlit(": ");
    }
    line.append(": ");
    line.append(error.message());
    line
}

impl Outcome {
    /// The line that presents this outcome.
    pub fn line(&self) -> (line: String)
        ensures
            line@ == outcome_text(*self),
    {
        match self.result {
            Ok(mean_ms) => format_line(self.cost, mean_ms),
            Err(error) => format_failure(self.cost, error),
        }
    }
}

/// The lines of the selected outcomes, in order.
fn lines_where(outcomes: &Vec<Outcome>, ok: bool) -> (lines: Vec<String>)
    ensures
        lines@.len() == texts(outcomes@, ok).len(),
        forall|j: int| 0 <= j < lines@.len() ==> (#[trigger] lines@[j])@ == texts(outcomes@, ok)[j],
{
    let mut lines: Vec<String> = Vec::new();
    let mut i: usize = 0;
    while i < outcomes.len()
        invariant
            i <= outcomes@.len(),
            lines@.len() == texts(outcomes@.take(i as int), ok).len(),
            forall|j: int|
                0 <= j < lines@.len() ==> (#[trigger] lines@[j])@ == texts(outcomes@.take(i as int), ok)[j],
        decreases outcomes@.len() - i,
    {
        proof {
            assert(outcomes@.take(i + 1).drop_last() =~= outcomes@.take(i as int));
        }
        if outcomes[i].result.is_ok() == ok {
            lines.push(outcomes[i].line());
        }
        i = i + 1;
    }
    proof {
        assert(outcomes@.take(i as int) =~= outcomes@);
    }
    lines
}

impl Report {
    /// What a report of a run over `costs` with `samples` measurements per
    /// cost looks like, whatever the measurements were: one outcome per cost
    /// and in the same order, no outcome that blames the configuration, and a
    /// number of invocations that accounts for every outcome. A benchmark that
    /// produced a mean took `samples` invocations, one that failed took at
    /// least one and at most `samples`.
    pub open spec fn follows(&self, costs: Seq<u32>, samples: u32) -> bool {
        &&& self.outcomes@.len() == costs.len()
        &&& forall|i: int| 0 <= i < costs.len() ==> (#[trigger] self.outcomes@[i]).cost == costs[i]
        &&& forall|i: int|
            0 <= i < costs.len() ==> (#[trigger] self.outcomes@[i]).result != Err::<u64, BenchError>(
                BenchError::InvalidConfiguration,
            )
        &&& self.invocations <= costs.len() * samples
        &&& self.invocations >= succeeded(self.outcomes@) * samples + (costs.len() - succeeded(
            self.outcomes@,
        ))
    }

    /// The lines for the output stream: one for every cost whose benchmark
    /// produced a mean, in the order of the costs.
    pub fn output_lines(&self) -> (lines: Vec<String>)
        ensures
            lines@.len() == texts(self.outcomes@, true).len(),
            forall|j: int|
                0 <= j < lines@.len() ==> (#[trigger] lines@[j])@ == texts(self.outcomes@, true)[j],
    {
        lines_where(&self.outcomes, true)
    }

    /// The lines for the error stream: one for every cost whose benchmark
    /// failed, in the order of the costs.
    pub fn error_lines(&self) -> (lines: Vec<String>)
        ensures
            lines@.len() == texts(self.outcomes@, false).len(),
            forall|j: int|
                0 <= j < lines@.len() ==> (#[trigger] lines@[j])@ == texts(self.outcomes@, false)[j],
    {
        lines_where(&self.outcomes, false)
    }

    /// The exit code of the run: zero if every benchmark produced a mean, one
    /// if any failed.
    pub fn exit_code(&self) -> (code: u8)
        ensures
            code == exit_status(self.outcomes@),
    {
        let mut i: usize = 0;
        while i < self.outcomes.len()
            invariant
                i <= self.outcomes@.len(),
                succeeded(self.outcomes@.take(i as int)) == i,
            decreases self.outcomes@.len() - i,
        {
            proof {
                assert(self.outcomes@.take(i + 1).drop_last() =~= self.outcomes@.take(i as int));
            }
            if self.outcomes[i].result.is_err() {
                proof {
                    lemma_succeeded_grows(self.outcomes@, i + 1);
                }
                return EXIT_FAILURE;
            }
            i = i + 1;
        }
        proof {
            assert(self.outcomes@.take(i as int) =~= self.outcomes@);
        }
        EXIT_SUCCESS
    }
}

/// A run in which nothing failed invoked the primitive once per sample and
/// cost: as often as there are costs, times the number of samples.
pub proof fn lemma_clean_run_invocations(report: Report, costs: Seq<u32>, samples: u32)
    requires
        report.follows(costs, samples),
        exit_status(report.outcomes@) == EXIT_SUCCESS,
    ensures
        report.invocations == costs.len() * samples,
{
}

/// A run over no costs invokes nothing, prints nothing on either stream, and
/// exits with zero.
pub proof fn lemma_empty_run(report: Report, samples: u32)
    requires
        report.follows(Seq::<u32>::empty(), samples),
    ensures
        report.outcomes@.len() == 0,
        report.invocations == 0,
        texts(report.outcomes@, true).len() == 0,
        texts(report.outcomes@, false).len() == 0,
        exit_status(report.outcomes@) == EXIT_SUCCESS,
{
    assert(Seq::<u32>::empty().len() * samples == 0) by (nonlinear_arith)
        requires
            Seq::<u32>::empty().len() == 0,
    ;
}

/// A failure is never silent: an outcome that carries an error has its line
/// on the error stream and none on the output stream, and makes the exit
/// code non-zero.
pub proof fn lemma_failure_is_reported(outcomes: Seq<Outcome>, i: int)
    requires
        0 <= i < outcomes.len(),
        outcomes[i].result is Err,
    ensures
        exit_status(outcomes) == EXIT_FAILURE,
        positions(outcomes, false).contains(i),
        !positions(outcomes, true).contains(i),
{
    lemma_positions_ascend(outcomes, false);
    lemma_positions_ascend(outcomes, true);
    lemma_succeeded_grows(outcomes, i + 1);
    lemma_succeeded_grows(outcomes.take(i + 1), i);
    assert(outcomes.take(i + 1).take(i) =~= outcomes.take(i + 1).drop_last());
}

/// A prefix holds no more successes than it has outcomes, and the rest of the
/// sequence adds at most one success per outcome.
pub proof fn lemma_succeeded_grows(outcomes: Seq<Outcome>, n: int)
    requires
        0 <= n <= outcomes.len(),
    ensures
        succeeded(outcomes.take(n)) <= n,
        succeeded(outcomes) <= succeeded(outcomes.take(n)) + (outcomes.len() - n),
    decreases outcomes.len(),
{
    if outcomes.len() == 0 {
        assert(outcomes.take(n) =~= outcomes);
    } else if n == outcomes.len() {
        assert(outcomes.take(n) =~= outcomes);
        lemma_succeeded_grows(outcomes.drop_last(), n - 1);
    } else {
        lemma_succeeded_grows(outcomes.drop_last(), n);
        assert(outcomes.drop_last().take(n) =~= outcomes.take(n));
    }
}

} // verus!
