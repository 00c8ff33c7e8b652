//! The ways a benchmark can fail.

use vstd::prelude::*;

verus! {

/// Why a benchmark could not produce a mean latency.
#[derive(Clone, Copy, Debug, PartialEq, Eq, Structural)]
pub enum BenchError {
    /// The request itself is unusable: no samples, a cost the chosen primitive
    /// does not support, or an option nobody understands.
    InvalidConfiguration,
    /// The hashing primitive reported an error.
    PrimitiveFailure,
    /// The clock gave no usable elapsed time.
    ClockFailure,
}

/// The words that describe an error to a person.
pub open spec fn message_text(error: BenchError) -> Seq<char> {
    match error {
        BenchError::InvalidConfiguration => "invalid configuration"@,
        BenchError::PrimitiveFailure => "the hashing primitive failed"@,
        BenchError::ClockFailure => "the clock gave no usable time"@,
    }
}

impl BenchError {
    /// A short description of the error, fit for an error stream.
    pub fn message(&self) -> (s: &'static str)
        ensures
            s@ == message_text(*self),
    {
        match self {
            BenchError::InvalidConfiguration => "invalid configuration",
            BenchError::PrimitiveFailure => "the hashing primitive failed",
            BenchError::ClockFailure => "the clock gave no usable time",
        }
    }
}

} // verus!
