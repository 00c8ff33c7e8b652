//! The benchmarks of the two primitives, and the run that a configuration
//! describes.

use vstd::prelude::*;
use crate::args::{apply_args, arg_texts, parse_args};
use crate::config::{standard_config, Config};
use crate::error::BenchError;
use crate::harness::{always_fails, Harness};
use crate::primitive::{
    bcrypt_once, cost_supported, pbkdf2_once, pbkdf2_succeeds, Algorithm, PBKDF2_SALT_LENGTH,
};
use crate::report::Report;

verus! {

/// The mean latency, in milliseconds, of hashing `password` with bcrypt at
/// `cost`, over `samples` invocations.
///
/// Zero samples are rejected as configuration. A cost that bcrypt does not
/// support makes the first invocation fail, and that failure is the result.
pub fn benchmark_bcrypt(password: &[u8], cost: u32, samples: u32) -> (r: Result<u64, BenchError>)
    ensures
        samples == 0 <==> r == Err::<u64, BenchError>(BenchError::InvalidConfiguration),
        samples > 0 && !cost_supported(Algorithm::Bcrypt, cost) ==> r == Err::<u64, BenchError>(
            BenchError::PrimitiveFailure,
        ),
{
    let primitive = |c: u32| -> (o: Result<(), BenchError>)
        ensures
            !cost_supported(Algorithm::Bcrypt, c) ==> o is Err,
        { bcrypt_once(password, c) };
    let mut harness = Harness::new(primitive);
    harness.average_latency(cost, samples)
}

/// The mean latency, in milliseconds, of deriving a key from `password` with
/// PBKDF2 in `cost` iterations, over `samples` invocations. Every invocation
/// draws its own salt, and drawing it is part of what is timed.
///
/// Zero samples are rejected as configuration. Zero iterations make the first
/// invocation fail, and that failure is the result. A mean comes only of
/// derivations made in `cost` iterations.
pub fn benchmark_pbkdf2(password: &[u8], cost: u32, samples: u32) -> (r: Result<u64, BenchError>)
    ensures
        samples == 0 <==> r == Err::<u64, BenchError>(BenchError::InvalidConfiguration),
        samples > 0 && !cost_supported(Algorithm::Pbkdf2, cost) ==> r == Err::<u64, BenchError>(
            BenchError::PrimitiveFailure,
        ),
        r is Ok ==> exists|drawn: Seq<u8>|
            drawn.len() == PBKDF2_SALT_LENGTH && #[trigger] pbkdf2_succeeds(password@, cost, drawn),
{
    let primitive = |c: u32| -> (o: Result<(), BenchError>)
        ensures
            !cost_supported(Algorithm::Pbkdf2, c) ==> o is Err,
            o is Ok ==> exists|drawn: Seq<u8>|
                drawn.len() == PBKDF2_SALT_LENGTH && #[trigger] pbkdf2_succeeds(password@, c, drawn),
        { pbkdf2_once(password, c) };
    let mut harness = Harness::new(primitive);
    let r = harness.average_latency(cost, samples);
    proof {
        if r is Ok {
            // A mean was returned, so some invocation at this cost succeeded.
            assert(!always_fails(primitive, cost));
        }
    }
    r
}

/// Runs the benchmark that `config` describes.
///
/// The configuration is checked first, and an unusable one is rejected before
/// anything is timed. Otherwise every cost is benchmarked in order with the
/// configured primitive, and the report holds what became of each.
pub fn run_benchmark(config: &Config) -> (r: Result<Report, BenchError>)
    ensures
        config.valid() <==> r is Ok,
        r is Err ==> r == Err::<Report, BenchError>(BenchError::InvalidConfiguration),
        r matches Ok(report) ==> report.follows(config.costs@, config.samples),
{
    if config.validate().is_err() {
        return Err(BenchError::InvalidConfiguration);
    }
    let password = config.password.as_slice();
    let costs = config.costs.as_slice();
    let n: usize = costs.len();
    proof {
        assert(n * config.samples <= u128::MAX) by (nonlinear_arith)
            requires
                n <= usize::MAX,
                config.samples <= u32::MAX,
        ;
    }
    let (outcomes, invocations) = match config.algorithm {
        Algorithm::Bcrypt => {
            let primitive = |c: u32| -> (o: Result<(), BenchError>) { bcrypt_once(password, c) };
            let mut harness = Harness::new(primitive);
            let outcomes = harness.run(costs, config.samples);
            (outcomes, harness.invocations())
        },
        Algorithm::Pbkdf2 => {
            let primitive = |c: u32| -> (o: Result<(), BenchError>) { pbkdf2_once(password, c) };
            let mut harness = Harness::new(primitive);
            let outcomes = harness.run(costs, config.samples);
            (outcomes, harness.invocations())
        },
    };
    match outcomes {
        Ok(outcomes) => Ok(Report { outcomes, invocations }),
        Err(e) => Err(e),
    }
}

/// Runs the benchmark that a list of command-line arguments describes.
///
/// The arguments are read as options on top of the standard configuration.
/// If they cannot be read, or if the configuration they describe is
/// unusable, nothing is timed.
pub fn run_from_args(args: &Vec<Vec<u8>>) -> (r: Result<Report, BenchError>)
    ensures
        r is Ok <==> (apply_args(standard_config(), arg_texts(args@)) matches Some(described)
            && described.valid()),
        r is Err ==> r == Err::<Report, BenchError>(BenchError::InvalidConfiguration),
        r matches Ok(report) ==> (apply_args(standard_config(), arg_texts(args@)) matches Some(described)
            && report.follows(described.costs, described.samples)),
{
    match parse_args(args) {
        Ok(config) => run_benchmark(&config),
        Err(e) => Err(e),
    }
}

} // verus!
