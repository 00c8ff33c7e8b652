//! The configuration of a run and the test that it is usable.

use vstd::prelude::*;
use crate::error::BenchError;
use crate::primitive::{cost_supported, Algorithm};

verus! {

/// Everything a run needs to know: which costs to benchmark and in what
/// order, how many measurements to average per cost, which primitive to
/// invoke, and the password to hash.
#[derive(Debug, PartialEq, Eq)]
pub struct Config {
    pub costs: Vec<u32>,
    pub samples: u32,
    pub algorithm: Algorithm,
    pub password: Vec<u8>,
}

/// What a configuration holds, as plain mathematical values.
pub struct ConfigView {
    pub costs: Seq<u32>,
    pub samples: u32,
    pub algorithm: Algorithm,
    pub password: Seq<u8>,
}

impl ConfigView {
    /// A configuration is usable if it asks for at least one sample and the
    /// algorithm supports every cost. An empty list of costs is usable.
    pub open spec fn valid(&self) -> bool {
        &&& self.samples >= 1
        &&& forall|i: int| 0 <= i < self.costs.len() ==> cost_supported(self.algorithm, #[trigger] self.costs[i])
    }
}

impl View for Config {
    type V = ConfigView;

    open spec fn view(&self) -> ConfigView {
        ConfigView {
            costs: self.costs@,
            samples: self.samples,
            algorithm: self.algorithm,
            password: self.password@,
        }
    }
}

/// The cost parameters of the standard configuration.
pub open spec fn standard_costs() -> Seq<u32> {
    seq![8u32, 10u32, 12u32, 15u32]
}

/// The password of the standard configuration: the bytes of `hunter2`.
pub open spec fn standard_password() -> Seq<u8> {
    seq![0x68u8, 0x75u8, 0x6eu8, 0x74u8, 0x65u8, 0x72u8, 0x32u8]
}

/// The standard configuration: bcrypt at the costs 8, 10, 12 and 15, ten
/// samples per cost, hashing the password `hunter2`.
pub open spec fn standard_config() -> ConfigView {
    ConfigView {
        costs: standard_costs(),
        samples: 10,
        algorithm: Algorithm::Bcrypt,
        password: standard_password(),
    }
}

impl Config {
    /// Whether the configuration is usable.
    pub open spec fn valid(&self) -> bool {
        self@.valid()
    }

    /// Checks the configuration before anything is timed.
    pub fn validate(&self) -> (r: Result<(), BenchError>)
        ensures
            self.valid() <==> r is Ok,
            r is Err ==> r == Err::<(), BenchError>(BenchError::InvalidConfiguration),
    {
        if self.samples == 0 {
            return Err(BenchError::InvalidConfiguration);
        }
        let mut i: usize = 0;
        while i < self.costs.len()
            invariant
                i <= self.costs@.len(),
                forall|k: int| 0 <= k < i ==> cost_supported(self.algorithm, #[trigger] self.costs@[k]),
            decreases self.costs@.len() - i,
        {
            if !self.algorithm.supports(self.costs[i]) {
                assert(!cost_supported(self@.algorithm, self@.costs[i as int]));
                return Err(BenchError::InvalidConfiguration);
            }
            i = i + 1;
        }
        Ok(())
    }
}

impl Default for Config {
    /// The standard configuration, which is usable as it stands.
    fn default() -> (config: Config)
        ensures
            config@ == standard_config(),
            config.valid(),
    {
        let mut costs: Vec<u32> = Vec::new();
        costs.push(8);
        costs.push(10);
        costs.push(12);
        costs.push(15);
        let mut password: Vec<u8> = Vec::new();
        password.push(0x68);
        password.push(0x75);
        password.push(0x6e);
        password.push(0x74);
        password.push(0x65);
        password.push(0x72);
        password.push(0x32);
        assert(costs@ =~= standard_costs());
        assert(password@ =~= standard_password());
        Config { costs, samples: 10, algorithm: Algorithm::Bcrypt, password }
    }
}

} // verus!
