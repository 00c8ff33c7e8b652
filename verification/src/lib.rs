//! A harness that measures how long password-hashing primitives take at
//! different work factors.
//!
//! A run walks an ordered list of cost parameters. For each cost it invokes
//! the chosen primitive a fixed number of times, times every invocation in
//! whole milliseconds, and reports the integer mean.
//!
//! * [`config`] and [`args`] say what to run: the configuration, its
//!   validity, and the command-line options that describe it.
//! * [`primitive`] holds the two primitives, bcrypt and PBKDF2, behind one
//!   interface.
//! * [`clock`], [`stats`] and [`harness`] do the measuring: the timer, the
//!   mean, and the loop over samples and costs.
//! * [`report`] and [`text`] present the results: lines, streams and exit
//!   code.
//! * [`bench`] puts them together.

pub mod args;
pub mod bench;
pub mod clock;
pub mod config;
pub mod error;
pub mod harness;
pub mod primitive;
pub mod report;
pub mod stats;
pub mod text;
