//! A synthetic mutation-testing simulator.
//!
//! The library models a hypothetical program of `L` observable conditions as
//! an `L`-bit universe. Mutants corrupt a random subset of conditions and
//! tests check a random subset; a configurable kill predicate decides which
//! tests kill which mutants, and the results are aggregated into a
//! kill-count distribution.

pub mod bitvec;
pub mod config;
pub mod dist;
pub mod generate;
pub mod kill;
pub mod sim;
