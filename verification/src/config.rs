//! Run configuration and its validation.

use vstd::prelude::*;

verus! {

/// The numeric configuration of a simulation run.
#[derive(Debug, Clone, Copy)]
pub struct MyOptions {
    /// Universe size `L`: how many observable conditions the hypothetical
    /// program has.
    pub programlen: usize,
    /// How many mutants to generate.
    pub nmutants: usize,
    /// How many tests to generate.
    pub ntests: usize,
    /// Most corrupted conditions a mutant may request.
    pub nfaults: usize,
    /// Most checked conditions a test may request.
    pub nchecks: usize,
    /// How many all-zero, unkillable mutants to append to the pool.
    pub nequivalents: usize,
    /// Which kill predicate governs the run.
    pub subtle: usize,
}

/// Why a configuration was rejected before any generation took place.
#[derive(Debug, Clone, Copy, PartialEq, Eq, Structural)]
pub enum ConfigError {
    /// The universe size is zero: no condition to corrupt or check.
    ZeroProgramLen,
    /// Mutants are requested but may corrupt at most zero conditions.
    ZeroMaxFaults,
    /// Tests are requested but may check at most zero conditions.
    ZeroMaxChecks,
    /// No mutant and no equivalent: the kill-count distribution would be
    /// undefined.
    EmptyMutantPool,
}

impl MyOptions {
    /// A configuration the simulation accepts.
    pub open spec fn spec_valid(self) -> bool {
        &&& self.programlen >= 1
        &&& (self.nmutants > 0 ==> self.nfaults >= 1)
        &&& (self.ntests > 0 ==> self.nchecks >= 1)
        &&& self.nmutants + self.nequivalents > 0
    }

    /// What validation returns: the first offending field's error, or
    /// acceptance.
    pub open spec fn spec_validate(self) -> Result<(), ConfigError> {
        if self.programlen == 0 {
            Err(ConfigError::ZeroProgramLen)
        } else if self.nmutants > 0 && self.nfaults == 0 {
            Err(ConfigError::ZeroMaxFaults)
        } else if self.ntests > 0 && self.nchecks == 0 {
            Err(ConfigError::ZeroMaxChecks)
        } else if self.nmutants == 0 && self.nequivalents == 0 {
            Err(ConfigError::EmptyMutantPool)
        } else {
            Ok(())
        }
    }

    /// Reject an invalid configuration, naming the first offending field.
    pub fn validate(&self) -> (r: Result<(), ConfigError>)
        ensures
            r == self.spec_validate(),
            r is Ok <==> self.spec_valid(),
    {
        if self.programlen == 0 {
            Err(ConfigError::ZeroProgramLen)
        } else if self.nmutants > 0 && self.nfaults == 0 {
            Err(ConfigError::ZeroMaxFaults)
        } else if self.ntests > 0 && self.nchecks == 0 {
            Err(ConfigError::ZeroMaxChecks)
        } else if self.nmutants == 0 && self.nequivalents == 0 {
            Err(ConfigError::EmptyMutantPool)
        } else {
            Ok(())
        }
    }
}

} // verus!
