//! The whole pipeline in one call: validate, generate, evaluate, aggregate.

use vstd::prelude::*;
use crate::config::ConfigError;
use crate::config::MyOptions;
use crate::dist::aggregate;
use crate::dist::is_aggregate_of;
use crate::generate::gen_mutants;
use crate::generate::gen_tests;
use crate::generate::zeros;
use crate::kill::lemma_num_killing_equivalent;
use crate::kill::mutant_killedby_ntests;

verus! {

/// What one run hands to the output layer: the per-mutant kill counts,
/// keyed by pool index, and the distribution table aggregated from them.
pub struct SimulationResult {
    pub kill_counts: Vec<usize>,
    pub distribution: Vec<(usize, usize, usize, usize)>,
}

/// Run one simulation: reject an invalid configuration before any
/// generation, else generate the test suite and the mutant pool — the
/// generated mutants followed by the equivalents — count kills, and
/// aggregate the distribution.
pub fn simulate(opts: &MyOptions) -> (r: Result<SimulationResult, ConfigError>)
    ensures
        r is Ok <==> opts.spec_valid(),
        r matches Err(e) ==> opts.spec_validate() == Err::<(), ConfigError>(e),
        r matches Ok(sim) ==> {
            &&& sim.kill_counts@.len() == opts.nmutants + opts.nequivalents
            &&& forall|i: int|
                0 <= i < sim.kill_counts@.len() ==> #[trigger] sim.kill_counts@[i] <= opts.ntests
            &&& forall|i: int|
                opts.nmutants <= i < sim.kill_counts@.len()
                    ==> #[trigger] sim.kill_counts@[i] == if opts.subtle == 0 {
                    opts.ntests as int
                } else {
                    0int
                }
            &&& is_aggregate_of(sim.distribution@, sim.kill_counts@)
        },
{
    match opts.validate() {
        Err(e) => Err(e),
        Ok(()) => {
            let my_tests = gen_tests(opts.ntests, opts.programlen, opts.nchecks);
            let mutants = gen_mutants(opts.nmutants, opts.programlen, opts.nfaults);
            let equivalents = zeros(opts.nequivalents);
            let kill_counts = mutant_killedby_ntests(opts, &mutants, &equivalents, &my_tests);
            proof {
                assert forall|i: int|
                    opts.nmutants <= i < kill_counts@.len()
                        implies #[trigger] kill_counts@[i] == if opts.subtle == 0 {
                        opts.ntests as int
                    } else {
                        0int
                    } by {
                    lemma_num_killing_equivalent(
                        my_tests@,
                        equivalents@[i - mutants@.len()]@,
                        opts.subtle as nat,
                    );
                }
            }
            let distribution = aggregate(&kill_counts);
            Ok(SimulationResult { kill_counts, distribution })
        },
    }
}

} // verus!
