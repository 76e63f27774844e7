//! The kill predicate and the kill-matrix evaluation.
//!
//! A test kills a mutant according to a subtlety level:
//! - subtlety `0` (coverage): every corrupted condition must be checked,
//!   `test AND mutant == mutant`;
//! - subtlety `1` (any): some corrupted condition is checked;
//! - subtlety `k > 1` (graded): at least `k` corrupted conditions are
//!   checked, generalizing the "any" mode.

use vstd::prelude::*;
use crate::bitvec::BitVec;
use crate::bitvec::covers;
use crate::bitvec::and_weight_at_least;
use crate::bitvec::inter_weight;
use crate::bitvec::is_zero_bits;
use crate::bitvec::lemma_inter_weight_pos;
use crate::bitvec::lemma_inter_weight_zero;
use crate::bitvec::lemma_zero_no_bits;
use crate::bitvec::seq_bit;
use crate::bitvec::subset_bits;
use crate::config::MyOptions;

verus! {

/// What it means for a test vector to kill a mutant vector at a given
/// subtlety level.
pub open spec fn spec_kills(test: Seq<u64>, mutant: Seq<u64>, subtle: nat) -> bool {
    if subtle == 0 {
        subset_bits(mutant, test)
    } else {
        inter_weight(test, mutant) >= subtle
    }
}

/// Decide whether `test` kills `mutant` at subtlety `subtle`.
pub fn kills(test: &BitVec, mutant: &BitVec, subtle: usize) -> (b: bool)
    ensures
        b == spec_kills(test@, mutant@, subtle as nat),
{
    if subtle == 0 {
        covers(test, mutant)
    } else {
        and_weight_at_least(test, mutant, subtle)
    }
}

/// An equivalent mutant — the zero vector — is never killed at any
/// subtlety level of at least one.
pub proof fn lemma_equivalent_never_killed(test: Seq<u64>, mutant: Seq<u64>, subtle: nat)
    requires
        is_zero_bits(mutant),
        subtle >= 1,
    ensures
        !spec_kills(test, mutant, subtle),
{
    lemma_inter_weight_zero(test, mutant);
}

/// An equivalent mutant is killed by every test under the coverage mode:
/// the subset check holds vacuously of the empty bit set.
pub proof fn lemma_equivalent_covered(test: Seq<u64>, mutant: Seq<u64>)
    requires
        is_zero_bits(mutant),
    ensures
        spec_kills(test, mutant, 0),
{
    lemma_zero_no_bits(mutant);
}

/// A coverage kill of a mutant with at least one corrupted condition is
/// also an "any" kill.
pub proof fn lemma_coverage_implies_any(test: Seq<u64>, mutant: Seq<u64>)
    requires
        spec_kills(test, mutant, 0),
        !is_zero_bits(mutant),
    ensures
        spec_kills(test, mutant, 1),
{
    let wi = choose|wi: int| 0 <= wi < mutant.len() && mutant[wi] != 0u64;
    crate::bitvec::lemma_word_nonzero_has_bit(mutant[wi]);
    let j = choose|j: nat| j < 64 && #[trigger] crate::bitvec::word_bit(mutant[wi], j);
    crate::bitvec::lemma_bit_index(wi as nat, j);
    let i = 64 * (wi as nat) + j;
    assert(seq_bit(mutant, i));
    assert(seq_bit(test, i));
    lemma_inter_weight_pos(test, mutant);
}

/// Graded kills are monotone: harder thresholds kill less. `kills` at
/// threshold `k >= 1` holds exactly up to the population count of
/// `test AND mutant` and fails above it.
pub proof fn lemma_graded_monotone(test: Seq<u64>, mutant: Seq<u64>, j: nat, k: nat)
    requires
        1 <= j <= k,
    ensures
        spec_kills(test, mutant, k) ==> spec_kills(test, mutant, j),
        spec_kills(test, mutant, k) <==> k <= inter_weight(test, mutant),
{
}

/// Number of tests among `tests` that kill `mutant` at subtlety `subtle`.
pub open spec fn num_killing(tests: Seq<BitVec>, mutant: Seq<u64>, subtle: nat) -> nat
    decreases tests.len(),
{
    if tests.len() == 0 {
        0
    } else {
        num_killing(tests.drop_last(), mutant, subtle) + if spec_kills(
            tests.last()@,
            mutant,
            subtle,
        ) {
            1nat
        } else {
            0nat
        }
    }
}

/// An equivalent mutant's kill count is zero at subtlety of at least one,
/// and the whole suite's size under the coverage mode.
pub proof fn lemma_num_killing_equivalent(tests: Seq<BitVec>, mutant: Seq<u64>, subtle: nat)
    requires
        is_zero_bits(mutant),
    ensures
        num_killing(tests, mutant, subtle) == if subtle == 0 {
            tests.len()
        } else {
            0nat
        },
    decreases tests.len(),
{
    if tests.len() > 0 {
        lemma_num_killing_equivalent(tests.drop_last(), mutant, subtle);
        if subtle == 0 {
            lemma_equivalent_covered(tests.last()@, mutant);
        } else {
            lemma_equivalent_never_killed(tests.last()@, mutant, subtle);
        }
    }
}

/// Count how many tests in the suite kill `m`.
pub fn ntests_mutant_killed_by(m: &BitVec, tests: &Vec<BitVec>, subtle: usize) -> (n: usize)
    ensures
        n == num_killing(tests@, m@, subtle as nat),
        n <= tests@.len(),
{
    let mut n: usize = 0;
    for t in 0..tests.len()
        invariant
            n == num_killing(tests@.take(t as int), m@, subtle as nat),
            n <= t,
    {
        proof {
            assert(tests@.take(t + 1 as int).drop_last() =~= tests@.take(t as int));
            assert(tests@.take(t + 1 as int).last() == tests@[t as int]);
        }
        if kills(&tests[t], m, subtle) {
            n = n + 1;
        }
    }
    proof {
        assert(tests@.take(tests@.len() as int) =~= tests@);
    }
    n
}

/// For every mutant in the pool — the generated mutants followed by the
/// equivalents, in order — count how many tests kill it. Entry `i` of the
/// result is the kill count of pool member `i`.
pub fn mutant_killedby_ntests(
    opts: &MyOptions,
    mutants: &Vec<BitVec>,
    equivalents: &Vec<BitVec>,
    my_tests: &Vec<BitVec>,
) -> (kc: Vec<usize>)
    ensures
        kc@.len() == mutants@.len() + equivalents@.len(),
        forall|i: int|
            0 <= i < mutants@.len() ==> kc@[i] == num_killing(
                my_tests@,
                mutants@[i]@,
                opts.subtle as nat,
            ),
        forall|i: int|
            mutants@.len() <= i < kc@.len() ==> kc@[i] == num_killing(
                my_tests@,
                equivalents@[i - mutants@.len()]@,
                opts.subtle as nat,
            ),
        forall|i: int| 0 <= i < kc@.len() ==> kc@[i] <= my_tests@.len(),
{
    let mut kc: Vec<usize> = Vec::new();
    for m in 0..mutants.len()
        invariant
            kc@.len() == m,
            forall|i: int|
                0 <= i < m ==> kc@[i] == num_killing(my_tests@, mutants@[i]@, opts.subtle as nat),
            forall|i: int| 0 <= i < kc@.len() ==> kc@[i] <= my_tests@.len(),
    {
        let n = ntests_mutant_killed_by(&mutants[m], my_tests, opts.subtle);
        kc.push(n);
    }
    for e in 0..equivalents.len()
        invariant
            kc@.len() == mutants@.len() + e,
            forall|i: int|
                0 <= i < mutants@.len() ==> kc@[i] == num_killing(
                    my_tests@,
                    mutants@[i]@,
                    opts.subtle as nat,
                ),
            forall|i: int|
                mutants@.len() <= i < kc@.len() ==> kc@[i] == num_killing(
                    my_tests@,
                    equivalents@[i - mutants@.len()]@,
                    opts.subtle as nat,
                ),
            forall|i: int| 0 <= i < kc@.len() ==> kc@[i] <= my_tests@.len(),
    {
        let n = ntests_mutant_killed_by(&equivalents[e], my_tests, opts.subtle);
        kc.push(n);
    }
    kc
}

} // verus!
