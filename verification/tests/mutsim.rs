use mutsim::bitvec::BitVec;
use mutsim::bitvec::covers;
use mutsim::bitvec::hamming_wt;
use mutsim::config::ConfigError;
use mutsim::config::MyOptions;
use mutsim::dist::aggregate;
use mutsim::generate::gen_lst;
use mutsim::generate::gen_mutants;
use mutsim::generate::gen_tests;
use mutsim::generate::genbits;
use mutsim::generate::zeros;
use mutsim::kill::kills;
use mutsim::kill::mutant_killedby_ntests;
use mutsim::kill::ntests_mutant_killed_by;
use mutsim::sim::simulate;

fn opts_with(
    programlen: usize,
    nmutants: usize,
    ntests: usize,
    nfaults: usize,
    nchecks: usize,
    nequivalents: usize,
    subtle: usize,
) -> MyOptions {
    MyOptions {
        programlen,
        nmutants,
        ntests,
        nfaults,
        nchecks,
        nequivalents,
        subtle,
    }
}

#[test]
fn kills_subtlety_scenario() {
    // L = 8, mutant bits {0, 1} (value 3), test bits {0} (value 1).
    let mutant = BitVec::from_words(vec![3]);
    let test = BitVec::from_words(vec![1]);
    // Coverage: the mutant is not fully covered.
    assert!(!kills(&test, &mutant, 0));
    // Any: an overlap exists.
    assert!(kills(&test, &mutant, 1));
    // Graded with threshold 2: the overlap population count is only 1.
    assert!(!kills(&test, &mutant, 2));
}

#[test]
fn kills_coverage_exact() {
    let mutant = BitVec::from_words(vec![0b0110]);
    let covering = BitVec::from_words(vec![0b1110]);
    let partial = BitVec::from_words(vec![0b0100]);
    assert!(kills(&covering, &mutant, 0));
    assert!(!kills(&partial, &mutant, 0));
    assert!(kills(&covering, &mutant, 1));
    assert!(kills(&partial, &mutant, 1));
    assert!(kills(&covering, &mutant, 2));
    assert!(!kills(&partial, &mutant, 2));
}

#[test]
fn kills_across_word_boundaries() {
    // Bits 1 and 70 live in different words.
    let mut mutant = BitVec::new_zero(2);
    mutant.set_bit(1);
    mutant.set_bit(70);
    let mut test_both = BitVec::new_zero(2);
    test_both.set_bit(1);
    test_both.set_bit(70);
    let mut test_high = BitVec::new_zero(2);
    test_high.set_bit(70);
    assert!(kills(&test_both, &mutant, 0));
    assert!(kills(&test_both, &mutant, 2));
    assert!(!kills(&test_high, &mutant, 0));
    assert!(kills(&test_high, &mutant, 1));
    assert!(!kills(&test_high, &mutant, 2));
}

#[test]
fn covers_handles_unequal_widths() {
    // A mutant with a set bit beyond the test's stored words is not covered.
    let mut mutant = BitVec::new_zero(3);
    mutant.set_bit(130);
    let test = BitVec::from_words(vec![u64::MAX]);
    assert!(!covers(&test, &mutant));
    // The shorter zero mutant is covered by anything.
    let zero = BitVec::new_zero(0);
    assert!(covers(&test, &zero));
    // A longer test still covers a shorter mutant.
    let mutant_low = BitVec::from_words(vec![0b11]);
    let test_long = BitVec::from_words(vec![0b111, 0, 0]);
    assert!(covers(&test_long, &mutant_low));
}

#[test]
fn equivalent_mutant_edge_cases() {
    let zero = BitVec::new_zero(1);
    let test = BitVec::from_words(vec![0xFF]);
    // Under coverage the zero mutant is reported killed by every test.
    assert!(kills(&test, &zero, 0));
    // Under any subtlety of at least one it is never killed.
    assert!(!kills(&test, &zero, 1));
    assert!(!kills(&test, &zero, 2));
    assert!(!kills(&test, &zero, 1000));
}

#[test]
fn hamming_weight_counts_bits() {
    assert_eq!(hamming_wt(&BitVec::from_words(vec![])), 0);
    assert_eq!(hamming_wt(&BitVec::from_words(vec![0, 0])), 0);
    assert_eq!(hamming_wt(&BitVec::from_words(vec![0xFF, 1])), 9);
    assert_eq!(hamming_wt(&BitVec::from_words(vec![u64::MAX])), 64);
    assert_eq!(hamming_wt(&BitVec::from_words(vec![1 << 63, 1])), 2);
}

#[test]
fn set_and_get_bits() {
    let mut v = BitVec::new_zero(2);
    assert!(!v.get_bit(70));
    v.set_bit(70);
    v.set_bit(0);
    v.set_bit(70);
    assert!(v.get_bit(70));
    assert!(v.get_bit(0));
    assert!(!v.get_bit(1));
    assert!(!v.get_bit(69));
    // Beyond the stored words every bit reads clear.
    assert!(!v.get_bit(128));
    assert_eq!(hamming_wt(&v), 2);
    assert_eq!(v.word_count(), 2);
    assert_eq!(v.word(0), 1);
    assert_eq!(v.word(1), 1 << 6);
}

#[test]
fn kill_count_per_mutant() {
    let mutant = BitVec::from_words(vec![3]);
    let tests = vec![
        BitVec::from_words(vec![1]),
        BitVec::from_words(vec![3]),
        BitVec::from_words(vec![4]),
    ];
    assert_eq!(ntests_mutant_killed_by(&mutant, &tests, 1), 2);
    assert_eq!(ntests_mutant_killed_by(&mutant, &tests, 0), 1);
    assert_eq!(ntests_mutant_killed_by(&mutant, &tests, 2), 1);
    assert_eq!(ntests_mutant_killed_by(&mutant, &vec![], 1), 0);
}

#[test]
fn pool_scenario_with_equivalent() {
    // Pool: one generated mutant of value 3 followed by one equivalent.
    // Suite: tests of values 1 and 3, subtlety 1.
    let opts = opts_with(8, 1, 2, 2, 2, 1, 1);
    let mutants = vec![BitVec::from_words(vec![3])];
    let equivalents = zeros(1);
    let my_tests = vec![BitVec::from_words(vec![1]), BitVec::from_words(vec![3])];
    let kc = mutant_killedby_ntests(&opts, &mutants, &equivalents, &my_tests);
    assert_eq!(kc, vec![2, 0]);

    let rows = aggregate(&kc);
    assert_eq!(rows.len(), 3);
    // (n, at_least_n, at_most_n, exactly_n)
    assert_eq!(rows[0], (0, 2, 1, 1));
    assert_eq!(rows[1], (1, 1, 1, 0));
    assert_eq!(rows[2], (2, 1, 2, 1));
}

#[test]
fn empty_test_suite_kills_nothing() {
    let opts = opts_with(8, 2, 0, 2, 2, 1, 1);
    let mutants = vec![BitVec::from_words(vec![3]), BitVec::from_words(vec![5])];
    let equivalents = zeros(1);
    let my_tests: Vec<BitVec> = vec![];
    let kc = mutant_killedby_ntests(&opts, &mutants, &equivalents, &my_tests);
    assert_eq!(kc, vec![0, 0, 0]);
    let rows = aggregate(&kc);
    assert_eq!(rows, vec![(0, 3, 3, 3)]);
}

#[test]
fn aggregate_bookkeeping() {
    let kc = vec![0, 1, 1, 3];
    let rows = aggregate(&kc);
    assert_eq!(rows.len(), 4);
    assert_eq!(rows[0], (0, 4, 1, 1));
    assert_eq!(rows[1], (1, 3, 3, 2));
    assert_eq!(rows[2], (2, 1, 3, 0));
    assert_eq!(rows[3], (3, 1, 4, 1));
    // at_least_0 and at_most_max both cover the pool; the exactly column
    // sums to the pool size.
    assert_eq!(rows[0].1, kc.len());
    assert_eq!(rows[rows.len() - 1].2, kc.len());
    let total: usize = rows.iter().map(|r| r.3).sum();
    assert_eq!(total, kc.len());
}

#[test]
fn aggregate_is_repeatable() {
    let kc = vec![5, 0, 2, 2, 7, 1];
    let first = aggregate(&kc);
    let second = aggregate(&kc);
    assert_eq!(first, second);
}

#[test]
fn genbits_respects_bounds() {
    for _ in 0..50 {
        let g = genbits(100, 5);
        assert_eq!(g.word_count(), 2);
        let w = hamming_wt(&g);
        assert!(w >= 1 && w <= 5);
        for pos in 100..200 {
            assert!(!g.get_bit(pos));
        }
    }
}

#[test]
fn genbits_smallest_universe() {
    for _ in 0..10 {
        let g = genbits(1, 1);
        assert_eq!(hamming_wt(&g), 1);
        assert!(g.get_bit(0));
    }
}

#[test]
fn generated_lists_have_requested_sizes() {
    let l = gen_lst(7, 50, 3);
    assert_eq!(l.len(), 7);
    for v in &l {
        let w = hamming_wt(v);
        assert!(w >= 1 && w <= 3);
    }
    assert_eq!(gen_mutants(4, 10, 2).len(), 4);
    assert_eq!(gen_tests(5, 10, 2).len(), 5);
    assert_eq!(gen_lst(0, 10, 2).len(), 0);
}

#[test]
fn zeros_are_all_zero() {
    let z = zeros(3);
    assert_eq!(z.len(), 3);
    for v in &z {
        assert_eq!(hamming_wt(v), 0);
    }
    assert_eq!(zeros(0).len(), 0);
}

#[test]
fn validate_rejects_bad_configurations() {
    assert_eq!(opts_with(0, 1, 1, 1, 1, 0, 1).validate(), Err(ConfigError::ZeroProgramLen));
    assert_eq!(opts_with(8, 1, 1, 0, 1, 0, 1).validate(), Err(ConfigError::ZeroMaxFaults));
    assert_eq!(opts_with(8, 1, 1, 1, 0, 0, 1).validate(), Err(ConfigError::ZeroMaxChecks));
    assert_eq!(opts_with(8, 0, 1, 1, 1, 0, 1).validate(), Err(ConfigError::EmptyMutantPool));
    assert_eq!(opts_with(8, 1, 1, 1, 1, 0, 1).validate(), Ok(()));
    // A pool of equivalents alone is legal, and zero maxima matter only
    // when the matching population is requested.
    assert_eq!(opts_with(8, 0, 0, 0, 0, 2, 1).validate(), Ok(()));
}

#[test]
fn simulate_rejects_before_generating() {
    assert!(matches!(
        simulate(&opts_with(0, 1, 1, 1, 1, 0, 1)),
        Err(ConfigError::ZeroProgramLen)
    ));
    assert!(matches!(
        simulate(&opts_with(8, 0, 1, 1, 1, 0, 1)),
        Err(ConfigError::EmptyMutantPool)
    ));
}

#[test]
fn simulate_full_run() {
    let opts = opts_with(16, 3, 4, 2, 2, 2, 1);
    let sim = simulate(&opts).unwrap();
    assert_eq!(sim.kill_counts.len(), 5);
    for &c in &sim.kill_counts {
        assert!(c <= 4);
    }
    // The equivalents close the pool and survive everything at subtlety 1.
    assert_eq!(sim.kill_counts[3], 0);
    assert_eq!(sim.kill_counts[4], 0);
    // Row 0 of the distribution counts the whole pool as killed by at
    // least zero tests.
    assert_eq!(sim.distribution[0].0, 0);
    assert_eq!(sim.distribution[0].1, 5);
}

#[test]
fn distribution_identities_on_random_run() {
    let opts = opts_with(64, 20, 30, 6, 6, 3, 1);
    let sim = simulate(&opts).unwrap();
    let total = sim.kill_counts.len();
    assert_eq!(total, 23);
    let rows = &sim.distribution;
    for (n, row) in rows.iter().enumerate() {
        assert_eq!(row.0, n);
        let below = sim.kill_counts.iter().filter(|&&c| c < n).count();
        assert_eq!(row.1 + below, total);
    }
    assert_eq!(rows[0].1, total);
    assert_eq!(rows[rows.len() - 1].2, total);
    let exact_sum: usize = rows.iter().map(|r| r.3).sum();
    assert_eq!(exact_sum, total);
}

#[test]
fn simulate_coverage_kills_equivalents() {
    // Under subtlety 0 the zero vector is covered by every test: the
    // equivalents' kill counts equal the suite size.
    let opts = opts_with(16, 1, 3, 2, 2, 2, 0);
    let sim = simulate(&opts).unwrap();
    assert_eq!(sim.kill_counts.len(), 3);
    assert_eq!(sim.kill_counts[1], 3);
    assert_eq!(sim.kill_counts[2], 3);
}
