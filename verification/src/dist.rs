//! Aggregation of kill counts into a distribution table.
//!
//! From the per-mutant kill counts, the table holds one row
//! `(n, at_least_n, at_most_n, exactly_n)` for every threshold `n` from `0`
//! to the largest observed kill count.

use vstd::prelude::*;

verus! {

/// How many entries of `s` equal `n`.
pub open spec fn count_eq(s: Seq<usize>, n: nat) -> nat
    decreases s.len(),
{
    if s.len() == 0 {
        0
    } else {
        count_eq(s.drop_last(), n) + if s.last() as nat == n {
            1nat
        } else {
            0nat
        }
    }
}

/// How many entries of `s` are at least `n`.
pub open spec fn count_ge(s: Seq<usize>, n: nat) -> nat
    decreases s.len(),
{
    if s.len() == 0 {
        0
    } else {
        count_ge(s.drop_last(), n) + if s.last() as nat >= n {
            1nat
        } else {
            0nat
        }
    }
}

/// How many entries of `s` are at most `n`.
pub open spec fn count_le(s: Seq<usize>, n: nat) -> nat
    decreases s.len(),
{
    if s.len() == 0 {
        0
    } else {
        count_le(s.drop_last(), n) + if s.last() as nat <= n {
            1nat
        } else {
            0nat
        }
    }
}

/// How many entries of `s` are strictly below `n`.
pub open spec fn count_lt(s: Seq<usize>, n: nat) -> nat
    decreases s.len(),
{
    if s.len() == 0 {
        0
    } else {
        count_lt(s.drop_last(), n) + if (s.last() as nat) < n {
            1nat
        } else {
            0nat
        }
    }
}

/// The largest entry of `s`, or `0` for the empty sequence.
pub open spec fn seq_max(s: Seq<usize>) -> nat
    decreases s.len(),
{
    if s.len() == 0 {
        0
    } else if s.last() as nat >= seq_max(s.drop_last()) {
        s.last() as nat
    } else {
        seq_max(s.drop_last())
    }
}

/// `rows` is the distribution table of the kill counts `counts`: one row
/// per threshold from `0` to the largest observed count, each row holding
/// the threshold and the at-least, at-most and exactly tallies.
pub open spec fn is_aggregate_of(
    rows: Seq<(usize, usize, usize, usize)>,
    counts: Seq<usize>,
) -> bool {
    &&& rows.len() == seq_max(counts) + 1
    &&& forall|n: int|
        0 <= n < rows.len() ==> {
            &&& (#[trigger] rows[n]).0 == n
            &&& rows[n].1 == count_ge(counts, n as nat)
            &&& rows[n].2 == count_le(counts, n as nat)
            &&& rows[n].3 == count_eq(counts, n as nat)
        }
}

/// Sum of the exactly-`k` tallies for all thresholds `k` from `0` to `n`.
pub open spec fn sum_exactly_upto(s: Seq<usize>, n: nat) -> nat
    decreases n,
{
    if n == 0 {
        count_eq(s, 0)
    } else {
        sum_exactly_upto(s, (n - 1) as nat) + count_eq(s, n)
    }
}

pub proof fn lemma_count_partition(s: Seq<usize>, n: nat)
    ensures
        count_ge(s, n) + count_lt(s, n) == s.len(),
    decreases s.len(),
{
    if s.len() > 0 {
        lemma_count_partition(s.drop_last(), n);
    }
}

pub proof fn lemma_count_ge_zero(s: Seq<usize>)
    ensures
        count_ge(s, 0) == s.len(),
    decreases s.len(),
{
    if s.len() > 0 {
        lemma_count_ge_zero(s.drop_last());
    }
}

/// Every entry is at most the sequence's maximum.
pub proof fn lemma_seq_max_ge(s: Seq<usize>)
    ensures
        forall|i: int| 0 <= i < s.len() ==> #[trigger] s[i] as nat <= seq_max(s),
    decreases s.len(),
{
    if s.len() > 0 {
        lemma_seq_max_ge(s.drop_last());
        assert forall|i: int| 0 <= i < s.len() implies #[trigger] s[i] as nat <= seq_max(s) by {
            if i < s.len() - 1 {
                assert(s[i] == s.drop_last()[i]);
            }
        }
    }
}

pub proof fn lemma_count_le_all(s: Seq<usize>, n: nat)
    requires
        forall|i: int| 0 <= i < s.len() ==> #[trigger] s[i] as nat <= n,
    ensures
        count_le(s, n) == s.len(),
    decreases s.len(),
{
    if s.len() > 0 {
        assert(forall|i: int| 0 <= i < s.len() - 1 ==> s[i] == #[trigger] s.drop_last()[i]);
        lemma_count_le_all(s.drop_last(), n);
    }
}

/// The at-most tally splits off the exactly tally of its threshold.
pub proof fn lemma_count_le_step(s: Seq<usize>, n: nat)
    ensures
        n == 0 ==> count_le(s, n) == count_eq(s, 0),
        n >= 1 ==> count_le(s, n) == count_le(s, (n - 1) as nat) + count_eq(s, n),
    decreases s.len(),
{
    if s.len() > 0 {
        lemma_count_le_step(s.drop_last(), n);
    }
}

/// Summing the exactly tallies up to `n` gives the at-most tally at `n`.
pub proof fn lemma_sum_exactly_upto(s: Seq<usize>, n: nat)
    ensures
        sum_exactly_upto(s, n) == count_le(s, n),
    decreases n,
{
    lemma_count_le_step(s, n);
    if n > 0 {
        lemma_sum_exactly_upto(s, (n - 1) as nat);
    }
}

/// The distribution's bookkeeping identities: at any threshold the
/// at-least tally and the strictly-below tally partition the pool; the
/// at-least tally at `0` and the at-most tally at the maximum both cover
/// the whole pool; and the exactly tallies over all thresholds sum to the
/// pool size.
pub proof fn lemma_distribution_consistency(counts: Seq<usize>, n: nat)
    ensures
        count_ge(counts, n) + count_lt(counts, n) == counts.len(),
        count_ge(counts, 0) == counts.len(),
        count_le(counts, seq_max(counts)) == counts.len(),
        sum_exactly_upto(counts, seq_max(counts)) == counts.len(),
{
    lemma_count_partition(counts, n);
    lemma_count_ge_zero(counts);
    lemma_seq_max_ge(counts);
    lemma_count_le_all(counts, seq_max(counts));
    lemma_sum_exactly_upto(counts, seq_max(counts));
}

/// Sum of the exactly column over a table's rows.
pub open spec fn table_exactly_sum(rows: Seq<(usize, usize, usize, usize)>) -> nat
    decreases rows.len(),
{
    if rows.len() == 0 {
        0
    } else {
        table_exactly_sum(rows.drop_last()) + rows.last().3 as nat
    }
}

proof fn lemma_table_exactly_prefix(
    rows: Seq<(usize, usize, usize, usize)>,
    counts: Seq<usize>,
    n: nat,
)
    requires
        is_aggregate_of(rows, counts),
        n < rows.len(),
    ensures
        table_exactly_sum(rows.take(n + 1 as int)) == sum_exactly_upto(counts, n),
    decreases n,
{
    assert(rows.take(n + 1 as int).drop_last() =~= rows.take(n as int));
    assert(rows.take(n + 1 as int).last() == rows[n as int]);
    if n == 0 {
        assert(rows.take(0int) =~= Seq::<(usize, usize, usize, usize)>::empty());
        assert(table_exactly_sum(rows.take(0int)) == 0);
        assert(table_exactly_sum(rows.take(1int)) == rows[0].3 as nat);
        assert(rows[0int].3 == count_eq(counts, 0));
        assert(sum_exactly_upto(counts, 0) == count_eq(counts, 0));
    } else {
        lemma_table_exactly_prefix(rows, counts, (n - 1) as nat);
        assert(table_exactly_sum(rows.take(n as int)) == sum_exactly_upto(counts, (n - 1) as nat));
        assert(table_exactly_sum(rows.take(n + 1 as int)) == table_exactly_sum(rows.take(n as int))
            + rows[n as int].3 as nat);
        assert(rows[n as int].3 == count_eq(counts, n));
        assert(sum_exactly_upto(counts, n) == sum_exactly_upto(counts, (n - 1) as nat) + count_eq(
            counts,
            n,
        ));
    }
}

/// The distribution table's own rows obey the bookkeeping identities: at
/// any threshold the at-least tally and the mutants strictly below it
/// partition the pool, the first row's at-least tally and the last row's
/// at-most tally cover the whole pool, and the exactly column sums to the
/// pool size.
pub proof fn lemma_table_consistency(
    rows: Seq<(usize, usize, usize, usize)>,
    counts: Seq<usize>,
    n: int,
)
    requires
        is_aggregate_of(rows, counts),
        0 <= n < rows.len(),
    ensures
        rows[n].1 + count_lt(counts, n as nat) == counts.len(),
        rows[0].1 == counts.len(),
        rows[rows.len() - 1].2 == counts.len(),
        table_exactly_sum(rows) == counts.len(),
{
    lemma_distribution_consistency(counts, n as nat);
    lemma_distribution_consistency(counts, 0);
    let max = seq_max(counts);
    assert(rows[max as int].2 == count_le(counts, max));
    lemma_table_exactly_prefix(rows, counts, max);
    assert(rows.take(max + 1 as int) =~= rows);
    lemma_sum_exactly_upto(counts, max);
}

/// Aggregation is a pure function of the kill-count map: any two tables
/// aggregated from the same counts are identical.
pub proof fn lemma_aggregate_deterministic(
    counts: Seq<usize>,
    rows1: Seq<(usize, usize, usize, usize)>,
    rows2: Seq<(usize, usize, usize, usize)>,
)
    requires
        is_aggregate_of(rows1, counts),
        is_aggregate_of(rows2, counts),
    ensures
        rows1 == rows2,
{
    assert forall|n: int| 0 <= n < rows1.len() implies rows1[n] == rows2[n] by {
        assert(rows1[n].0 == rows2[n].0 && rows1[n].1 == rows2[n].1 && rows1[n].2 == rows2[n].2
            && rows1[n].3 == rows2[n].3);
    }
    assert(rows1 =~= rows2);
}

/// Tally one threshold: how many counts are at least, at most, and exactly
/// `n`.
fn count_for_threshold(counts: &Vec<usize>, n: usize) -> (r: (usize, usize, usize))
    ensures
        r.0 == count_ge(counts@, n as nat),
        r.1 == count_le(counts@, n as nat),
        r.2 == count_eq(counts@, n as nat),
{
    let mut atleastnt: usize = 0;
    let mut atmostnt: usize = 0;
    let mut exactlynt: usize = 0;
    for k in 0..counts.len()
        invariant
            atleastnt == count_ge(counts@.take(k as int), n as nat),
            atmostnt == count_le(counts@.take(k as int), n as nat),
            exactlynt == count_eq(counts@.take(k as int), n as nat),
            atleastnt <= k,
            atmostnt <= k,
            exactlynt <= k,
    {
        proof {
            assert(counts@.take(k + 1 as int).drop_last() =~= counts@.take(k as int));
            assert(counts@.take(k + 1 as int).last() == counts@[k as int]);
        }
        let c = counts[k];
        if c == n {
            exactlynt = exactlynt + 1;
        }
        if c >= n {
            atleastnt = atleastnt + 1;
        }
        if c <= n {
            atmostnt = atmostnt + 1;
        }
    }
    proof {
        assert(counts@.take(counts@.len() as int) =~= counts@);
    }
    (atleastnt, atmostnt, exactlynt)
}

/// The largest kill count in the map.
fn max_count(counts: &Vec<usize>) -> (m: usize)
    requires
        counts@.len() >= 1,
    ensures
        m == seq_max(counts@),
{
    let mut m: usize = 0;
    for k in 0..counts.len()
        invariant
            m == seq_max(counts@.take(k as int)),
    {
        proof {
            assert(counts@.take(k + 1 as int).drop_last() =~= counts@.take(k as int));
            assert(counts@.take(k + 1 as int).last() == counts@[k as int]);
        }
        let c = counts[k];
        if c > m {
            m = c;
        }
    }
    proof {
        assert(counts@.take(counts@.len() as int) =~= counts@);
    }
    m
}

/// Aggregate the kill-count map into the distribution table. The map must
/// hold at least one mutant, else no largest count exists and the table is
/// undefined.
pub fn aggregate(counts: &Vec<usize>) -> (rows: Vec<(usize, usize, usize, usize)>)
    requires
        counts@.len() >= 1,
    ensures
        is_aggregate_of(rows@, counts@),
{
    let max = max_count(counts);
    let mut rows: Vec<(usize, usize, usize, usize)> = Vec::new();
    let mut n: usize = 0;
    loop
        invariant_except_break
            n <= max,
            max == seq_max(counts@),
            rows@.len() == n,
            counts@.len() >= 1,
            forall|t: int|
                0 <= t < n ==> {
                    &&& (#[trigger] rows@[t]).0 == t
                    &&& rows@[t].1 == count_ge(counts@, t as nat)
                    &&& rows@[t].2 == count_le(counts@, t as nat)
                    &&& rows@[t].3 == count_eq(counts@, t as nat)
                },
        ensures
            is_aggregate_of(rows@, counts@),
        decreases max - n,
    {
        let (atleastnt, atmostnt, exactlynt) = count_for_threshold(counts, n);
        rows.push((n, atleastnt, atmostnt, exactlynt));
        if n == max {
            break ;
        }
        n = n + 1;
    }
    rows
}

} // verus!
