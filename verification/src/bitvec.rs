//! Arbitrary-width bit vectors backed by a vector of 64-bit words.
//!
//! A bit vector stands for a subset of the bit positions `[0, 64 * words)`.
//! Positions beyond the stored words are understood to be clear, so vectors
//! of different word counts can still be compared bit by bit.

use vstd::prelude::*;
use vstd::arithmetic::div_mod::lemma_fundamental_div_mod;
use vstd::arithmetic::div_mod::lemma_fundamental_div_mod_converse;
use vstd::arithmetic::div_mod::lemma_mod_division_less_than_divisor;
use vstd::std_specs::bits::axiom_u64_trailing_zeros;
use vstd::std_specs::bits::u64_trailing_zeros;

verus! {

/// True when bit `j` of the word `w` is set. Meaningful only for `j < 64`.
pub open spec fn word_bit(w: u64, j: nat) -> bool {
    (w >> (j as u64)) & 1u64 == 1u64
}

/// Number of set bits of `w` among the positions `[0, n)`.
pub open spec fn count_below(w: u64, n: nat) -> nat
    decreases n,
{
    if n == 0 {
        0
    } else {
        count_below(w, (n - 1) as nat) + if word_bit(w, (n - 1) as nat) {
            1nat
        } else {
            0nat
        }
    }
}

/// Number of set bits of a whole word: its population count.
pub open spec fn word_weight(w: u64) -> nat {
    count_below(w, 64)
}

pub proof fn lemma_count_below_le(w: u64, n: nat)
    ensures
        count_below(w, n) <= n,
    decreases n,
{
    if n > 0 {
        lemma_count_below_le(w, (n - 1) as nat);
    }
}

pub proof fn lemma_bit_and(x: u64, y: u64, j: nat)
    requires
        j < 64,
    ensures
        word_bit(x & y, j) == (word_bit(x, j) && word_bit(y, j)),
{
    let ju = j as u64;
    assert(ju < 64 ==> ((((x & y) >> ju) & 1u64 == 1u64) == (((x >> ju) & 1u64 == 1u64) && ((y
        >> ju) & 1u64 == 1u64)))) by (bit_vector);
}

pub proof fn lemma_bit_or(x: u64, y: u64, j: nat)
    requires
        j < 64,
    ensures
        word_bit(x | y, j) == (word_bit(x, j) || word_bit(y, j)),
{
    let ju = j as u64;
    assert(ju < 64 ==> ((((x | y) >> ju) & 1u64 == 1u64) == (((x >> ju) & 1u64 == 1u64) || ((y
        >> ju) & 1u64 == 1u64)))) by (bit_vector);
}

pub proof fn lemma_bit_single(p: nat, j: nat)
    requires
        p < 64,
        j < 64,
    ensures
        word_bit(1u64 << (p as u64), j) == (j == p),
{
    let pu = p as u64;
    let ju = j as u64;
    assert(pu < 64 && ju < 64 ==> ((((1u64 << pu) >> ju) & 1u64 == 1u64) == (ju == pu)))
        by (bit_vector);
}

pub proof fn lemma_zero_word_no_bit(j: nat)
    requires
        j < 64,
    ensures
        !word_bit(0u64, j),
{
    let ju = j as u64;
    assert(((0u64 >> ju) & 1u64) != 1u64) by (bit_vector);
}

/// A word's set bits among `[0, n)` number zero exactly when all of them are clear.
pub proof fn lemma_count_zero_iff(w: u64, n: nat)
    ensures
        (count_below(w, n) == 0) <==> (forall|j: nat| j < n ==> !(#[trigger] word_bit(w, j))),
    decreases n,
{
    if n > 0 {
        lemma_count_zero_iff(w, (n - 1) as nat);
    }
}

/// Counting respects bitwise inclusion.
pub proof fn lemma_count_subset(x: u64, y: u64, n: nat)
    requires
        forall|j: nat| j < n ==> (#[trigger] word_bit(x, j) ==> word_bit(y, j)),
    ensures
        count_below(x, n) <= count_below(y, n),
    decreases n,
{
    if n > 0 {
        lemma_count_subset(x, y, (n - 1) as nat);
    }
}

pub proof fn lemma_count_or_le(x: u64, y: u64, n: nat)
    requires
        n <= 64,
    ensures
        count_below(x | y, n) <= count_below(x, n) + count_below(y, n),
    decreases n,
{
    if n > 0 {
        lemma_count_or_le(x, y, (n - 1) as nat);
        lemma_bit_or(x, y, (n - 1) as nat);
    }
}

pub proof fn lemma_count_single(p: nat, n: nat)
    requires
        p < 64,
        n <= 64,
    ensures
        count_below(1u64 << (p as u64), n) == if p < n {
            1nat
        } else {
            0nat
        },
    decreases n,
{
    if n > 0 {
        lemma_count_single(p, (n - 1) as nat);
        lemma_bit_single(p, (n - 1) as nat);
    }
}

/// A word is non-zero exactly when some bit of it is set.
pub proof fn lemma_word_nonzero_has_bit(x: u64)
    ensures
        (x != 0) <==> (exists|j: nat| j < 64 && #[trigger] word_bit(x, j)),
{
    if x != 0 {
        axiom_u64_trailing_zeros(x);
        let tz = u64_trailing_zeros(x);
        assert((x >> (tz as u64)) & 1u64 == 1u64);
        assert((tz as nat) as u64 == tz as u64);
        assert(word_bit(x, tz as nat));
    }
    if exists|j: nat| j < 64 && #[trigger] word_bit(x, j) {
        let j = choose|j: nat| j < 64 && #[trigger] word_bit(x, j);
        let ju = j as u64;
        assert(((x >> ju) & 1u64 == 1u64) ==> x != 0) by (bit_vector);
    }
}

/// `x & y == x` says exactly that the set bits of `x` are among those of `y`.
pub proof fn lemma_word_subset(x: u64, y: u64)
    ensures
        (x & y == x) <==> (forall|j: nat| j < 64 ==> (#[trigger] word_bit(x, j) ==> word_bit(
            y,
            j,
        ))),
{
    if x & y == x {
        assert forall|j: nat| j < 64 && #[trigger] word_bit(x, j) implies word_bit(y, j) by {
            let ju = j as u64;
            assert((x & y == x && ju < 64 && (x >> ju) & 1u64 == 1u64) ==> ((y >> ju) & 1u64
                == 1u64)) by (bit_vector);
        }
    } else {
        let d = x & !y;
        assert(x & y != x ==> (x & !y) != 0u64) by (bit_vector);
        lemma_word_nonzero_has_bit(d);
        let j = choose|j: nat| j < 64 && #[trigger] word_bit(d, j);
        let ju = j as u64;
        assert((ju < 64 && ((x & !y) >> ju) & 1u64 == 1u64) ==> ((x >> ju) & 1u64 == 1u64 && ((y
            >> ju) & 1u64) != 1u64)) by (bit_vector);
        assert(word_bit(x, j) && !word_bit(y, j));
    }
}

pub proof fn lemma_word_weight_le(x: u64)
    ensures
        word_weight(x) <= 64,
{
    lemma_count_below_le(x, 64);
}

/// A word's population count is zero exactly when the word is zero.
pub proof fn lemma_word_weight_zero_iff(x: u64)
    ensures
        (word_weight(x) == 0) <==> (x == 0),
{
    lemma_count_zero_iff(x, 64);
    lemma_word_nonzero_has_bit(x);
}

/// OR-ing can only grow a word's population count, and by at most the
/// population count of the word OR-ed in.
pub proof fn lemma_word_weight_or(x: u64, y: u64)
    ensures
        word_weight(x) <= word_weight(x | y),
        word_weight(x | y) <= word_weight(x) + word_weight(y),
{
    assert forall|j: nat| j < 64 && #[trigger] word_bit(x, j) implies word_bit(x | y, j) by {
        lemma_bit_or(x, y, j);
    }
    lemma_count_subset(x, x | y, 64);
    lemma_count_or_le(x, y, 64);
}

pub proof fn lemma_word_weight_single(p: nat)
    requires
        p < 64,
    ensures
        word_weight(1u64 << (p as u64)) == 1,
{
    lemma_count_single(p, 64);
}

/// True when bit `i` of the word sequence `s` is set. Positions beyond the
/// stored words are clear.
pub open spec fn seq_bit(s: Seq<u64>, i: nat) -> bool {
    i / 64 < s.len() && word_bit(s[(i / 64) as int], i % 64)
}

/// Total number of set bits of a word sequence.
pub open spec fn weight(s: Seq<u64>) -> nat
    decreases s.len(),
{
    if s.len() == 0 {
        0
    } else {
        weight(s.drop_last()) + word_weight(s.last())
    }
}

/// Every set bit of `a` is also set in `b`.
pub open spec fn subset_bits(a: Seq<u64>, b: Seq<u64>) -> bool {
    forall|i: nat| #[trigger] seq_bit(a, i) ==> seq_bit(b, i)
}

/// All stored words are zero: the vector stands for the empty bit set.
pub open spec fn is_zero_bits(s: Seq<u64>) -> bool {
    forall|k: int| 0 <= k < s.len() ==> s[k] == 0u64
}

/// The word-wise AND of two sequences, truncated to the shorter one.
pub open spec fn and_words(a: Seq<u64>, b: Seq<u64>) -> Seq<u64> {
    Seq::new(
        if a.len() <= b.len() {
            a.len()
        } else {
            b.len()
        },
        |k: int| a[k] & b[k],
    )
}

/// Number of bit positions set in both sequences.
pub open spec fn inter_weight(a: Seq<u64>, b: Seq<u64>) -> nat {
    weight(and_words(a, b))
}

/// Bit `64 * wi + j` of a sequence lies in word `wi` at offset `j`.
pub proof fn lemma_bit_index(wi: nat, j: nat)
    requires
        j < 64,
    ensures
        (64 * wi + j) / 64 == wi,
        (64 * wi + j) % 64 == j,
{
    lemma_fundamental_div_mod_converse((64 * wi + j) as int, 64, wi as int, j as int);
}

/// A bit position splits into its word index and offset.
pub proof fn lemma_bit_split(i: nat)
    ensures
        i == 64 * (i / 64) + i % 64,
        i % 64 < 64,
{
    lemma_fundamental_div_mod(i as int, 64);
    lemma_mod_division_less_than_divisor(i as int, 64);
}

pub proof fn lemma_weight_take(s: Seq<u64>, k: nat)
    requires
        k <= s.len(),
    ensures
        weight(s.take(k as int)) <= weight(s),
    decreases s.len(),
{
    if k == s.len() {
        assert(s.take(k as int) =~= s);
    } else {
        assert(s.take(k as int) =~= s.drop_last().take(k as int));
        lemma_weight_take(s.drop_last(), k);
    }
}

pub proof fn lemma_weight_take_succ(s: Seq<u64>, k: nat)
    requires
        k < s.len(),
    ensures
        weight(s.take(k + 1 as int)) == weight(s.take(k as int)) + word_weight(s[k as int]),
{
    assert(s.take(k + 1 as int).drop_last() =~= s.take(k as int));
    assert(s.take(k + 1 as int).last() == s[k as int]);
}

/// Replacing one word changes the total weight by the difference of the
/// word weights.
pub proof fn lemma_weight_update(s: Seq<u64>, k: nat, v: u64)
    requires
        k < s.len(),
    ensures
        weight(s.update(k as int, v)) + word_weight(s[k as int]) == weight(s) + word_weight(v),
    decreases s.len(),
{
    let t = s.update(k as int, v);
    if k == s.len() - 1 {
        assert(t.drop_last() =~= s.drop_last());
        assert(t.last() == v);
    } else {
        assert(t.drop_last() =~= s.drop_last().update(k as int, v));
        assert(t.last() == s.last());
        lemma_weight_update(s.drop_last(), k, v);
    }
}

pub proof fn lemma_weight_ge_word(s: Seq<u64>, k: nat)
    requires
        k < s.len(),
    ensures
        weight(s) >= word_weight(s[k as int]),
    decreases s.len(),
{
    if k < s.len() - 1 {
        lemma_weight_ge_word(s.drop_last(), k);
    }
}

/// A sequence of zero words has no set bits and weight zero.
pub proof fn lemma_weight_zero(s: Seq<u64>)
    requires
        is_zero_bits(s),
    ensures
        weight(s) == 0,
    decreases s.len(),
{
    if s.len() > 0 {
        lemma_word_weight_zero_iff(s.last());
        lemma_weight_zero(s.drop_last());
    }
}

pub proof fn lemma_zero_no_bits(s: Seq<u64>)
    requires
        is_zero_bits(s),
    ensures
        forall|i: nat| !(#[trigger] seq_bit(s, i)),
{
    assert forall|i: nat| !(#[trigger] seq_bit(s, i)) by {
        if i / 64 < s.len() {
            lemma_bit_split(i);
            lemma_zero_word_no_bit(i % 64);
        }
    }
}

/// A set bit forces a positive weight.
pub proof fn lemma_seq_bit_weight(s: Seq<u64>, i: nat)
    requires
        seq_bit(s, i),
    ensures
        weight(s) >= 1,
{
    lemma_bit_split(i);
    lemma_count_zero_iff(s[(i / 64) as int], 64);
    lemma_weight_ge_word(s, i / 64);
}

/// A positive weight yields a set bit.
pub proof fn lemma_weight_pos_bit(s: Seq<u64>)
    requires
        weight(s) >= 1,
    ensures
        exists|i: nat| #[trigger] seq_bit(s, i),
    decreases s.len(),
{
    if word_weight(s.last()) >= 1 {
        lemma_count_zero_iff(s.last(), 64);
        let j = choose|j: nat| j < 64 && #[trigger] word_bit(s.last(), j);
        let wi = (s.len() - 1) as nat;
        let i = 64 * wi + j;
        lemma_bit_index(wi, j);
        assert(seq_bit(s, i));
    } else {
        lemma_weight_pos_bit(s.drop_last());
        let i = choose|i: nat| #[trigger] seq_bit(s.drop_last(), i);
        assert(seq_bit(s, i));
    }
}

/// Bits of the word-wise AND are exactly the common bits.
pub proof fn lemma_and_words_bit(a: Seq<u64>, b: Seq<u64>, i: nat)
    ensures
        seq_bit(and_words(a, b), i) == (seq_bit(a, i) && seq_bit(b, i)),
{
    lemma_bit_split(i);
    let c = and_words(a, b);
    if i / 64 < c.len() {
        lemma_bit_and(a[(i / 64) as int], b[(i / 64) as int], i % 64);
    }
}

/// AND-ing with the empty bit set leaves nothing.
pub proof fn lemma_inter_weight_zero(a: Seq<u64>, b: Seq<u64>)
    requires
        is_zero_bits(b),
    ensures
        inter_weight(a, b) == 0,
{
    let c = and_words(a, b);
    assert forall|k: int| 0 <= k < c.len() implies c[k] == 0u64 by {
        let x = a[k];
        assert(x & 0u64 == 0u64) by (bit_vector);
    }
    lemma_weight_zero(c);
}

/// Common bits of two sequences number at least one exactly when a common
/// set bit exists.
pub proof fn lemma_inter_weight_pos(a: Seq<u64>, b: Seq<u64>)
    ensures
        (inter_weight(a, b) >= 1) <==> (exists|i: nat|
            #[trigger] seq_bit(a, i) && seq_bit(b, i)),
{
    let c = and_words(a, b);
    if weight(c) >= 1 {
        lemma_weight_pos_bit(c);
        let i = choose|i: nat| #[trigger] seq_bit(c, i);
        lemma_and_words_bit(a, b, i);
        assert(seq_bit(a, i) && seq_bit(b, i));
    }
    if exists|i: nat| #[trigger] seq_bit(a, i) && seq_bit(b, i) {
        let i = choose|i: nat| #[trigger] seq_bit(a, i) && seq_bit(b, i);
        lemma_and_words_bit(a, b, i);
        lemma_seq_bit_weight(c, i);
    }
}

/// Population count of a single word, by a per-bit loop.
pub fn popcount(w: u64) -> (n: u32)
    ensures
        n == word_weight(w),
{
    let mut n: u32 = 0;
    for j in 0..64u64
        invariant
            n == count_below(w, j as nat),
            n <= j,
    {
        let b: u64 = (w >> j) & 1u64;
        proof {
            assert((w >> j) & 1u64 == 0u64 || (w >> j) & 1u64 == 1u64) by (bit_vector);
            lemma_count_below_le(w, j as nat);
        }
        n = n + b as u32;
    }
    n
}

/// A fault or check vector: a growable bit set over `[0, 64 * words)`.
///
/// Bit `i` set in a mutant's vector means the mutant corrupts condition `i`;
/// set in a test's vector it means the test checks condition `i`.
#[derive(Debug)]
pub struct BitVec {
    words: Vec<u64>,
}

impl View for BitVec {
    type V = Seq<u64>;

    closed spec fn view(&self) -> Seq<u64> {
        self.words@
    }
}

impl BitVec {
    /// The empty bit set over `nwords` words.
    pub fn new_zero(nwords: usize) -> (r: BitVec)
        ensures
            r@.len() == nwords,
            is_zero_bits(r@),
    {
        let mut words: Vec<u64> = Vec::new();
        for k in 0..nwords
            invariant
                words@.len() == k,
                is_zero_bits(words@),
        {
            words.push(0u64);
        }
        BitVec { words }
    }

    /// A bit set from its raw words, word `0` holding bits `0` to `63`.
    pub fn from_words(words: Vec<u64>) -> (r: BitVec)
        ensures
            r@ == words@,
    {
        BitVec { words }
    }

    pub fn word_count(&self) -> (n: usize)
        ensures
            n == self@.len(),
    {
        self.words.len()
    }

    pub fn word(&self, k: usize) -> (w: u64)
        requires
            k < self@.len(),
        ensures
            w == self@[k as int],
    {
        self.words[k]
    }

    /// Whether bit `pos` is set; positions beyond the stored words are clear.
    pub fn get_bit(&self, pos: usize) -> (b: bool)
        ensures
            b == seq_bit(self@, pos as nat),
    {
        let wi = pos / 64;
        proof {
            lemma_bit_split(pos as nat);
        }
        if wi >= self.words.len() {
            false
        } else {
            (self.words[wi] >> ((pos % 64) as u64)) & 1u64 == 1u64
        }
    }

    /// Set bit `pos`. The new bit set is the old one with `pos` added, so
    /// the weight grows by at most one and never shrinks.
    pub fn set_bit(&mut self, pos: usize)
        requires
            (pos as nat) / 64 < old(self)@.len(),
        ensures
            final(self)@.len() == old(self)@.len(),
            forall|i: nat|
                #[trigger] seq_bit(final(self)@, i) == (seq_bit(old(self)@, i) || i == pos),
            seq_bit(final(self)@, pos as nat),
            weight(old(self)@) <= weight(final(self)@),
            weight(final(self)@) <= weight(old(self)@) + 1,
    {
        let ghost s = self.words@;
        let wi = pos / 64;
        let j = pos % 64;
        proof {
            lemma_bit_split(pos as nat);
        }
        let w = self.words[wi];
        let nw = w | (1u64 << (j as u64));
        self.words.set(wi, nw);
        proof {
            let ghost t = self.words@;
            assert(t == s.update(wi as int, nw));
            lemma_weight_update(s, wi as nat, nw);
            lemma_word_weight_or(w, 1u64 << (j as u64));
            lemma_word_weight_single(j as nat);
            assert forall|i: nat| #[trigger] seq_bit(t, i) == (seq_bit(s, i) || i == pos) by {
                lemma_bit_split(i);
                if i / 64 < t.len() {
                    if i / 64 == wi as nat {
                        lemma_bit_or(w, 1u64 << (j as u64), i % 64);
                        lemma_bit_single(j as nat, i % 64);
                        assert(i % 64 == j as nat ==> i == pos) by {
                            lemma_bit_split(pos as nat);
                        }
                    } else {
                        assert(t[(i / 64) as int] == s[(i / 64) as int]);
                    }
                }
            }
            assert(seq_bit(t, pos as nat)) by {
                lemma_bit_or(w, 1u64 << (j as u64), j as nat);
                lemma_bit_single(j as nat, j as nat);
            }
        }
    }
}

/// Total number of set bits of a vector: its population count.
pub fn hamming_wt(bignum: &BitVec) -> (n: usize)
    requires
        64 * bignum@.len() <= usize::MAX,
    ensures
        n == weight(bignum@),
{
    let ghost s = bignum@;
    let mut n: usize = 0;
    let nwords = bignum.word_count();
    for k in 0..nwords
        invariant
            nwords == s.len(),
            64 * s.len() <= usize::MAX,
            n == weight(s.take(k as int)),
            n <= 64 * k,
            bignum@ == s,
    {
        let c = popcount(bignum.word(k));
        proof {
            lemma_word_weight_le(s[k as int]);
            lemma_weight_take_succ(s, k as nat);
        }
        n = n + c as usize;
    }
    proof {
        assert(s.take(nwords as int) =~= s);
    }
    n
}

/// Whether every bit set in `mutant` is also set in `test`: the coverage
/// interpretation of killing.
pub fn covers(test: &BitVec, mutant: &BitVec) -> (b: bool)
    ensures
        b == subset_bits(mutant@, test@),
{
    let ghost ms = mutant@;
    let ghost ts = test@;
    let nwords = mutant.word_count();
    for k in 0..nwords
        invariant
            nwords == ms.len(),
            mutant@ == ms,
            test@ == ts,
            forall|wi: nat, j: nat|
                wi < k && j < 64 && #[trigger] word_bit(ms[wi as int], j) ==> (wi < ts.len()
                    && word_bit(ts[wi as int], j)),
    {
        let mw = mutant.word(k);
        let tw = if k < test.word_count() {
            test.word(k)
        } else {
            0u64
        };
        if mw & tw != mw {
            proof {
                lemma_word_subset(mw, tw);
                let j = choose|j: nat| j < 64 && #[trigger] word_bit(mw, j) && !word_bit(tw, j);
                let i = 64 * (k as nat) + j;
                lemma_bit_index(k as nat, j);
                assert(seq_bit(ms, i));
                assert(!seq_bit(ts, i));
                assert(!subset_bits(ms, ts));
            }
            return false;
        }
        proof {
            lemma_word_subset(mw, tw);
            if (k as nat) >= ts.len() {
                assert forall|j: nat| j < 64 implies !(#[trigger] word_bit(mw, j)) by {
                    lemma_zero_word_no_bit(j);
                }
            }
        }
    }
    proof {
        assert forall|i: nat| #[trigger] seq_bit(ms, i) implies seq_bit(ts, i) by {
            lemma_bit_split(i);
        }
    }
    true
}

/// Whether the bits common to `test` and `mutant` number at least `k`: the
/// graded interpretation of killing, with early exit once `k` is reached.
pub fn and_weight_at_least(test: &BitVec, mutant: &BitVec, k: usize) -> (b: bool)
    requires
        k >= 1,
    ensures
        b == (inter_weight(test@, mutant@) >= k),
{
    let ghost ts = test@;
    let ghost ms = mutant@;
    let ghost c = and_words(ts, ms);
    let n = if test.word_count() <= mutant.word_count() {
        test.word_count()
    } else {
        mutant.word_count()
    };
    let mut acc: usize = 0;
    for wi in 0..n
        invariant
            n == c.len(),
            test@ == ts,
            mutant@ == ms,
            c == and_words(ts, ms),
            k >= 1,
            acc == weight(c.take(wi as int)),
            acc < k,
    {
        let cw = popcount(test.word(wi) & mutant.word(wi));
        proof {
            lemma_weight_take_succ(c, wi as nat);
            assert(c[wi as int] == ts[wi as int] & ms[wi as int]);
        }
        if (cw as usize) >= k - acc {
            proof {
                lemma_weight_take(c, (wi + 1) as nat);
            }
            return true;
        }
        acc = acc + cw as usize;
    }
    proof {
        assert(c.take(n as int) =~= c);
    }
    false
}

} // verus!
