//! Randomized generation of mutant and test vectors.
//!
//! A generated vector draws a requested cardinality `k` uniformly from
//! `[1, max_cardinality]`, then sets `k` positions drawn uniformly from
//! `[0, bitlen)`; repeated positions collapse, so the realized population
//! count lies in `[1, k]`.

use vstd::prelude::*;
use crate::bitvec::BitVec;
use crate::bitvec::is_zero_bits;
use crate::bitvec::lemma_seq_bit_weight;
use crate::bitvec::seq_bit;
use crate::bitvec::weight;

verus! {

/// Relies on rand::random_range (through the thread-local generator): a
/// uniform draw from the given range, which panics only when the range is
/// empty.
#[verifier::external_body]
fn rand_below(n: usize) -> (r: usize)
    requires
        n >= 1,
    ensures
        r < n,
{
    rand::random_range(0..n)
}

/// A generated vector: at least one and at most `maxcard` set bits, all of
/// them below `len`.
pub open spec fn gen_vec_ok(v: BitVec, len: nat, maxcard: nat) -> bool {
    &&& 1 <= weight(v@)
    &&& weight(v@) <= maxcard
    &&& forall|i: nat| #[trigger] seq_bit(v@, i) ==> i < len
}

/// Draw a random bit vector over `[0, bitlen)`: between `1` and `nflipped`
/// positions are requested and OR-ed together.
pub fn genbits(bitlen: usize, nflipped: usize) -> (r: BitVec)
    requires
        bitlen >= 1,
        nflipped >= 1,
    ensures
        gen_vec_ok(r, bitlen as nat, nflipped as nat),
        r@.len() == (bitlen + 63) / 64,
{
    let nwords = (bitlen - 1) / 64 + 1;
    proof {
        vstd::arithmetic::div_mod::lemma_fundamental_div_mod((bitlen - 1) as int, 64);
        vstd::arithmetic::div_mod::lemma_mod_division_less_than_divisor((bitlen - 1) as int, 64);
        vstd::arithmetic::div_mod::lemma_fundamental_div_mod_converse(
            (bitlen + 63) as int,
            64,
            ((bitlen - 1) / 64 + 1) as int,
            ((bitlen - 1) % 64) as int,
        );
    }
    let mut m = BitVec::new_zero(nwords);
    proof {
        crate::bitvec::lemma_weight_zero(m@);
        crate::bitvec::lemma_zero_no_bits(m@);
    }
    let faulty_bits = 1 + rand_below(nflipped);
    for d in 0..faulty_bits
        invariant
            nflipped >= 1,
            bitlen >= 1,
            faulty_bits <= nflipped,
            m@.len() == nwords,
            64 * nwords >= bitlen,
            weight(m@) <= d,
            d >= 1 ==> weight(m@) >= 1,
            forall|i: nat| #[trigger] seq_bit(m@, i) ==> i < bitlen,
    {
        let pos = rand_below(bitlen);
        proof {
            vstd::arithmetic::div_mod::lemma_multiply_divide_lt(pos as int, 64, nwords as int);
        }
        m.set_bit(pos);
        proof {
            lemma_seq_bit_weight(m@, pos as nat);
        }
    }
    m
}

/// Draw `num` independent random vectors over `[0, len)` with requested
/// cardinality at most `nflipped` each.
pub fn gen_lst(num: usize, len: usize, nflipped: usize) -> (r: Vec<BitVec>)
    requires
        num > 0 ==> len >= 1 && nflipped >= 1,
    ensures
        r@.len() == num,
        forall|k: int| 0 <= k < num ==> gen_vec_ok(#[trigger] r@[k], len as nat, nflipped as nat),
{
    let mut r: Vec<BitVec> = Vec::new();
    for n in 0..num
        invariant
            num > 0 ==> len >= 1 && nflipped >= 1,
            r@.len() == n,
            forall|k: int|
                0 <= k < n ==> gen_vec_ok(#[trigger] r@[k], len as nat, nflipped as nat),
    {
        r.push(genbits(len, nflipped));
    }
    r
}

/// The mutant pool's generated part: `nmutants` random fault vectors.
pub fn gen_mutants(nmutants: usize, programlen: usize, nfaults: usize) -> (r: Vec<BitVec>)
    requires
        nmutants > 0 ==> programlen >= 1 && nfaults >= 1,
    ensures
        r@.len() == nmutants,
        forall|k: int|
            0 <= k < nmutants ==> gen_vec_ok(#[trigger] r@[k], programlen as nat, nfaults as nat),
{
    gen_lst(nmutants, programlen, nfaults)
}

/// The test suite: `ntests` random check vectors.
pub fn gen_tests(ntests: usize, programlen: usize, nchecks: usize) -> (r: Vec<BitVec>)
    requires
        ntests > 0 ==> programlen >= 1 && nchecks >= 1,
    ensures
        r@.len() == ntests,
        forall|k: int|
            0 <= k < ntests ==> gen_vec_ok(#[trigger] r@[k], programlen as nat, nchecks as nat),
{
    gen_lst(ntests, programlen, nchecks)
}

/// The equivalent mutants: `size` all-zero vectors, unkillable by
/// construction at any subtlety of at least one.
pub fn zeros(size: usize) -> (r: Vec<BitVec>)
    ensures
        r@.len() == size,
        forall|k: int| 0 <= k < size ==> is_zero_bits(#[trigger] r@[k]@),
{
    let mut r: Vec<BitVec> = Vec::new();
    for n in 0..size
        invariant
            r@.len() == n,
            forall|k: int| 0 <= k < n ==> is_zero_bits(#[trigger] r@[k]@),
    {
        r.push(BitVec::new_zero(0));
    }
    r
}

} // verus!
