//! Counting set bits of a 64-bit word, and the facts about that count that
//! the Hamming-distance contracts rely on.
use vstd::prelude::*;

verus! {

/// Number of set bits among the low `n` bits of `x`.
pub open spec fn popcount_low(x: u64, n: nat) -> nat
    decreases n,
{
    if n == 0 {
        0
    } else {
        popcount_low(x, (n - 1) as nat) + (if (x >> ((n - 1) as u64)) & 1 == 1 {
            1nat
        } else {
            0nat
        })
    }
}

/// Number of set bits of `x`.
pub open spec fn popcount(x: u64) -> nat {
    popcount_low(x, 64)
}

pub proof fn lemma_popcount_low_le(x: u64, n: nat)
    ensures
        popcount_low(x, n) <= n,
    decreases n,
{
    if n > 0 {
        lemma_popcount_low_le(x, (n - 1) as nat);
    }
}

pub proof fn lemma_popcount_low_zero(n: nat)
    ensures
        popcount_low(0, n) == 0,
    decreases n,
{
    if n > 0 {
        lemma_popcount_low_zero((n - 1) as nat);
        let s = (n - 1) as u64;
        assert((0u64 >> s) & 1 == 0) by (bit_vector);
    }
}

/// Counting the set bits of a word together with those of its complement
/// covers each of the low `n` positions exactly once.
pub proof fn lemma_popcount_low_complement(x: u64, n: nat)
    requires
        n <= 64,
    ensures
        popcount_low(x, n) + popcount_low(!x, n) == n,
    decreases n,
{
    if n > 0 {
        lemma_popcount_low_complement(x, (n - 1) as nat);
        let s = (n - 1) as u64;
        assert((((!x) >> s) & 1) + ((x >> s) & 1) == 1) by (bit_vector)
            requires
                s < 64,
        ;
    }
}

/// A word whose low `n` bits hold no set bit vanishes when those bits are
/// shifted into the top of the word.
proof fn lemma_popcount_low_zero_shifts_out(x: u64, n: nat)
    requires
        n <= 64,
        popcount_low(x, n) == 0,
    ensures
        x << ((64 - n) as u64) == 0,
    decreases n,
{
    if n == 0 {
        assert(x << 64u64 == 0) by (bit_vector);
    } else {
        lemma_popcount_low_zero_shifts_out(x, (n - 1) as nat);
        let s = (n - 1) as u64;
        assert((x >> s) & 1 == 0 || (x >> s) & 1 == 1) by (bit_vector);
        assert((64 - (n - 1)) as u64 == (64 - s) as u64);
        assert((64 - n) as u64 == (63 - s) as u64);
        assert((x << ((64 - s) as u64) == 0 && (x >> s) & 1 == 0) ==> x << ((63 - s) as u64)
            == 0) by (bit_vector)
            requires
                s < 64,
        ;
    }
}

pub proof fn lemma_popcount_max(n: nat)
    requires
        n <= 64,
    ensures
        popcount_low(0xffff_ffff_ffff_ffffu64, n) == n,
    decreases n,
{
    if n > 0 {
        lemma_popcount_max((n - 1) as nat);
        let s = (n - 1) as u64;
        assert((0xffff_ffff_ffff_ffffu64 >> s) & 1 == 1) by (bit_vector)
            requires
                s < 64,
        ;
    }
}

/// Only the all-ones word has all 64 bits set.
pub proof fn lemma_popcount_full_is_max(x: u64)
    requires
        popcount(x) == 64,
    ensures
        x == 0xffff_ffff_ffff_ffffu64,
{
    lemma_popcount_low_complement(x, 64);
    lemma_popcount_low_zero_shifts_out(!x, 64);
    assert((!x) << 0u64 == !x) by (bit_vector);
    assert((!x) == 0 ==> x == 0xffff_ffff_ffff_ffffu64) by (bit_vector);
}

} // verus!
