//! Integer logarithms and powers of two used by the allocators.
use vstd::prelude::*;
use vstd::arithmetic::power2::{pow2, lemma_pow2_unfold, lemma_pow2_pos};

verus! {

/// `log2_floor(x)` is the largest `k` with `2^k <= x` (and 0 for `x < 2`).
pub open spec fn log2_floor(x: nat) -> nat
    decreases x,
{
    if x < 2 {
        0
    } else {
        1 + log2_floor(x / 2)
    }
}

/// The floor logarithm is bracketed by consecutive powers of two.
pub proof fn lemma_log2_floor_bounds(x: nat)
    requires
        x >= 1,
    ensures
        pow2(log2_floor(x)) <= x < pow2(log2_floor(x) + 1),
    decreases x,
{
    lemma_pow2_unfold(log2_floor(x) + 1);
    if x < 2 {
        lemma_pow2_unfold(1);
        vstd::arithmetic::power2::lemma2_to64();
    } else {
        lemma_log2_floor_bounds(x / 2);
        lemma_pow2_unfold(log2_floor(x));
    }
}

/// `2^k <= x < 2^(k+1)` determines `log2_floor(x)`.
pub proof fn lemma_log2_floor_unique(x: nat, k: nat)
    requires
        pow2(k) <= x < pow2(k + 1),
    ensures
        log2_floor(x) == k,
    decreases k,
{
    lemma_pow2_unfold(k + 1);
    lemma_pow2_pos(k);
    if k == 0 {
        vstd::arithmetic::power2::lemma2_to64();
    } else {
        lemma_pow2_unfold(k);
        lemma_log2_floor_unique(x / 2, (k - 1) as nat);
    }
}

/// Floor of the base-2 logarithm of a non-zero integer (what `usize::ilog2` computes).
pub fn floor_log2(x: usize) -> (r: u32)
    requires
        x > 0,
    ensures
        r == log2_floor(x as nat),
        r < 64,
{
    proof {
        lemma_log2_floor_below_64(x as nat);
    }
    let mut y: usize = x;
    let mut r: u32 = 0;
    while y > 1
        invariant
            1 <= y <= x,
            r + log2_floor(y as nat) == log2_floor(x as nat),
            log2_floor(x as nat) < 64,
        decreases y,
    {
        y = y / 2;
        r = r + 1;
    }
    r
}

/// Any value below `2^64` has a floor logarithm below 64.
pub proof fn lemma_log2_floor_below_64(x: nat)
    requires
        1 <= x <= u64::MAX,
    ensures
        log2_floor(x) < 64,
{
    lemma_log2_floor_bounds(x);
    vstd::arithmetic::power2::lemma2_to64();
    vstd::arithmetic::power2::lemma2_to64_rest();
    if log2_floor(x) >= 64 {
        if log2_floor(x) > 64 {
            vstd::arithmetic::power2::lemma_pow2_strictly_increases(64, log2_floor(x));
        }
    }
}

} // verus!

verus! {

/// Number of trailing zero bits of `x` in a `usize` (all of them for 0).
pub open spec fn trailing_zeros_of(x: nat) -> nat
    decreases x,
{
    if x == 0 {
        usize::BITS as nat
    } else if x % 2 == 1 {
        0
    } else {
        1 + trailing_zeros_of(x / 2)
    }
}

/// Trailing zero bits of `x` (what `usize::trailing_zeros` computes).
pub fn trailing_zeros(x: usize) -> (r: u32)
    ensures
        r == trailing_zeros_of(x as nat),
{
    if x == 0 {
        return usize::BITS;
    }
    let mut y: usize = x;
    let mut r: u32 = 0;
    proof {
        vstd::arithmetic::power2::lemma2_to64();
        assert(pow2(0) * x == x) by (nonlinear_arith)
            requires
                pow2(0) == 1,
        ;
    }
    while y % 2 == 0
        invariant
            y >= 1,
            y <= x,
            r + trailing_zeros_of(y as nat) == trailing_zeros_of(x as nat),
            r <= 64,
            pow2(r as nat) * y == x,
        decreases y,
    {
        proof {
            lemma_pow2_unfold((r + 1) as nat);
            assert(pow2((r + 1) as nat) * (y / 2) == pow2(r as nat) * y) by (nonlinear_arith)
                requires
                    pow2((r + 1) as nat) == 2 * pow2(r as nat),
                    y % 2 == 0,
            ;
            if r >= 63 {
                vstd::arithmetic::power2::lemma2_to64();
                vstd::arithmetic::power2::lemma2_to64_rest();
                if r > 63 {
                    vstd::arithmetic::power2::lemma_pow2_strictly_increases(63, r as nat);
                }
                assert(pow2(r as nat) * y >= 2 * pow2(r as nat)) by (nonlinear_arith)
                    requires
                        y >= 2,
                        pow2(r as nat) > 0,
                ;
            }
        }
        y = y / 2;
        r = r + 1;
    }
    r
}

/// `base^exp` with the result known to fit (what `usize::pow` computes).
pub fn pow_usize(base: usize, exp: u32) -> (r: usize)
    requires
        vstd::arithmetic::power::pow(base as int, exp as nat) <= usize::MAX,
    ensures
        r == vstd::arithmetic::power::pow(base as int, exp as nat),
{
    let mut r: usize = 1;
    let mut i: u32 = 0;
    proof {
        vstd::arithmetic::power::lemma_pow0(base as int);
    }
    while i < exp
        invariant
            i <= exp,
            r == vstd::arithmetic::power::pow(base as int, i as nat),
            vstd::arithmetic::power::pow(base as int, exp as nat) <= usize::MAX,
        decreases exp - i,
    {
        proof {
            vstd::arithmetic::power::lemma_pow_adds(base as int, i as nat, 1);
            vstd::arithmetic::power::lemma_pow1(base as int);
            if base > 0 {
                vstd::arithmetic::power::lemma_pow_increases(base as nat, (i + 1) as nat, exp as nat);
            } else {
                vstd::arithmetic::power::lemma0_pow((i + 1) as nat);
            }
        }
        r = r * base;
        i = i + 1;
    }
    r
}

} // verus!
