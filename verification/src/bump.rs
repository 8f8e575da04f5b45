//! The bump allocator that hands out the kernel's early bookkeeping memory.
use vstd::prelude::*;
use vstd::arithmetic::power2::pow2;
use vstd::bits::{low_bits_mask, lemma_usize_low_bits_mask_is_mod};

verus! {

/// A region `[start, end)` of kernel memory from which blocks are taken in
/// address order; `current` is the first address not yet handed out.
pub struct BumpAllocator {
    pub start: usize,
    pub end: usize,
    pub current: usize,
}

/// The address `k_alloc` places a block at: `current` rounded by the mask
/// `!(align - 1)` after adding `align - 1`.
pub open spec fn mask_align_up(current: usize, align: usize) -> usize
    recommends
        align >= 1,
        current + align <= usize::MAX,
{
    ((current + align - 1) as usize) & !((align - 1) as usize)
}

impl BumpAllocator {
    /// An allocator over the `size` bytes starting at `start`.
    pub fn new(start: usize, size: usize) -> (r: Self)
        requires
            start + size <= usize::MAX,
        ensures
            r.start == start,
            r.end == start + size,
            r.current == start,
    {
        BumpAllocator { start, end: start + size, current: start }
    }

    /// Hands out `size` bytes at the next address allowed by `align`, or
    /// `None` (leaving the allocator unchanged) when they do not fit before
    /// `end`.
    pub fn k_alloc(&mut self, size: usize, align: usize) -> (r: Option<usize>)
        requires
            align >= 1,
            old(self).current + align <= usize::MAX,
            mask_align_up(old(self).current, align) + size <= usize::MAX,
        ensures
            final(self).start == old(self).start,
            final(self).end == old(self).end,
            mask_align_up(old(self).current, align) + size > old(self).end ==> r is None
                && final(self).current == old(self).current,
            mask_align_up(old(self).current, align) + size <= old(self).end ==> r == Some(
                mask_align_up(old(self).current, align),
            ) && final(self).current == mask_align_up(old(self).current, align) + size,
    {
        let addr = (self.current + align - 1) & !(align - 1);
        if addr + size > self.end {
            return None;
        }
        self.current = addr + size;
        Some(addr)
    }
}

/// For a power-of-two alignment the mask rounding yields the least multiple
/// of the alignment that is not below `current`.
pub proof fn lemma_mask_align_up_pow2(current: usize, n: nat)
    requires
        n < 64,
        pow2(n) <= usize::MAX,
        current + pow2(n) - 1 <= usize::MAX,
    ensures
        ({
            let a = mask_align_up(current, pow2(n) as usize);
            &&& (a as nat) % pow2(n) == 0
            &&& current <= a < current + pow2(n)
        }),
{
    vstd::arithmetic::power2::lemma_pow2_pos(n);
    let align = pow2(n) as usize;
    let x = (current + align - 1) as usize;
    let m = (align - 1) as usize;
    assert(low_bits_mask(n) == pow2(n) - 1);
    if n < usize::BITS {
        lemma_usize_low_bits_mask_is_mod(x, n);
    } else {
        vstd::arithmetic::power2::lemma2_to64();
        vstd::arithmetic::power2::lemma2_to64_rest();
        if n > 32 {
            vstd::arithmetic::power2::lemma_pow2_strictly_increases(32, n);
        }
        assert(usize::BITS == 32);
        assert(false);
    }
    assert(x & m == x % (align as usize));
    assert(x & !m == x - (x & m)) by (bit_vector);
    vstd::arithmetic::div_mod::lemma_fundamental_div_mod(x as int, align as int);
    vstd::arithmetic::div_mod::lemma_mod_multiples_basic(x as int / align as int, align as int);
    assert((x - x % align) == align * (x / align));
    vstd::arithmetic::mul::lemma_mul_is_commutative(align as int, x as int / align as int);
}

/// Rounding by the mask never moves an address down, whatever the
/// alignment.
pub proof fn lemma_mask_align_up_at_least(current: usize, align: usize)
    requires
        align >= 1,
        current + align <= usize::MAX,
    ensures
        current <= mask_align_up(current, align),
{
    let x = (current + align - 1) as usize;
    let m = (align - 1) as usize;
    assert(x & !m >= x - m) by (bit_vector)
        requires
            x >= m,
    ;
}

/// Blocks handed out by two successive `k_alloc` calls on one allocator do
/// not overlap: the first starts at or after the old `current` and the
/// second starts at or after the end of the first.
pub proof fn lemma_successive_blocks_disjoint(
    current: usize,
    align1: usize,
    size1: usize,
    align2: usize,
    size2: usize,
)
    requires
        align1 >= 1,
        align2 >= 1,
        current + align1 <= usize::MAX,
        mask_align_up(current, align1) + size1 + align2 <= usize::MAX,
    ensures
        ({
            let first = mask_align_up(current, align1);
            let next = (first + size1) as usize;
            &&& current <= first
            &&& first + size1 <= mask_align_up(next, align2)
        }),
{
    lemma_mask_align_up_at_least(current, align1);
    let next = (mask_align_up(current, align1) + size1) as usize;
    lemma_mask_align_up_at_least(next, align2);
}

} // verus!
