//! The buddy allocator for physical memory.
//!
//! Memory is organised in roots: blocks of `2^order` bytes (`MIN_ORDER <=
//! order <= MAX_ORDER`), each with a bitmap over the implicit binary tree of
//! its sub-blocks down to pages of `2^MIN_ORDER` bytes.  Roots form a list in
//! which the most recently added root comes first.
use vstd::prelude::*;
use vstd::arithmetic::power2::{pow2, lemma_pow2_pos, lemma_pow2_adds, lemma_pow2_strictly_increases};
use vstd::bits::lemma_usize_shl_is_mul;
use crate::buddy_tree::{
    first_descendant, mark_path, on_path, parent, find_free_index_by_bitmap, lemma_first_descendant_zero,
};
use crate::math::{log2_floor, floor_log2, lemma_log2_floor_bounds};
use crate::page_allocator::KernelMemRegion;
use crate::bump::{BumpAllocator, mask_align_up};

verus! {

/// Smallest block handed out: 4 KiB.
pub const MIN_ORDER: u8 = 12;

/// Largest root: 2 MiB.
pub const MAX_ORDER: u8 = 21;

/// `ceil(log2(size))`, with 0 for sizes 0 and 1.
pub open spec fn ceil_log2(size: nat) -> nat {
    if size <= 1 {
        0
    } else {
        log2_floor((size - 1) as nat) + 1
    }
}

/// Number of bitmap entries of a root of the given order: every node of the
/// tree whose leaves are `2^MIN_ORDER`-byte pages.
pub open spec fn tree_len(order: nat) -> nat {
    (2 * pow2((order - MIN_ORDER) as nat) - 1) as nat
}

/// What a root is: where it starts, its order and its tree bitmap.
pub struct RootModel {
    pub start: u64,
    pub order: u8,
    pub bitmap: Seq<bool>,
}

/// A root is well formed: its order is allowed, its bitmap covers its tree and its block fits below `2^64`.
pub open spec fn root_wf(r: RootModel) -> bool {
    &&& MIN_ORDER <= r.order <= MAX_ORDER
    &&& r.bitmap.len() == tree_len(r.order as nat)
    &&& r.start + pow2(r.order as nat) <= u64::MAX
}

/// Node `j` of generation `g` is in the bitmap and unused.
pub open spec fn free_node_at(b: Seq<bool>, g: nat, j: int) -> bool {
    &&& first_descendant(0, g) <= j < first_descendant(0, g) + pow2(g)
    &&& j < b.len()
    &&& !b[j]
}

/// Node `j` is the leftmost unused node of generation `g`.
pub open spec fn is_leftmost_free(b: Seq<bool>, g: nat, j: int) -> bool {
    &&& free_node_at(b, g, j)
    &&& forall|k: int| first_descendant(0, g) <= k < j ==> #[trigger] b[k]
}

/// Generation `g` of the tree has an unused node.
pub open spec fn has_free_at(b: Seq<bool>, g: nat) -> bool {
    exists|j: int| free_node_at(b, g, j)
}

/// The leftmost unused node of generation `g` (meaningful when `has_free_at`).
pub open spec fn leftmost_free(b: Seq<bool>, g: nat) -> int {
    choose|j: int| is_leftmost_free(b, g, j)
}

/// Byte offset, inside a root of the given order, of node `j` of generation `g`.
pub open spec fn block_offset(j: int, g: nat, order: nat) -> int {
    (j - first_descendant(0, g)) * pow2((order - g) as nat)
}

/// A root of order `r.order` can serve a request of order `order`.
pub open spec fn can_serve(r: RootModel, order: nat) -> bool {
    order <= r.order && has_free_at(r.bitmap, (r.order - order) as nat)
}

/// `r` after it served a request of order `order`: the leftmost unused node
/// of the matching generation is taken, with its ancestors.
pub open spec fn served(r: RootModel, order: nat) -> RootModel {
    let g = (r.order - order) as nat;
    RootModel { start: r.start, order: r.order, bitmap: mark_path(r.bitmap, leftmost_free(r.bitmap, g), g) }
}

/// Start address of the block `r` hands out for a request of order `order`.
pub open spec fn served_start(r: RootModel, order: nat) -> int {
    let g = (r.order - order) as nat;
    r.start + block_offset(leftmost_free(r.bitmap, g), g, r.order as nat)
}

/// `i` is the first root of the list that can serve order `order`.
pub open spec fn is_first_server(roots: Seq<RootModel>, order: nat, i: int) -> bool {
    &&& 0 <= i < roots.len()
    &&& can_serve(roots[i], order)
    &&& forall|k: int| 0 <= k < i ==> !#[trigger] can_serve(roots[k], order)
}

/// The first root of the list that can serve order `order` (meaningful when one can).
pub open spec fn first_server(roots: Seq<RootModel>, order: nat) -> int {
    choose|i: int| is_first_server(roots, order, i)
}

/// The leftmost unused node is the one `leftmost_free` names.
pub proof fn lemma_leftmost_free_unique(b: Seq<bool>, g: nat, j: int)
    requires
        is_leftmost_free(b, g, j),
    ensures
        leftmost_free(b, g) == j,
{
    let c = leftmost_free(b, g);
    assert(is_leftmost_free(b, g, c));
    if c < j {
        assert(b[c]);
    } else if j < c {
        assert(b[j]);
    }
}

/// The first root that can serve is the one `first_server` names.
pub proof fn lemma_first_server_unique(roots: Seq<RootModel>, order: nat, i: int)
    requires
        is_first_server(roots, order, i),
    ensures
        first_server(roots, order) == i,
{
    let c = first_server(roots, order);
    assert(is_first_server(roots, order, c));
    if c < i {
        assert(!can_serve(roots[c], order));
    } else if i < c {
        assert(!can_serve(roots[i], order));
    }
}

/// `2^n` for the orders a root can have.
pub proof fn lemma_pow2_small(n: nat)
    requires
        n <= MAX_ORDER,
    ensures
        1 <= pow2(n) <= pow2(MAX_ORDER as nat),
        pow2(MAX_ORDER as nat) == 0x200000,
        pow2(MIN_ORDER as nat) == 0x1000,
{
    vstd::arithmetic::power2::lemma2_to64();
    lemma_pow2_pos(n);
    if n < MAX_ORDER {
        lemma_pow2_strictly_increases(n, MAX_ORDER as nat);
    }
}

/// Bitmap index of the node with generation index `gener_index` (its index
/// among the nodes of its generation) in generation `generation`: the nodes
/// of the generations above come first, `2^generation - 1` of them.
pub open spec fn generation_slot(gener_index: int, generation: nat) -> int {
    pow2(generation) - 1 + gener_index
}

/// Neighbour the freeing walk consults for the node at `slot`.
pub open spec fn buddy_slot(gener_index: int, slot: int) -> int {
    if gener_index % 2 == 0 {
        slot + 1
    } else {
        slot - 1
    }
}

/// Every index the freeing walk starting at (`gener_index`, `generation`)
/// touches lies inside the bitmap.
pub open spec fn freeing_in_bounds(b: Seq<bool>, gener_index: int, generation: nat) -> bool
    decreases generation,
{
    let slot = generation_slot(gener_index, generation);
    let b1 = b.update(slot, false);
    &&& 0 <= gener_index
    &&& 0 <= slot < b.len()
    &&& generation > 0 ==> {
        let buddy = buddy_slot(gener_index, slot);
        &&& 0 <= buddy < b.len()
        &&& !b1[buddy] ==> freeing_in_bounds(b1, gener_index / 2, (generation - 1) as nat)
    }
}

/// The bitmap after the freeing walk: the visited slot is cleared, and the
/// walk moves to the parent generation while the buddy slot is unused.
pub open spec fn freed(b: Seq<bool>, gener_index: int, generation: nat) -> Seq<bool>
    decreases generation,
{
    let slot = generation_slot(gener_index, generation);
    let b1 = b.update(slot, false);
    if generation == 0 {
        b1
    } else if b1[buddy_slot(gener_index, slot)] {
        b1
    } else {
        freed(b1, gener_index / 2, (generation - 1) as nat)
    }
}

/// The freeing walk keeps the bitmap's length.
pub proof fn lemma_freed_len(b: Seq<bool>, gener_index: int, generation: nat)
    requires
        freeing_in_bounds(b, gener_index, generation),
    ensures
        freed(b, gener_index, generation).len() == b.len(),
    decreases generation,
{
    let slot = generation_slot(gener_index, generation);
    let b1 = b.update(slot, false);
    if generation > 0 && !b1[buddy_slot(gener_index, slot)] {
        lemma_freed_len(b1, gener_index / 2, (generation - 1) as nat);
    }
}

/// Generation index of the block at `frame_offset` into the root, for blocks
/// of `2^block_order` bytes: the offset divided by the block size.
pub open spec fn offset_generation_index(frame_offset: u64, block_order: nat) -> usize {
    (frame_offset as nat / pow2(block_order)) as usize
}

/// Root `r`'s range, end included, holds `addr`.
pub open spec fn covers(r: RootModel, addr: u64) -> bool {
    r.start <= addr <= r.start + pow2(r.order as nat)
}

/// The first root of the list whose range holds `addr`.
pub open spec fn is_first_cover(roots: Seq<RootModel>, addr: u64, i: int) -> bool {
    &&& 0 <= i < roots.len()
    &&& covers(roots[i], addr)
    &&& forall|k: int| 0 <= k < i ==> !#[trigger] covers(roots[k], addr)
}

/// Bytes of kernel memory taken for each root's record: a list link, the
/// start address, the bitmap slice and the order.
pub const ROOT_RECORD_BYTES: usize = 48;

/// Alignment of that record.
pub const ROOT_RECORD_ALIGN: usize = 8;

/// Order of the next root carved from a region of `size` bytes.
pub open spec fn root_order_for(size: nat) -> nat {
    if log2_floor(size) > MAX_ORDER {
        MAX_ORDER as nat
    } else {
        log2_floor(size)
    }
}

/// A fresh root: every node unused.
pub open spec fn fresh_root(start: nat, order: nat) -> RootModel {
    RootModel { start: start as u64, order: order as u8, bitmap: Seq::new(tree_len(order), |i: int| false) }
}

/// The root list after adding the region of `size` bytes at `start`: roots
/// of the largest allowed order are carved off in address order, each put at
/// the front of the list, until less than `2^MIN_ORDER` bytes remain.
pub open spec fn roots_after_region(roots: Seq<RootModel>, start: nat, size: nat) -> Seq<RootModel>
    decreases size,
{
    if size == 0 || log2_floor(size) < MIN_ORDER {
        roots
    } else {
        let o = root_order_for(size);
        if 1 <= pow2(o) <= size {
            roots_after_region(
                seq![fresh_root(start, o)] + roots,
                start + pow2(o),
                (size - pow2(o)) as nat,
            )
        } else {
            roots
        }
    }
}

/// The kernel bump allocator has room, from `current` to `end`, for the root
/// records and bitmaps that adding a region of `size` bytes takes.
pub open spec fn region_bookkeeping_fits(current: usize, end: usize, size: nat) -> bool
    decreases size,
{
    if size == 0 || log2_floor(size) < MIN_ORDER {
        true
    } else {
        let o = root_order_for(size);
        let after_record = mask_align_up(current, ROOT_RECORD_ALIGN) + ROOT_RECORD_BYTES;
        let after_bitmap = mask_align_up(after_record as usize, 1) + tree_len(o);
        &&& current + ROOT_RECORD_ALIGN <= usize::MAX
        &&& after_record <= end
        &&& after_record + 1 <= usize::MAX
        &&& after_bitmap <= end
        &&& 1 <= pow2(o) <= size ==> region_bookkeeping_fits(
            after_bitmap as usize,
            end,
            (size - pow2(o)) as nat,
        )
    }
}

/// Where the bump allocator's `current` ends up after adding that region.
pub open spec fn region_bookkeeping_end(current: usize, end: usize, size: nat) -> usize
    decreases size,
{
    if size == 0 || log2_floor(size) < MIN_ORDER {
        current
    } else {
        let o = root_order_for(size);
        let after_record = mask_align_up(current, ROOT_RECORD_ALIGN) + ROOT_RECORD_BYTES;
        let after_bitmap = mask_align_up(after_record as usize, 1) + tree_len(o);
        if 1 <= pow2(o) <= size {
            region_bookkeeping_end(after_bitmap as usize, end, (size - pow2(o)) as nat)
        } else {
            current
        }
    }
}

/// Where the kernel allocator's `current` would end up if a region of
/// `size` bytes were added with bookkeeping taken from `[current, end)`, or
/// `None` when that bookkeeping does not fit (adding the region would run
/// the kernel allocator dry).
pub fn region_bookkeeping(current: usize, end: usize, size: usize) -> (r: Option<usize>)
    ensures
        r is Some <==> region_bookkeeping_fits(current, end, size as nat),
        r matches Some(c) ==> c == region_bookkeeping_end(current, end, size as nat),
{
    let mut cur: usize = current;
    let mut remaining: usize = size;
    while remaining != 0
        invariant
            region_bookkeeping_fits(current, end, size as nat) == region_bookkeeping_fits(cur, end, remaining as nat),
            region_bookkeeping_fits(cur, end, remaining as nat) ==> region_bookkeeping_end(current, end, size as nat)
                == region_bookkeeping_end(cur, end, remaining as nat),
        ensures
            region_bookkeeping_fits(current, end, size as nat),
            region_bookkeeping_end(current, end, size as nat) == cur,
        decreases remaining,
    {
        let mut order = floor_log2(remaining) as u8;
        if order < MIN_ORDER {
            proof {
                assert(region_bookkeeping_fits(cur, end, remaining as nat));
                assert(region_bookkeeping_end(cur, end, remaining as nat) == cur);
            }
            break;
        } else if order > MAX_ORDER {
            order = MAX_ORDER;
        }
        let ghost o = order as nat;
        proof {
            lemma_log2_floor_bounds(remaining as nat);
            if o < log2_floor(remaining as nat) {
                lemma_pow2_strictly_increases(o, log2_floor(remaining as nat));
            }
            lemma_pow2_small(o);
            lemma_pow2_small((o - MIN_ORDER) as nat);
            assert(root_order_for(remaining as nat) == o);
        }
        if cur > usize::MAX - ROOT_RECORD_ALIGN {
            return None;
        }
        let aligned: usize = (cur + ROOT_RECORD_ALIGN - 1) & !(ROOT_RECORD_ALIGN - 1);
        assert(aligned == mask_align_up(cur, ROOT_RECORD_ALIGN));
        if aligned > usize::MAX - ROOT_RECORD_BYTES - 1 || aligned + ROOT_RECORD_BYTES > end {
            return None;
        }
        let after_record: usize = aligned + ROOT_RECORD_BYTES;
        assert(after_record & !0usize == after_record) by (bit_vector);
        assert(mask_align_up(after_record, 1) == after_record);
        proof {
            lemma_usize_shl_is_mul(1, (order - MIN_ORDER) as usize);
        }
        let leaves: usize = 1usize << ((order - MIN_ORDER) as usize);
        let bitmap_len: usize = leaves * 2 - 1;
        assert(bitmap_len == tree_len(o));
        if after_record > end || bitmap_len > end - after_record {
            return None;
        }
        cur = after_record + bitmap_len;
        proof {
            lemma_usize_shl_is_mul(1, order as usize);
        }
        let block: usize = 1usize << (order as usize);
        remaining = remaining - block;
    }
    Some(cur)
}

/// One root of the buddy allocator.
pub struct BuddyRoot {
    pub start: u64,
    pub bitmap: Vec<bool>,
    pub order: u8,
}

impl View for BuddyRoot {
    type V = RootModel;

    open spec fn view(&self) -> RootModel {
        RootModel { start: self.start, order: self.order, bitmap: self.bitmap@ }
    }
}

impl BuddyRoot {
    /// Takes the leftmost unused block of `generation` and returns its byte
    /// offset from the root's start, or `None` when the generation is full.
    fn find_free_block(&mut self, generation: u8) -> (r: Option<usize>)
        requires
            root_wf(old(self)@),
            generation + MIN_ORDER <= old(self).order,
        ensures
            final(self).start == old(self).start,
            final(self).order == old(self).order,
            final(self).bitmap.len() == old(self).bitmap.len(),
            r is None <==> !has_free_at(old(self).bitmap@, generation as nat),
            r is None ==> final(self).bitmap@ == old(self).bitmap@,
            r matches Some(off) ==> {
                let j = leftmost_free(old(self).bitmap@, generation as nat);
                &&& is_leftmost_free(old(self).bitmap@, generation as nat, j)
                &&& off == block_offset(j, generation as nat, old(self).order as nat)
                &&& 0 <= off < pow2(old(self).order as nat)
                &&& final(self).bitmap@ == mark_path(old(self).bitmap@, j, generation as nat)
            },
    {
        let ghost g = generation as nat;
        proof {
            lemma_pow2_small(self.order as nat);
            lemma_pow2_small(g);
            lemma_pow2_small((self.order - generation) as nat);
            lemma_pow2_small((self.order - MIN_ORDER) as nat);
            lemma_pow2_pos((self.order - MIN_ORDER - g) as nat);
            lemma_first_descendant_zero(0);
            lemma_pow2_adds(g, (self.order - MIN_ORDER - g) as nat);
            lemma_pow2_adds(g + 1, (self.order - MIN_ORDER - g) as nat);
            vstd::arithmetic::power2::lemma_pow2_unfold(g + 1);
            assert(first_descendant(0, g) == pow2(g) - 1);
            assert(pow2(g) * pow2((self.order - MIN_ORDER - g) as nat) >= pow2(g)) by (nonlinear_arith)
                requires
                    pow2((self.order - MIN_ORDER - g) as nat) >= 1,
            ;
        }
        let found = find_free_index_by_bitmap(generation, &mut self.bitmap, 0);
        let idx = match found {
            Some(idx) => idx,
            None => {
                proof {
                    if has_free_at(old(self).bitmap@, g) {
                        let j = choose|j: int| free_node_at(old(self).bitmap@, g, j);
                        assert(old(self).bitmap@[j]);
                    }
                }
                return None;
            },
        };
        proof {
            assert(is_leftmost_free(old(self).bitmap@, g, idx as int));
            lemma_leftmost_free_unique(old(self).bitmap@, g, idx as int);
            lemma_usize_shl_is_mul(1, (self.order - generation) as usize);
            lemma_usize_shl_is_mul(1, generation as usize);
            lemma_pow2_adds(g, (self.order - generation) as nat);
        }
        let block_size: usize = 1usize << ((self.order - generation) as usize);
        let local_idx = idx - ((1usize << (generation as usize)) - 1);
        proof {
            assert(local_idx < pow2(g));
            assert(local_idx * block_size < pow2(g) * block_size) by (nonlinear_arith)
                requires
                    local_idx < pow2(g),
                    block_size >= 1,
            ;
        }
        let offset = local_idx * block_size;
        Some(offset)
    }

    /// Gives back the block of `generation` that starts at `frame_start`:
    /// fails when `frame_start` is not aligned to the block size of that
    /// generation, and otherwise runs the freeing walk on the bitmap.
    fn free<'a>(&mut self, generation: u8, frame_start: u64) -> (r: Result<(), DeallocationError<'a>>)
        requires
            root_wf(old(self)@),
            old(self).start <= frame_start,
            generation <= old(self).order,
            (frame_start - old(self).start) % (pow2((old(self).order - generation) as nat) as int) == 0
                ==> freeing_in_bounds(
                old(self).bitmap@,
                offset_generation_index(
                    (frame_start - old(self).start) as u64,
                    (old(self).order - generation) as nat,
                ) as int,
                generation as nat,
            ),
        ensures
            final(self).start == old(self).start,
            final(self).order == old(self).order,
            final(self).bitmap.len() == old(self).bitmap.len(),
            r is Err <==> (frame_start - old(self).start) % (pow2(
                (old(self).order - generation) as nat,
            ) as int) != 0,
            r is Err ==> final(self).bitmap@ == old(self).bitmap@,
            r is Ok ==> final(self).bitmap@ == freed(
                old(self).bitmap@,
                offset_generation_index(
                    (frame_start - old(self).start) as u64,
                    (old(self).order - generation) as nat,
                ) as int,
                generation as nat,
            ),
    {
        let frame_offset = frame_start - self.start;
        proof {
            lemma_pow2_small((self.order - generation) as nat);
            vstd::bits::lemma_u64_shl_is_mul(1, (self.order - generation) as u64);
        }
        let node_size: u64 = 1u64 << ((self.order - generation) as u64);
        if frame_offset % node_size != 0 {
            return Err(
                DeallocationError {
                    error_message: "Frame start address was not aligned on nodes in the provided generation",
                },
            );
        }
        let gen_index = #[verifier::truncate] ((frame_offset / node_size) as usize);
        proof {
            lemma_freed_len(self.bitmap@, gen_index as int, generation as nat);
        }
        recursive_freeing_nodes(&mut self.bitmap, gen_index, generation);
        Ok(())
    }
}

/// Clears the slot of (`generation_index`, `generation`) and, while the buddy
/// slot is unused, continues with the parent generation.
fn recursive_freeing_nodes(bitmap: &mut Vec<bool>, generation_index: usize, generation: u8)
    requires
        generation <= MAX_ORDER,
        freeing_in_bounds(old(bitmap)@, generation_index as int, generation as nat),
    ensures
        final(bitmap)@ == freed(old(bitmap)@, generation_index as int, generation as nat),
    decreases generation,
{
    let ghost slot = generation_slot(generation_index as int, generation as nat);
    assert(0 <= slot < old(bitmap)@.len());
    assert(slot < bitmap.len());
    let bitmap_index = get_index_by_generation_index(generation_index, generation);
    if generation == 0 {
        bitmap.set(bitmap_index, false);
        return;
    }
    assert(0 <= buddy_slot(generation_index as int, slot) < bitmap.len());
    let buddy = if generation_index % 2 == 0 {
        bitmap_index + 1
    } else {
        bitmap_index - 1
    };
    bitmap.set(bitmap_index, false);
    if bitmap[buddy] {
        return;
    } else {
        let parent_index = generation_index / 2;
        recursive_freeing_nodes(bitmap, parent_index, generation - 1);
    }
}

/// The bitmap index of the node with generation index `gener_index` in
/// generation `generation`.
fn get_index_by_generation_index(gener_index: usize, generation: u8) -> (r: usize)
    requires
        generation <= MAX_ORDER,
        generation_slot(gener_index as int, generation as nat) <= usize::MAX,
    ensures
        r == generation_slot(gener_index as int, generation as nat),
{
    proof {
        lemma_pow2_small(generation as nat);
        lemma_usize_shl_is_mul(1, generation as usize);
    }
    (1usize << (generation as usize)) - 1 + gener_index
}

/// `ceil(log2(size))` as an order.
fn calculate_order_ceil(size: usize) -> (r: u8)
    ensures
        r == ceil_log2(size as nat),
        r <= 64,
{
    if size <= 1 {
        0
    } else {
        (floor_log2(size - 1) + 1) as u8
    }
}

/// Error returned when a block cannot be given back.
pub struct DeallocationError<'a> {
    pub error_message: &'a str,
}

/// The buddy allocator: a list of roots, most recently added first.
pub struct BuddyManager {
    roots: Vec<BuddyRoot>,
    k_offset: u64,
}

impl BuddyManager {
    /// The roots, most recently added first.
    pub closed spec fn view(&self) -> Seq<RootModel> {
        self.roots@.map_values(|r: BuddyRoot| r@)
    }

    /// Offset of the kernel's direct map of physical memory.
    pub closed spec fn kernel_offset(&self) -> u64 {
        self.k_offset
    }

    /// Every root is well formed.
    pub open spec fn wf(&self) -> bool {
        forall|i: int| 0 <= i < self@.len() ==> root_wf(#[trigger] self@[i])
    }

    /// An allocator with no memory yet.
    pub fn new(physical_offset: u64) -> (r: Self)
        ensures
            r.wf(),
            r@ == Seq::<RootModel>::empty(),
            r.kernel_offset() == physical_offset,
    {
        let r = BuddyManager { roots: Vec::new(), k_offset: physical_offset };
        assert(r@ =~= Seq::<RootModel>::empty());
        r
    }

    /// Adds the region of `size` bytes at `start_addr`: roots of the largest
    /// order up to `MAX_ORDER` that fit are carved off in address order, each
    /// with a record and a bitmap taken from `kernel_alloc`, until less than
    /// `2^MIN_ORDER` bytes remain; that remainder is ignored.
    pub fn add_region(&mut self, start_addr: u64, size: usize, kernel_alloc: &mut BumpAllocator)
        requires
            old(self).wf(),
            start_addr + size <= u64::MAX,
            region_bookkeeping_fits(old(kernel_alloc).current, old(kernel_alloc).end, size as nat),
        ensures
            final(self).wf(),
            final(self).kernel_offset() == old(self).kernel_offset(),
            final(self)@ == roots_after_region(old(self)@, start_addr as nat, size as nat),
            final(kernel_alloc).start == old(kernel_alloc).start,
            final(kernel_alloc).end == old(kernel_alloc).end,
            final(kernel_alloc).current == region_bookkeeping_end(
                old(kernel_alloc).current,
                old(kernel_alloc).end,
                size as nat,
            ),
    {
        let ghost size0: usize = size;
        let mut curr_addr: u64 = start_addr;
        let mut remaining: usize = size;
        while remaining != 0
            invariant
                self.wf(),
                self.k_offset == old(self).k_offset,
                kernel_alloc.start == old(kernel_alloc).start,
                kernel_alloc.end == old(kernel_alloc).end,
                curr_addr + remaining <= u64::MAX,
                size0 == size,
                roots_after_region(self@, curr_addr as nat, remaining as nat) == roots_after_region(
                    old(self)@,
                    start_addr as nat,
                    size0 as nat,
                ),
                region_bookkeeping_fits(kernel_alloc.current, kernel_alloc.end, remaining as nat),
                region_bookkeeping_end(kernel_alloc.current, kernel_alloc.end, remaining as nat)
                    == region_bookkeeping_end(
                    old(kernel_alloc).current,
                    old(kernel_alloc).end,
                    size0 as nat,
                ),
            decreases remaining,
        {
            let mut order = floor_log2(remaining) as u8;
            if order < MIN_ORDER {
                proof {
                    assert(log2_floor(remaining as nat) < MIN_ORDER);
                    assert(roots_after_region(self@, curr_addr as nat, remaining as nat) == self@);
                    assert(region_bookkeeping_end(kernel_alloc.current, kernel_alloc.end, remaining as nat)
                        == kernel_alloc.current);
                }
                return;
            } else if order > MAX_ORDER {
                order = MAX_ORDER;
            }
            let ghost o = order as nat;
            proof {
                lemma_log2_floor_bounds(remaining as nat);
                if o < log2_floor(remaining as nat) {
                    lemma_pow2_strictly_increases(o, log2_floor(remaining as nat));
                }
                lemma_pow2_small(o);
                lemma_pow2_small((o - MIN_ORDER) as nat);
                assert(root_order_for(remaining as nat) == o);
            }
            let _root_record = kernel_alloc.k_alloc(ROOT_RECORD_BYTES, ROOT_RECORD_ALIGN).unwrap();
            proof {
                lemma_usize_shl_is_mul(1, (order - MIN_ORDER) as usize);
            }
            let leaves_count: usize = 1usize << ((order - MIN_ORDER) as usize);
            let bitmap_len = (leaves_count * 2) - 1;
            let _bitmap_record = kernel_alloc.k_alloc(bitmap_len, 1).unwrap();
            let bitmap = vec![false; bitmap_len];
            let ghost before = self@;
            self.roots.insert(0, BuddyRoot { start: curr_addr, bitmap, order });
            proof {
                assert(self.roots@[0]@.bitmap =~= fresh_root(curr_addr as nat, o).bitmap);
                assert(self@ =~= seq![fresh_root(curr_addr as nat, o)] + before);
                lemma_usize_shl_is_mul(1, order as usize);
            }
            let block_size = 1usize << (order as usize);
            curr_addr = curr_addr + block_size as u64;
            remaining = remaining - block_size;
        }
        proof {
            assert(roots_after_region(self@, curr_addr as nat, 0) == self@);
            assert(region_bookkeeping_end(kernel_alloc.current, kernel_alloc.end, 0)
                == kernel_alloc.current);
        }
    }

    /// Gives back `frame_size_bytes` bytes at `frame_start` to the first root
    /// whose range (end included) holds `frame_start`.  Fails, changing
    /// nothing, when `frame_start` is not aligned there to
    /// `2^ceil(log2(frame_size_bytes))`; succeeds, changing nothing, when no
    /// root holds `frame_start`.  When the address is aligned in the first
    /// root that holds it, the freeing walk is repeated on that root without
    /// end, so such calls are excluded.
    pub fn deallocate_bytes<'a>(&mut self, frame_start: u64, frame_size_bytes: usize) -> (r: Result<
        (),
        DeallocationError<'a>,
    >)
        requires
            old(self).wf(),
            forall|i: int|
                #[trigger] is_first_cover(old(self)@, frame_start, i) ==> ceil_log2(frame_size_bytes as nat)
                    <= old(self)@[i].order && (frame_start - old(self)@[i].start) % (pow2(
                    ceil_log2(frame_size_bytes as nat),
                ) as int) != 0,
        ensures
            final(self)@ == old(self)@,
            final(self).wf(),
            final(self).kernel_offset() == old(self).kernel_offset(),
            r is Err <==> exists|i: int|
                0 <= i < old(self)@.len() && #[trigger] covers(old(self)@[i], frame_start),
    {
        let order = calculate_order_ceil(frame_size_bytes);
        let mut i: usize = 0;
        while i < self.roots.len()
            invariant
                0 <= i <= self.roots.len(),
                self@ == old(self)@,
                self.k_offset == old(self).k_offset,
                self.wf(),
                order == ceil_log2(frame_size_bytes as nat),
                forall|k: int| 0 <= k < i ==> !#[trigger] covers(old(self)@[k], frame_start),
                forall|j: int|
                    #[trigger] is_first_cover(old(self)@, frame_start, j) ==> ceil_log2(
                        frame_size_bytes as nat,
                    ) <= old(self)@[j].order && (frame_start - old(self)@[j].start) % (pow2(
                        ceil_log2(frame_size_bytes as nat),
                    ) as int) != 0,
            decreases self.roots.len() - i,
        {
            assert(root_wf(self@[i as int]));
            let root_start = self.roots[i].start;
            let root_order = self.roots[i].order;
            proof {
                lemma_pow2_small(root_order as nat);
                vstd::bits::lemma_u64_shl_is_mul(1, root_order as u64);
            }
            if root_start <= frame_start && frame_start <= (root_start + (1u64 << (root_order as u64))) {
                proof {
                    assert(self@[i as int].start == root_start);
                    assert(self@[i as int].order == root_order);
                    assert(is_first_cover(old(self)@, frame_start, i as int));
                }
                let ghost before = self@;
                let freed_result = self.roots[i].free(root_order - order, frame_start);
                match freed_result {
                    Err(e) => {
                        proof {
                            assert(self@ =~= before);
                        }
                        return Err(e);
                    },
                    Ok(()) => {},
                }
            } else {
                i = i + 1;
            }
        }
        Ok(())
    }

    /// Tells whether `deallocate_bytes(frame_start, frame_size_bytes)` may
    /// be called: the first root holding the address (if any) is at least
    /// as large as the block and has the address off the block boundary.
    pub fn deallocation_returns(&self, frame_start: u64, frame_size_bytes: usize) -> (b: bool)
        requires
            self.wf(),
        ensures
            b == forall|i: int|
                #[trigger] is_first_cover(self@, frame_start, i) ==> ceil_log2(frame_size_bytes as nat)
                    <= self@[i].order && (frame_start - self@[i].start) % (pow2(
                    ceil_log2(frame_size_bytes as nat),
                ) as int) != 0,
    {
        let order = calculate_order_ceil(frame_size_bytes);
        let mut i: usize = 0;
        while i < self.roots.len()
            invariant
                0 <= i <= self.roots.len(),
                self.wf(),
                order == ceil_log2(frame_size_bytes as nat),
                forall|k: int| 0 <= k < i ==> !#[trigger] covers(self@[k], frame_start),
            decreases self.roots.len() - i,
        {
            assert(root_wf(self@[i as int]));
            let root_start = self.roots[i].start;
            let root_order = self.roots[i].order;
            proof {
                lemma_pow2_small(root_order as nat);
                vstd::bits::lemma_u64_shl_is_mul(1, root_order as u64);
            }
            if root_start <= frame_start && frame_start <= root_start + (1u64 << (root_order as u64)) {
                proof {
                    assert(self@[i as int].start == root_start);
                    assert(self@[i as int].order == root_order);
                    assert(is_first_cover(self@, frame_start, i as int));
                    assert forall|j: int| #[trigger] is_first_cover(self@, frame_start, j) implies j == i by {
                        if j < i {
                            assert(!covers(self@[j], frame_start));
                        } else if j > i {
                            assert(!covers(self@[i as int], frame_start));
                        }
                    }
                }
                if order > root_order {
                    return false;
                }
                proof {
                    lemma_pow2_small(order as nat);
                    vstd::bits::lemma_u64_shl_is_mul(1, order as u64);
                }
                let block: u64 = 1u64 << (order as u64);
                return (frame_start - root_start) % block != 0;
            }
            i = i + 1;
        }
        true
    }

    /// Tells whether every root, moved up by `offset`, still ends below
    /// `2^64`.
    pub fn blocks_fit_with_offset(&self, offset: u64) -> (b: bool)
        requires
            self.wf(),
        ensures
            b == forall|i: int|
                0 <= i < self@.len() ==> #[trigger] self@[i].start + pow2(self@[i].order as nat) + offset <= u64::MAX,
    {
        let mut i: usize = 0;
        while i < self.roots.len()
            invariant
                0 <= i <= self.roots.len(),
                self.wf(),
                forall|k: int|
                    0 <= k < i ==> #[trigger] self@[k].start + pow2(self@[k].order as nat) + offset <= u64::MAX,
            decreases self.roots.len() - i,
        {
            assert(root_wf(self@[i as int]));
            let root_start = self.roots[i].start;
            let root_order = self.roots[i].order;
            proof {
                lemma_pow2_small(root_order as nat);
                vstd::bits::lemma_u64_shl_is_mul(1, root_order as u64);
            }
            let size: u64 = 1u64 << (root_order as u64);
            if root_start > u64::MAX - size || root_start + size > u64::MAX - offset {
                return false;
            }
            i = i + 1;
        }
        true
    }

    /// Takes a block of `2^ceil(log2(frame_size_bytes))` bytes from the first
    /// root that has a free one, or returns `None` when the size is outside
    /// `2^MIN_ORDER ..= 2^MAX_ORDER` or no root has room.
    pub fn allocate_bytes(&mut self, frame_size_bytes: usize) -> (r: Option<KernelMemRegion>)
        requires
            old(self).wf(),
        ensures
            final(self).wf(),
            final(self).kernel_offset() == old(self).kernel_offset(),
            ({
                let order = ceil_log2(frame_size_bytes as nat);
                &&& r is None <==> (order < MIN_ORDER || order > MAX_ORDER || forall|i: int|
                    0 <= i < old(self)@.len() ==> !#[trigger] can_serve(old(self)@[i], order))
                &&& r is None ==> final(self)@ == old(self)@
                &&& r matches Some(region) ==> {
                    let i = first_server(old(self)@, order);
                    &&& is_first_server(old(self)@, order, i)
                    &&& region.start_paddr == served_start(old(self)@[i], order)
                    &&& region.length_bytes == pow2(order)
                    &&& final(self)@ == old(self)@.update(i, served(old(self)@[i], order))
                }
            }),
    {
        let order = calculate_order_ceil(frame_size_bytes);
        if order < MIN_ORDER {
            return None;
        } else if order > MAX_ORDER {
            return None;
        }
        let mut i: usize = 0;
        while i < self.roots.len()
            invariant
                0 <= i <= self.roots.len(),
                self@ == old(self)@,
                self.k_offset == old(self).k_offset,
                self.wf(),
                MIN_ORDER <= order <= MAX_ORDER,
                order == ceil_log2(frame_size_bytes as nat),
                forall|k: int| 0 <= k < i ==> !#[trigger] can_serve(old(self)@[k], order as nat),
            decreases self.roots.len() - i,
        {
            let ghost before = self@;
            assert(root_wf(self@[i as int]));
            if order <= self.roots[i].order {
                let generation = self.roots[i].order - order;
                let found = self.roots[i].find_free_block(generation);
                if let Some(block) = found {
                    let v_start = self.roots[i].start + block as u64;
                    proof {
                        lemma_pow2_small(order as nat);
                        lemma_usize_shl_is_mul(1, order as usize);
                    }
                    let region = KernelMemRegion { start_paddr: v_start, length_bytes: 1usize << (order as usize) };
                    proof {
                        assert(is_first_server(old(self)@, order as nat, i as int));
                        lemma_first_server_unique(old(self)@, order as nat, i as int);
                        assert(self@ =~= old(self)@.update(i as int, served(old(self)@[i as int], order as nat)));
                        assert forall|k: int| 0 <= k < self@.len() implies root_wf(#[trigger] self@[k]) by {
                            if k != i {
                                assert(self@[k] == before[k]);
                            }
                        }
                    }
                    return Some(region);
                }
                proof {
                    assert(self@ =~= before);
                }
            }
            i = i + 1;
        }
        None
    }
}

} // verus!

verus! {

/// No two roots share an address.
pub open spec fn roots_disjoint(roots: Seq<RootModel>) -> bool {
    forall|a: int, b: int|
        0 <= a < roots.len() && 0 <= b < roots.len() && a != b ==> #[trigger] roots[a].start
            + pow2(roots[a].order as nat) <= #[trigger] roots[b].start || roots[b].start + pow2(
            roots[b].order as nat,
        ) <= roots[a].start
}

/// Block `j` of generation `g` lies inside a root of order `order`, at an
/// offset that is a multiple of its size `2^(order - g)`.
proof fn lemma_block_offset_in_root(j: int, g: nat, order: nat)
    requires
        g <= order,
        first_descendant(0, g) <= j < first_descendant(0, g) + pow2(g),
    ensures
        0 <= block_offset(j, g, order),
        block_offset(j, g, order) + pow2((order - g) as nat) <= pow2(order),
        block_offset(j, g, order) % (pow2((order - g) as nat) as int) == 0,
{
    lemma_first_descendant_zero(0);
    lemma_pow2_adds(g, (order - g) as nat);
    lemma_pow2_pos((order - g) as nat);
    let local = j - first_descendant(0, g);
    let p = pow2((order - g) as nat) as int;
    assert(0 <= local < pow2(g));
    assert(local * p + p <= pow2(g) * p) by (nonlinear_arith)
        requires
            0 <= local < pow2(g),
            p >= 1,
    ;
    assert(local * p >= 0) by (nonlinear_arith)
        requires
            local >= 0,
            p >= 1,
    ;
    vstd::arithmetic::div_mod::lemma_mod_multiples_basic(local, p);
}

/// `2^ceil(log2(n))` bytes hold `n` bytes.
pub proof fn lemma_ceil_log2_covers(n: nat)
    ensures
        pow2(ceil_log2(n)) >= n,
{
    vstd::arithmetic::power2::lemma2_to64();
    if n > 1 {
        lemma_log2_floor_bounds((n - 1) as nat);
    }
}

/// An allocation hands out at least the requested bytes, as a block inside
/// the root that serves it, aligned within that root to the block's size.
pub proof fn allocation_in_root(roots: Seq<RootModel>, frame_size_bytes: nat)
    requires
        forall|i: int| 0 <= i < roots.len() ==> root_wf(#[trigger] roots[i]),
        MIN_ORDER <= ceil_log2(frame_size_bytes) <= MAX_ORDER,
        exists|i: int| 0 <= i < roots.len() && #[trigger] can_serve(roots[i], ceil_log2(frame_size_bytes)),
    ensures
        ({
            let order = ceil_log2(frame_size_bytes);
            let i = first_server(roots, order);
            let r = roots[i];
            &&& is_first_server(roots, order, i)
            &&& pow2(order) >= frame_size_bytes
            &&& r.start <= served_start(r, order)
            &&& served_start(r, order) + pow2(order) <= r.start + pow2(r.order as nat)
            &&& (served_start(r, order) - r.start) % (pow2(order) as int) == 0
        }),
{
    let order = ceil_log2(frame_size_bytes);
    lemma_ceil_log2_covers(frame_size_bytes);
    lemma_first_server_exists(roots, order);
    let i = first_server(roots, order);
    let r = roots[i];
    let g = (r.order - order) as nat;
    let jw = choose|j: int| free_node_at(r.bitmap, g, j);
    lemma_leftmost_free_exists(r.bitmap, g, jw);
    lemma_block_offset_in_root(leftmost_free(r.bitmap, g), g, r.order as nat);
}

/// Among the nodes of generation `g`, a leftmost unused one exists when any is unused.
pub proof fn lemma_leftmost_free_exists(b: Seq<bool>, g: nat, j: int)
    requires
        free_node_at(b, g, j),
    ensures
        is_leftmost_free(b, g, leftmost_free(b, g)),
    decreases j - first_descendant(0, g),
{
    if exists|k: int| first_descendant(0, g) <= k < j && !b[k] {
        let k = choose|k: int| first_descendant(0, g) <= k < j && !b[k];
        lemma_leftmost_free_exists(b, g, k);
    } else {
        assert(is_leftmost_free(b, g, j));
    }
}

/// When some root can serve a request, a first such root exists.
pub proof fn lemma_first_server_exists(roots: Seq<RootModel>, order: nat)
    requires
        exists|i: int| 0 <= i < roots.len() && #[trigger] can_serve(roots[i], order),
    ensures
        is_first_server(roots, order, first_server(roots, order)),
{
    let w = choose|i: int| 0 <= i < roots.len() && #[trigger] can_serve(roots[i], order);
    lemma_first_server_exists_below(roots, order, w);
}

proof fn lemma_first_server_exists_below(roots: Seq<RootModel>, order: nat, w: int)
    requires
        0 <= w < roots.len(),
        can_serve(roots[w], order),
    ensures
        is_first_server(roots, order, first_server(roots, order)),
    decreases w,
{
    if exists|k: int| 0 <= k < w && #[trigger] can_serve(roots[k], order) {
        let k = choose|k: int| 0 <= k < w && #[trigger] can_serve(roots[k], order);
        lemma_first_server_exists_below(roots, order, k);
    } else {
        assert(is_first_server(roots, order, w));
    }
}

/// Two successive allocations of the same size, with no deallocation in
/// between, hand out different blocks when the roots do not overlap.
pub proof fn successive_allocations_differ(roots: Seq<RootModel>, order: nat)
    requires
        forall|i: int| 0 <= i < roots.len() ==> root_wf(#[trigger] roots[i]),
        roots_disjoint(roots),
        MIN_ORDER <= order <= MAX_ORDER,
        exists|i: int| 0 <= i < roots.len() && #[trigger] can_serve(roots[i], order),
        ({
            let i = first_server(roots, order);
            let after = roots.update(i, served(roots[i], order));
            exists|k: int| 0 <= k < after.len() && #[trigger] can_serve(after[k], order)
        }),
    ensures
        ({
            let i1 = first_server(roots, order);
            let after = roots.update(i1, served(roots[i1], order));
            let i2 = first_server(after, order);
            served_start(roots[i1], order) != served_start(after[i2], order)
        }),
{
    let i1 = first_server(roots, order);
    lemma_first_server_exists(roots, order);
    let r1 = roots[i1];
    let g1 = (r1.order - order) as nat;
    let w1 = choose|j: int| free_node_at(r1.bitmap, g1, j);
    lemma_leftmost_free_exists(r1.bitmap, g1, w1);
    let j1 = leftmost_free(r1.bitmap, g1);
    let after = roots.update(i1, served(r1, order));
    lemma_first_server_exists(after, order);
    let i2 = first_server(after, order);
    let r2 = after[i2];
    let g2 = (r2.order - order) as nat;
    let w2 = choose|j: int| free_node_at(r2.bitmap, g2, j);
    lemma_leftmost_free_exists(r2.bitmap, g2, w2);
    let j2 = leftmost_free(r2.bitmap, g2);
    lemma_block_offset_in_root(j1, g1, r1.order as nat);
    lemma_block_offset_in_root(j2, g2, r2.order as nat);
    if i1 == i2 {
        assert(r2.bitmap[j1]);
        assert(j1 != j2);
        lemma_first_descendant_zero(0);
        let p = pow2(order) as int;
        lemma_pow2_pos(order);
        assert(r2.start == r1.start);
        assert(r2.order == r1.order);
        assert((r1.order - g1) as nat == order);
        let a = j1 - first_descendant(0, g1);
        let b = j2 - first_descendant(0, g1);
        assert(a * p != b * p) by (nonlinear_arith)
            requires
                a != b,
                p >= 1,
        ;
        assert(block_offset(j1, g1, r1.order as nat) == a * p);
        assert(block_offset(j2, g2, r1.order as nat) == b * p);
        assert(served_start(roots[i1], order) == r1.start + a * p);
        assert(served_start(after[i2], order) == r1.start + b * p);
    } else {
        assert(r2 == roots[i2]);
        assert(roots[i1].start + pow2(roots[i1].order as nat) <= roots[i2].start || roots[i2].start
            + pow2(roots[i2].order as nat) <= roots[i1].start);
        assert((r1.order - g1) as nat == order);
        assert((r2.order - g2) as nat == order);
        lemma_pow2_pos(order);
        assert(r1.start <= served_start(r1, order) < r1.start + pow2(r1.order as nat));
        assert(r2.start <= served_start(r2, order) < r2.start + pow2(r2.order as nat));
    }
}

/// Successive allocations from `roots` of blocks of `2^orders[k]` bytes, in
/// order, none given back in between: the blocks handed out, as (start,
/// order) pairs in the order they were handed out, and the roots afterwards.
/// A request no root can serve hands out nothing.
pub open spec fn allocation_run(roots: Seq<RootModel>, orders: Seq<nat>) -> (Seq<(int, nat)>, Seq<RootModel>)
    decreases orders.len(),
{
    if orders.len() == 0 {
        (Seq::empty(), roots)
    } else {
        let (blocks, rs) = allocation_run(roots, orders.drop_last());
        let order = orders.last();
        if exists|i: int| 0 <= i < rs.len() && #[trigger] can_serve(rs[i], order) {
            let i = first_server(rs, order);
            (blocks.push((served_start(rs[i], order), order)), rs.update(i, served(rs[i], order)))
        } else {
            (blocks, rs)
        }
    }
}

/// Node `j` of generation `g` and every ancestor of it are marked used.
pub open spec fn path_marked(b: Seq<bool>, j: int, g: nat) -> bool {
    forall|k: int| 0 <= k < b.len() && #[trigger] on_path(k, j, g) ==> b[k]
}

/// Block `start` of `2^order` bytes is node `j` of root `ri`, and that node
/// and its ancestors are marked used.
pub open spec fn live_block_at(rs: Seq<RootModel>, order: nat, start: int, ri: int, j: int) -> bool {
    &&& 0 <= ri < rs.len()
    &&& order <= rs[ri].order
    &&& first_descendant(0, (rs[ri].order - order) as nat) <= j < first_descendant(
        0,
        (rs[ri].order - order) as nat,
    ) + pow2((rs[ri].order - order) as nat)
    &&& j < rs[ri].bitmap.len()
    &&& path_marked(rs[ri].bitmap, j, (rs[ri].order - order) as nat)
    &&& start == rs[ri].start + block_offset(j, (rs[ri].order - order) as nat, rs[ri].order as nat)
}

/// Block `start` of `2^order` bytes is a used node of some root.
pub open spec fn is_live(rs: Seq<RootModel>, order: nat, start: int) -> bool {
    exists|ri: int, j: int| #[trigger] live_block_at(rs, order, start, ri, j)
}

/// Block `x` (start, order) and block `y` do not share a byte.
pub open spec fn blocks_apart(x: (int, nat), y: (int, nat)) -> bool {
    x.0 + pow2(x.1) <= y.0 || y.0 + pow2(y.1) <= x.0
}

/// Block `y`, handed out after block `x`, does not overlap it when it is at
/// least as large.
pub open spec fn later_apart(x: (int, nat), y: (int, nat)) -> bool {
    y.1 >= x.1 ==> blocks_apart(x, y)
}

/// What an allocation run keeps: well-formed, disjoint roots; every block
/// handed out is a used node with its ancestors; a block handed out later
/// and at least as large as an earlier one does not overlap it.
spec fn run_inv(roots: Seq<RootModel>, rs: Seq<RootModel>, blocks: Seq<(int, nat)>) -> bool {
    &&& rs.len() == roots.len()
    &&& forall|i: int| 0 <= i < rs.len() ==> root_wf(#[trigger] rs[i])
    &&& roots_disjoint(rs)
    &&& forall|t: int| 0 <= t < blocks.len() ==> #[trigger] is_live(rs, blocks[t].1, blocks[t].0)
    &&& forall|a: int, b: int| 0 <= a < b < blocks.len() ==> #[trigger] later_apart(blocks[a], blocks[b])
}

/// The generation-`(g - m)` node whose local index is `lj / 2^m` is on the
/// path from node `2^g - 1 + lj` to the root.
proof fn lemma_ancestor_on_path(g: nat, lj: int, m: nat)
    requires
        m <= g,
        0 <= lj < pow2(g),
    ensures
        on_path(pow2((g - m) as nat) - 1 + lj / pow2(m) as int, pow2(g) - 1 + lj, g),
    decreases m,
{
    lemma_pow2_pos(g);
    if m == 0 {
        lemma_first_descendant_zero(0);
    } else {
        vstd::arithmetic::power2::lemma_pow2_unfold(g);
        vstd::arithmetic::power2::lemma_pow2_unfold(m);
        let half = pow2((g - 1) as nat) as int;
        let j = pow2(g) - 1 + lj;
        assert(parent(j) == half - 1 + lj / 2);
        lemma_pow2_pos((m - 1) as nat);
        vstd::arithmetic::div_mod::lemma_div_denominator(lj, 2, pow2((m - 1) as nat) as int);
        assert(lj / 2 < half);
        lemma_ancestor_on_path((g - 1) as nat, lj / 2, (m - 1) as nat);
        assert((g - 1 - (m - 1)) as nat == (g - m) as nat);
    }
}

/// Node `j2` of a higher or the same generation, distinct from the ancestor
/// of `j1` there, lies apart from it: index arithmetic.
proof fn lemma_local_blocks_apart(lj: int, ln: int, p: int, u: int)
    requires
        lj >= 0,
        ln >= 0,
        p >= 1,
        u >= 1,
        ln != lj / p,
    ensures
        lj * u + u <= ln * (p * u) || ln * (p * u) + p * u <= lj * u,
{
    let q = lj / p;
    vstd::arithmetic::div_mod::lemma_fundamental_div_mod(lj, p);
    assert(0 <= lj % p < p) by {
        vstd::arithmetic::div_mod::lemma_mod_bound(lj, p);
    }
    if ln < q {
        assert(ln * (p * u) + p * u <= lj * u) by (nonlinear_arith)
            requires
                ln + 1 <= q,
                lj == p * q + lj % p,
                lj % p >= 0,
                p >= 1,
                u >= 1,
        ;
    } else {
        assert(lj * u + u <= ln * (p * u)) by (nonlinear_arith)
            requires
                ln >= q + 1,
                lj == p * q + lj % p,
                lj % p < p,
                p >= 1,
                u >= 1,
        ;
    }
}

/// A used block and a free node at least as large, in disjoint roots or in
/// the same root, do not overlap.
proof fn lemma_free_node_apart(
    rs: Seq<RootModel>,
    o1: nat,
    s1: int,
    r1: int,
    j1: int,
    o2: nat,
    r2: int,
    j2: int,
)
    requires
        forall|i: int| 0 <= i < rs.len() ==> root_wf(#[trigger] rs[i]),
        roots_disjoint(rs),
        live_block_at(rs, o1, s1, r1, j1),
        o1 <= o2,
        0 <= r2 < rs.len(),
        o2 <= rs[r2].order,
        free_node_at(rs[r2].bitmap, (rs[r2].order - o2) as nat, j2),
    ensures
        blocks_apart(
            (s1, o1),
            (rs[r2].start + block_offset(j2, (rs[r2].order - o2) as nat, rs[r2].order as nat), o2),
        ),
{
    let g1 = (rs[r1].order - o1) as nat;
    let g2 = (rs[r2].order - o2) as nat;
    let s2 = rs[r2].start + block_offset(j2, g2, rs[r2].order as nat);
    lemma_block_offset_in_root(j1, g1, rs[r1].order as nat);
    lemma_block_offset_in_root(j2, g2, rs[r2].order as nat);
    assert((rs[r1].order - g1) as nat == o1);
    assert((rs[r2].order - g2) as nat == o2);
    if r1 == r2 {
        let m = (g1 - g2) as nat;
        let lj = j1 - first_descendant(0, g1);
        let ln = j2 - first_descendant(0, g2);
        assert(first_descendant(0, g1) == pow2(g1) - 1) by {
            vstd::arithmetic::mul::lemma_mul_basics(pow2(g1) as int);
        }
        assert(first_descendant(0, g2) == pow2(g2) - 1) by {
            vstd::arithmetic::mul::lemma_mul_basics(pow2(g2) as int);
        }
        lemma_ancestor_on_path(g1, lj, m);
        assert((g1 - m) as nat == g2);
        let a = pow2(g2) - 1 + lj / pow2(m) as int;
        lemma_pow2_pos(m);
        assert(lj / pow2(m) as int <= lj) by {
            vstd::arithmetic::div_mod::lemma_div_is_ordered_by_denominator(lj, 1, pow2(m) as int);
        }
        if g2 < g1 {
            lemma_pow2_strictly_increases(g2, g1);
        }
        assert(0 <= a <= j1);
        assert(rs[r1].bitmap[a]);
        assert(a != j2);
        lemma_pow2_pos(o1);
        vstd::arithmetic::power2::lemma_pow2_adds(m, o1);
        assert(m + o1 == o2);
        lemma_local_blocks_apart(lj, ln, pow2(m) as int, pow2(o1) as int);
    } else {
        assert(rs[r1].start + pow2(rs[r1].order as nat) <= rs[r2].start || rs[r2].start + pow2(
            rs[r2].order as nat,
        ) <= rs[r1].start);
    }
}

/// One more allocation keeps the run's invariant.
proof fn lemma_run_step(roots: Seq<RootModel>, rs: Seq<RootModel>, blocks: Seq<(int, nat)>, order: nat)
    requires
        run_inv(roots, rs, blocks),
        MIN_ORDER <= order <= MAX_ORDER,
        exists|i: int| 0 <= i < rs.len() && #[trigger] can_serve(rs[i], order),
    ensures
        ({
            let i = first_server(rs, order);
            run_inv(roots, rs.update(i, served(rs[i], order)), blocks.push((served_start(rs[i], order), order)))
        }),
{
    lemma_first_server_exists(rs, order);
    let i = first_server(rs, order);
    let r = rs[i];
    let g = (r.order - order) as nat;
    let w = choose|j: int| free_node_at(r.bitmap, g, j);
    lemma_leftmost_free_exists(r.bitmap, g, w);
    let jn = leftmost_free(r.bitmap, g);
    let sn = served_start(r, order);
    let rs2 = rs.update(i, served(r, order));
    let blocks2 = blocks.push((sn, order));
    assert(forall|k: int| 0 <= k < rs2.len() ==> (#[trigger] rs2[k]).start == rs[k].start && rs2[k].order
        == rs[k].order && rs2[k].bitmap.len() == rs[k].bitmap.len());
    assert(forall|k: int| 0 <= k < r.bitmap.len() && r.bitmap[k] ==> #[trigger] rs2[i].bitmap[k]);
    assert forall|k: int| 0 <= k < rs2.len() implies root_wf(#[trigger] rs2[k]) by {
        assert(root_wf(rs[k]));
    }
    assert forall|a: int, b: int|
        0 <= a < rs2.len() && 0 <= b < rs2.len() && a != b implies #[trigger] rs2[a].start + pow2(
        rs2[a].order as nat,
    ) <= #[trigger] rs2[b].start || rs2[b].start + pow2(rs2[b].order as nat) <= rs2[a].start by {
        assert(rs[a].start + pow2(rs[a].order as nat) <= rs[b].start || rs[b].start + pow2(
            rs[b].order as nat,
        ) <= rs[a].start);
    }
    assert forall|t: int| 0 <= t < blocks2.len() implies #[trigger] is_live(rs2, blocks2[t].1, blocks2[t].0) by {
        if t < blocks.len() {
            assert(is_live(rs, blocks[t].1, blocks[t].0));
            let (ri, j) = choose|ri: int, j: int| #[trigger] live_block_at(rs, blocks[t].1, blocks[t].0, ri, j);
            let gt = (rs[ri].order - blocks[t].1) as nat;
            assert forall|k: int| 0 <= k < rs2[ri].bitmap.len() && #[trigger] on_path(k, j, gt) implies rs2[ri].bitmap[k] by {
                assert(rs[ri].bitmap[k]);
            }
            assert(live_block_at(rs2, blocks2[t].1, blocks2[t].0, ri, j));
        } else {
            assert(path_marked(rs2[i].bitmap, jn, g));
            assert(live_block_at(rs2, blocks2[t].1, blocks2[t].0, i, jn));
        }
    }
    assert forall|a: int, b: int| 0 <= a < b < blocks2.len() implies #[trigger] later_apart(blocks2[a], blocks2[b]) by {
        if b < blocks.len() {
            assert(later_apart(blocks[a], blocks[b]));
        } else if order >= blocks[a].1 {
            assert(is_live(rs, blocks[a].1, blocks[a].0));
            let (ri, j) = choose|ri: int, j: int| #[trigger] live_block_at(rs, blocks[a].1, blocks[a].0, ri, j);
            lemma_free_node_apart(rs, blocks[a].1, blocks[a].0, ri, j, order, i, jn);
        }
    }
}

/// Blocks handed out by successive allocations, none given back in between,
/// never share a byte with an earlier block that is no larger: for any two
/// blocks an allocation run hands out, the later one lies apart from the
/// earlier one whenever its size is at least the earlier one's.  (A later,
/// smaller block may lie inside an earlier one: the allocator only marks the
/// earlier block's ancestors, not its descendants.)
pub proof fn lemma_allocation_run_apart(roots: Seq<RootModel>, orders: Seq<nat>)
    requires
        forall|i: int| 0 <= i < roots.len() ==> root_wf(#[trigger] roots[i]),
        roots_disjoint(roots),
        forall|k: int| 0 <= k < orders.len() ==> MIN_ORDER <= #[trigger] orders[k] <= MAX_ORDER,
    ensures
        ({
            let (blocks, rs) = allocation_run(roots, orders);
            forall|a: int, b: int|
                0 <= a < b < blocks.len() && blocks[b].1 >= blocks[a].1 ==> #[trigger] blocks_apart(
                    blocks[a],
                    blocks[b],
                )
        }),
{
    lemma_allocation_run_inv(roots, orders);
    let (blocks, rs) = allocation_run(roots, orders);
    assert forall|a: int, b: int|
        0 <= a < b < blocks.len() && blocks[b].1 >= blocks[a].1 implies #[trigger] blocks_apart(
        blocks[a],
        blocks[b],
    ) by {
        assert(later_apart(blocks[a], blocks[b]));
    }
}

proof fn lemma_allocation_run_inv(roots: Seq<RootModel>, orders: Seq<nat>)
    requires
        forall|i: int| 0 <= i < roots.len() ==> root_wf(#[trigger] roots[i]),
        roots_disjoint(roots),
        forall|k: int| 0 <= k < orders.len() ==> MIN_ORDER <= #[trigger] orders[k] <= MAX_ORDER,
    ensures
        ({
            let (blocks, rs) = allocation_run(roots, orders);
            run_inv(roots, rs, blocks)
        }),
    decreases orders.len(),
{
    if orders.len() > 0 {
        let prefix = orders.drop_last();
        assert forall|k: int| 0 <= k < prefix.len() implies MIN_ORDER <= #[trigger] prefix[k] <= MAX_ORDER by {
            assert(prefix[k] == orders[k]);
        }
        lemma_allocation_run_inv(roots, prefix);
        let (blocks, rs) = allocation_run(roots, prefix);
        let order = orders.last();
        assert(MIN_ORDER <= orders[orders.len() - 1] <= MAX_ORDER);
        if exists|i: int| 0 <= i < rs.len() && #[trigger] can_serve(rs[i], order) {
            lemma_run_step(roots, rs, blocks, order);
        }
    } else {
        let (blocks, rs) = allocation_run(roots, orders);
        assert(blocks.len() == 0);
    }
}

} // verus!
