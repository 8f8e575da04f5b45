//! Page sizes, page runs and physical memory regions, and the page
//! allocator that takes its frames from the buddy allocator.
use vstd::prelude::*;
use vstd::arithmetic::power2::pow2;
use crate::buddy::{
    BuddyManager, RootModel, ceil_log2, can_serve, first_server, served, served_start, covers,
    is_first_cover,
};

verus! {

/// Size of a regular page: 4 KiB.
pub const PAGE_SIZE_REGULAR: usize = 4096;

/// Size of a large page: 2 MiB.
pub const PAGE_SIZE_LARGE: usize = 1024 * 1024 * 2;

/// Size of a huge page: 1 GiB.
pub const PAGE_SIZE_HUGE: usize = 1024 * 1024 * 1024;

/// The page sizes of x86_64: 4 KiB, 2 MiB and 1 GiB.
#[derive(Debug, Clone, Copy, PartialEq, Eq, PartialOrd, Ord, Hash)]
pub enum PageSize {
    REGULAR,
    LARGE,
    HUGE,
}

/// Bytes in one page of the given size.
pub open spec fn page_bytes(page_size: PageSize) -> nat {
    match page_size {
        PageSize::REGULAR => PAGE_SIZE_REGULAR as nat,
        PageSize::LARGE => PAGE_SIZE_LARGE as nat,
        PageSize::HUGE => PAGE_SIZE_HUGE as nat,
    }
}

impl PageSize {
    /// Bytes in one page of the given size.
    pub fn bytes_from_page_size(page_size: PageSize) -> (r: usize)
        ensures
            r == page_bytes(page_size),
    {
        match page_size {
            PageSize::REGULAR => PAGE_SIZE_REGULAR,
            PageSize::LARGE => PAGE_SIZE_LARGE,
            PageSize::HUGE => PAGE_SIZE_HUGE,
        }
    }
}

/// A contiguous run of physical memory: `length_bytes` bytes from `start_paddr`.
#[derive(Debug, Clone, Copy)]
pub struct KernelMemRegion {
    pub start_paddr: u64,
    pub length_bytes: usize,
}

impl KernelMemRegion {
    /// The region of `length_bytes` bytes at `start_paddr`.
    pub fn new(start_paddr: u64, length_bytes: usize) -> (r: Self)
        ensures
            r.start_paddr == start_paddr,
            r.length_bytes == length_bytes,
    {
        KernelMemRegion { start_paddr, length_bytes }
    }
}

/// `page_count` pages of one size starting at the virtual address `start_addr`.
#[derive(Debug)]
pub struct VirtPages {
    pub page_count: u8,
    pub page_size: PageSize,
    pub start_addr: u64,
}

impl VirtPages {
    /// The run of `page_count` pages of `page_size` at `start_addr`.
    pub fn new(page_count: u8, page_size: PageSize, start_addr: u64) -> (r: Self)
        ensures
            r.page_count == page_count,
            r.page_size == page_size,
            r.start_addr == start_addr,
    {
        VirtPages { page_count, page_size, start_addr }
    }

    /// A run for `bytes` bytes.  The count is computed as
    /// `(bytes - 1 / page_bytes) as u8 + 1`: since `1 / page_bytes` is 0 this
    /// is the low byte of `bytes` plus one, which overflows (and is excluded)
    /// when that byte is 255.
    pub fn new_with_bytes(bytes: usize, page_size: PageSize, start_addr: u64) -> (r: Self)
        requires
            bytes % 256 != 255,
        ensures
            r.page_count == bytes % 256 + 1,
            r.page_size == page_size,
            r.start_addr == start_addr,
    {
        let bpp = PageSize::bytes_from_page_size(page_size);
        assert(1usize / bpp == 0) by (nonlinear_arith)
            requires
                bpp >= 4096,
        ;
        let low: u8 = #[verifier::truncate] ((bytes - 1 / bpp) as u8);
        assert(bytes - 1usize / bpp == bytes);
        proof {
            assert(low == bytes % 256) by (bit_vector)
                requires
                    low == bytes as u8,
            ;
        }
        VirtPages { page_count: low + 1u8, page_size, start_addr }
    }

    /// Bytes covered by the run.
    pub fn calc_bytes(&self) -> (r: usize)
        requires
            page_bytes(self.page_size) * self.page_count <= usize::MAX,
        ensures
            r == page_bytes(self.page_size) * self.page_count,
    {
        PageSize::bytes_from_page_size(self.page_size) * self.page_count as usize
    }
}

/// A run of pages that is not empty and ends inside the address space.
pub open spec fn run_in_address_space(p: VirtPages) -> bool {
    &&& p.page_count >= 1
    &&& p.start_addr + page_bytes(p.page_size) * p.page_count <= usize::MAX
}

/// One call made on a page allocator, with its answer.
pub enum PageRequest {
    /// `allocate_pages(count, size)`, pages for mapping.
    Mapped { count: u8, size: PageSize, answer: Option<VirtPages> },
    /// `kernel_allocate_pages(count, size)`, pages in the kernel's direct map.
    Kernel { count: u8, size: PageSize, answer: Option<VirtPages> },
    /// `deallocate_pages(pages)`.
    Freed { pages: VirtPages },
}

/// The calls a page allocator has served, oldest first.  An allocator keeps
/// one and notes each call (`note_*`); the record exists for proofs only and
/// takes no room at run time.
#[derive(Clone, Copy)]
pub struct PageLog {
    entries: Ghost<Seq<PageRequest>>,
}

impl PageLog {
    /// The calls, oldest first.
    pub closed spec fn entries(&self) -> Seq<PageRequest> {
        self.entries@
    }

    /// A log of no call.
    pub fn new() -> (r: Self)
        ensures
            r.entries() == Seq::<PageRequest>::empty(),
    {
        PageLog { entries: Ghost(Seq::empty()) }
    }

    /// Notes a call of `allocate_pages(count, size)` answered `answer`.
    pub fn note_mapped(&mut self, count: u8, size: PageSize, answer: &Option<VirtPages>)
        ensures
            final(self).entries() == old(self).entries().push(PageRequest::Mapped { count, size, answer: *answer }),
    {
        let ghost e = self.entries@.push(PageRequest::Mapped { count, size, answer: *answer });
        self.entries = Ghost(e);
    }

    /// Notes a call of `kernel_allocate_pages(count, size)` answered `answer`.
    pub fn note_kernel(&mut self, count: u8, size: PageSize, answer: &Option<VirtPages>)
        ensures
            final(self).entries() == old(self).entries().push(PageRequest::Kernel { count, size, answer: *answer }),
    {
        let ghost e = self.entries@.push(PageRequest::Kernel { count, size, answer: *answer });
        self.entries = Ghost(e);
    }

    /// Notes a call of `deallocate_pages(pages)`.
    pub fn note_freed(&mut self, pages: &VirtPages)
        ensures
            final(self).entries() == old(self).entries().push(PageRequest::Freed { pages: *pages }),
    {
        let ghost e = self.entries@.push(PageRequest::Freed { pages: *pages });
        self.entries = Ghost(e);
    }
}

/// What the kernel asks of a page allocator: runs of pages, for mapping
/// (`allocate_pages`) or in the kernel's direct map (`kernel_allocate_pages`),
/// and giving them back.  A run handed out has the count and the page size
/// that were asked for; where it starts is the allocator's choice.  Each
/// call is noted in the allocator's `PageLog` with its answer.
pub trait PageAllocator {
    /// The calls this allocator has served, oldest first.
    spec fn page_log(&self) -> PageLog;

    fn allocate_pages(&mut self, count: u8, pg: PageSize) -> (r: Option<VirtPages>)
        ensures
            r matches Some(p) ==> p.page_count == count && p.page_size == pg,
            final(self).page_log().entries() == old(self).page_log().entries().push(
                PageRequest::Mapped { count, size: pg, answer: r },
            ),
    ;

    fn deallocate_pages(&mut self, pages: VirtPages)
        ensures
            final(self).page_log().entries() == old(self).page_log().entries().push(PageRequest::Freed { pages }),
    ;

    /// One page of `pg`, for mapping: `allocate_pages(1, pg)`.
    fn allocate_page(&mut self, pg: PageSize) -> (r: Option<VirtPages>)
        ensures
            r matches Some(p) ==> p.page_count == 1 && p.page_size == pg,
            final(self).page_log().entries() == old(self).page_log().entries().push(
                PageRequest::Mapped { count: 1, size: pg, answer: r },
            ),
    {
        self.allocate_pages(1, pg)
    }

    fn kernel_allocate_pages(&mut self, count: u8, pg: PageSize) -> (r: Option<VirtPages>)
        ensures
            r matches Some(p) ==> p.page_count == count && p.page_size == pg,
            final(self).page_log().entries() == old(self).page_log().entries().push(
                PageRequest::Kernel { count, size: pg, answer: r },
            ),
    ;

    /// One page of `pg` in the kernel's direct map: `kernel_allocate_pages(1, pg)`.
    fn kernel_allocate_page(&mut self, pg: PageSize) -> (r: Option<VirtPages>)
        ensures
            r matches Some(p) ==> p.page_count == 1 && p.page_size == pg,
            final(self).page_log().entries() == old(self).page_log().entries().push(
                PageRequest::Kernel { count: 1, size: pg, answer: r },
            ),
    {
        self.kernel_allocate_pages(1, pg)
    }
}

/// Tells whether a run handed out by a page allocator is real memory:
/// not empty and inside the address space.
pub fn fits_address_space(p: &VirtPages) -> (b: bool)
    ensures
        b == run_in_address_space(*p),
{
    if p.page_count == 0 {
        return false;
    }
    let page: u64 = PageSize::bytes_from_page_size(p.page_size) as u64;
    assert(page * p.page_count <= 0x4000_0000 * 255) by (nonlinear_arith)
        requires
            page <= 0x4000_0000,
            p.page_count <= 255,
    ;
    let bytes: u64 = page * p.page_count as u64;
    let limit: u64 = usize::MAX as u64;
    bytes <= limit && p.start_addr <= limit - bytes
}

/// The page allocator: frames come from the buddy allocator; the kernel sees
/// physical memory at `k_offset` above its physical address.  (Installing
/// the mappings in the page tables is the caller's part.)
pub struct PageAllocationMapper {
    pub buddy_manager: BuddyManager,
    pub k_offset: u64,
}

/// The buddy allocator's blocks, moved by `k_offset`, stay below `2^64`.
pub open spec fn offset_fits(roots: Seq<RootModel>, k_offset: u64) -> bool {
    forall|i: int|
        0 <= i < roots.len() ==> #[trigger] roots[i].start + pow2(roots[i].order as nat) + k_offset
            <= u64::MAX
}

impl PageAllocationMapper {
    /// A page allocator over `buddy`, with physical memory seen at
    /// `physical_offset`.
    pub fn new(physical_offset: u64, buddy: BuddyManager) -> (r: Self)
        ensures
            r.buddy_manager == buddy,
            r.k_offset == physical_offset,
    {
        PageAllocationMapper { buddy_manager: buddy, k_offset: physical_offset }
    }

    /// The virtual addresses and frames to map for `count` pages of
    /// `page_size` at `vstart_addr` backed from `pstart_addr`: the page
    /// offsets `i * page_bytes` for `i < count`.
    pub fn page_table_entries(pstart_addr: u64, vstart_addr: u64, page_size: PageSize, count: u8) -> (r: Vec<(u64, u64)>)
        requires
            vstart_addr + page_bytes(page_size) * count <= u64::MAX,
            pstart_addr + page_bytes(page_size) * count <= u64::MAX,
        ensures
            r.len() == count,
            forall|i: int|
                0 <= i < count ==> #[trigger] r@[i] == ((vstart_addr + i * page_bytes(page_size)) as u64, (
                pstart_addr + i * page_bytes(page_size)) as u64),
    {
        let mut entries: Vec<(u64, u64)> = Vec::new();
        let bytes = PageSize::bytes_from_page_size(page_size) as u64;
        let mut i: u8 = 0;
        while i < count
            invariant
                i <= count,
                bytes == page_bytes(page_size),
                entries.len() == i,
                vstart_addr + page_bytes(page_size) * count <= u64::MAX,
                pstart_addr + page_bytes(page_size) * count <= u64::MAX,
                forall|k: int|
                    0 <= k < i ==> #[trigger] entries@[k] == ((vstart_addr + k * page_bytes(page_size)) as u64, (
                    pstart_addr + k * page_bytes(page_size)) as u64),
            decreases count - i,
        {
            proof {
                assert(bytes * i <= bytes * count) by (nonlinear_arith)
                    requires
                        i <= count,
                ;
            }
            let offset = bytes * i as u64;
            proof {
                vstd::arithmetic::mul::lemma_mul_is_commutative(bytes as int, i as int);
            }
            let ghost before = entries@;
            entries.push((vstart_addr + offset, pstart_addr + offset));
            proof {
                assert forall|k: int| 0 <= k < i + 1 implies #[trigger] entries@[k] == ((vstart_addr + k
                    * page_bytes(page_size)) as u64, (pstart_addr + k * page_bytes(page_size)) as u64) by {
                    if k < i {
                        assert(entries@[k] == before[k]);
                    }
                }
            }
            i = i + 1;
        }
        entries
    }

    /// Takes `count` pages of `pg` from the buddy allocator for mapping at
    /// the same virtual address as their physical one (the caller installs
    /// the mappings, see `page_table_entries`).
    pub fn allocate_pages(&mut self, count: u8, pg: PageSize) -> (r: Option<VirtPages>)
        requires
            old(self).buddy_manager.wf(),
            count * page_bytes(pg) <= usize::MAX,
        ensures
            final(self).buddy_manager.wf(),
            final(self).k_offset == old(self).k_offset,
            ({
                let order = ceil_log2((count * page_bytes(pg)) as nat);
                let roots = old(self).buddy_manager@;
                &&& r is None ==> final(self).buddy_manager@ == roots
                &&& r matches Some(p) ==> {
                    let i = first_server(roots, order);
                    &&& can_serve(roots[i], order)
                    &&& p.start_addr == served_start(roots[i], order)
                    &&& p.page_count == count
                    &&& p.page_size == pg
                    &&& final(self).buddy_manager@ == roots.update(i, served(roots[i], order))
                }
                &&& r is None <==> (order < 12 || order > 21 || forall|i: int|
                    0 <= i < roots.len() ==> !#[trigger] can_serve(roots[i], order))
            }),
    {
        let bytes = count as usize * PageSize::bytes_from_page_size(pg);
        match self.buddy_manager.allocate_bytes(bytes) {
            Some(frame) => Some(VirtPages { start_addr: frame.start_paddr, page_count: count, page_size: pg }),
            None => None,
        }
    }

    /// Gives the kernel pages of `frame` back to the buddy allocator.  The
    /// buddy allocator reports success only for an address that no root
    /// holds (see `BuddyManager::deallocate_bytes`); any other outcome is a
    /// fatal error, so such calls are excluded.
    pub fn kernel_deallocate_pages(&mut self, frame: VirtPages)
        requires
            old(self).buddy_manager.wf(),
            frame.page_count * page_bytes(frame.page_size) <= usize::MAX,
            forall|i: int|
                0 <= i < old(self).buddy_manager@.len() ==> !#[trigger] covers(
                    old(self).buddy_manager@[i],
                    frame.start_addr,
                ),
        ensures
            final(self).buddy_manager@ == old(self).buddy_manager@,
            final(self).buddy_manager.wf(),
            final(self).k_offset == old(self).k_offset,
    {
        let bytes = frame.page_count as usize * PageSize::bytes_from_page_size(frame.page_size);
        let result = self.buddy_manager.deallocate_bytes(frame.start_addr, bytes);
        proof {
            assert(result is Ok);
        }
    }

    /// Allocates `count` pages of `pg` for the kernel: a buddy block of
    /// `count * page_bytes(pg)` bytes, reported at its address in the
    /// kernel's direct map.
    pub fn kernel_allocate_pages(&mut self, count: u8, pg: PageSize) -> (r: Option<VirtPages>)
        requires
            old(self).buddy_manager.wf(),
            offset_fits(old(self).buddy_manager@, old(self).k_offset),
            count * page_bytes(pg) <= usize::MAX,
        ensures
            final(self).buddy_manager.wf(),
            final(self).k_offset == old(self).k_offset,
            offset_fits(final(self).buddy_manager@, final(self).k_offset),
            ({
                let order = ceil_log2((count * page_bytes(pg)) as nat);
                let roots = old(self).buddy_manager@;
                &&& r is None ==> final(self).buddy_manager@ == roots
                &&& r matches Some(p) ==> {
                    let i = first_server(roots, order);
                    &&& can_serve(roots[i], order)
                    &&& p.start_addr == served_start(roots[i], order) + old(self).k_offset
                    &&& p.page_count == count
                    &&& p.page_size == pg
                    &&& final(self).buddy_manager@ == roots.update(i, served(roots[i], order))
                }
                &&& r is None <==> (order < 12 || order > 21 || forall|i: int|
                    0 <= i < roots.len() ==> !#[trigger] can_serve(roots[i], order))
            }),
    {
        let bytes = count as usize * PageSize::bytes_from_page_size(pg);
        let ghost roots = self.buddy_manager@;
        match self.buddy_manager.allocate_bytes(bytes) {
            Some(frame) => {
                proof {
                    let i = first_server(roots, ceil_log2(bytes as nat));
                    crate::buddy::allocation_in_root(roots, bytes as nat);
                    assert(roots[i].start + pow2(roots[i].order as nat) + self.k_offset <= u64::MAX);
                    assert forall|k: int| 0 <= k < self.buddy_manager@.len() implies #[trigger] self.buddy_manager@[k].start
                        + pow2(self.buddy_manager@[k].order as nat) + self.k_offset <= u64::MAX by {
                        assert(roots[k].start + pow2(roots[k].order as nat) + self.k_offset <= u64::MAX);
                    }
                }
                Some(VirtPages { start_addr: frame.start_paddr + self.k_offset, page_count: count, page_size: pg })
            },
            None => None,
        }
    }
}

} // verus!
