//! Which pages map a device's memory-mapped registers into the kernel's
//! direct map: the virtual pages from `hhdm + phys_base` through the one
//! holding `hhdm + phys_base + size`, each backed by the physical frame at
//! the same distance from `phys_base`.
use vstd::prelude::*;

verus! {

/// Bytes in a page.
pub const PAGE_BYTES: u64 = 4096;

/// Clears the offset within a page.
pub const PAGE_MASK: u64 = 0xFFFF_FFFF_FFFF_F000;

/// Bytes of configuration space per PCI bus.
pub const BUS_CONFIG_BYTES: u64 = 1024 * 1024;

/// Bytes of the local APIC's register page.
pub const LAPIC_MMIO_BYTES: u64 = 4 * 1024;

/// Physical addresses have at most 52 bits.
pub const PHYS_ADDR_LIMIT: u64 = 0x10_0000_0000_0000;

/// A page to map and the frame behind it, by their start addresses.
#[derive(Clone, Copy, Debug, PartialEq, Eq, Structural)]
pub struct MmioPage {
    pub page: u64,
    pub frame: u64,
}

/// A canonical virtual address: bits 48 to 63 repeat bit 47.
pub open spec fn canonical(addr: int) -> bool {
    addr < 0x0000_8000_0000_0000 || 0xFFFF_8000_0000_0000 <= addr <= u64::MAX
}

/// `addr` rounded down to a page boundary.
pub open spec fn page_floor(addr: int) -> int {
    addr - addr % (PAGE_BYTES as int)
}

/// Number of pages from the one at `virt` through the one holding
/// `virt + size`.
pub open spec fn page_count(virt: int, size: int) -> int {
    (page_floor(virt + size) - virt) / (PAGE_BYTES as int) + 1
}

/// The mapping can be worked out: the physical base is a physical address,
/// the virtual range is canonical and starts on a page boundary, and the
/// last frame is still a physical address.
pub open spec fn mmio_valid(size: u64, hhdm: u64, phys_base: u64) -> bool {
    let virt = hhdm + phys_base;
    &&& phys_base < PHYS_ADDR_LIMIT
    &&& virt + size <= u64::MAX
    &&& canonical(virt)
    &&& canonical(virt + size)
    &&& virt % (PAGE_BYTES as int) == 0
    &&& phys_base + page_floor(virt + size) - virt < PHYS_ADDR_LIMIT
    &&& page_count(virt, size as int) <= usize::MAX
}

/// Tells whether the mapping of `size` bytes at `phys_base` into the
/// direct map at `hhdm` can be worked out (`mmio_valid`).
pub fn mmio_request_valid(size: u64, hhdm: u64, phys_base: u64) -> (b: bool)
    ensures
        b == mmio_valid(size, hhdm, phys_base),
{
    if phys_base >= PHYS_ADDR_LIMIT || hhdm > u64::MAX - phys_base {
        return false;
    }
    let virt: u64 = hhdm + phys_base;
    if virt > u64::MAX - size {
        return false;
    }
    let end: u64 = virt + size;
    let canonical_virt = virt < 0x0000_8000_0000_0000 || virt >= 0xFFFF_8000_0000_0000;
    let canonical_end = end < 0x0000_8000_0000_0000 || end >= 0xFFFF_8000_0000_0000;
    if !canonical_virt || !canonical_end || virt % PAGE_BYTES != 0 {
        return false;
    }
    let last_page: u64 = end & PAGE_MASK;
    assert(last_page == end - end % 4096) by (bit_vector)
        requires
            last_page == end & 0xFFFF_FFFF_FFFF_F000u64,
    ;
    proof {
        lemma_floor_at_least(virt as int, end as int, last_page as int);
    }
    let span: u64 = last_page - virt;
    if span >= PHYS_ADDR_LIMIT || phys_base >= PHYS_ADDR_LIMIT - span {
        return false;
    }
    let count: u64 = span / PAGE_BYTES + 1;
    count <= usize::MAX as u64
}

/// Page `i` of the mapping: the `i`-th page after `hhdm + phys_base`, backed
/// by the frame holding `phys_base` plus the same distance.
pub open spec fn mmio_page(hhdm: u64, phys_base: u64, i: int) -> MmioPage {
    MmioPage {
        page: (hhdm + phys_base + i * PAGE_BYTES) as u64,
        frame: page_floor(phys_base + i * PAGE_BYTES) as u64,
    }
}

/// The pages that map `size` bytes of device memory at `phys_base` into the
/// direct map at `hhdm`, in address order.
pub fn mmio_init(size: u64, hhdm: u64, phys_base: u64) -> (pages: Vec<MmioPage>)
    requires
        mmio_valid(size, hhdm, phys_base),
    ensures
        pages@.len() == page_count(hhdm + phys_base, size as int),
        forall|i: int| 0 <= i < pages@.len() ==> #[trigger] pages@[i] == mmio_page(hhdm, phys_base, i),
{
    let virt: u64 = hhdm + phys_base;
    let end: u64 = virt + size;
    let last_page: u64 = end & PAGE_MASK;
    assert(last_page == end - end % 4096 && last_page % 4096 == 0) by (bit_vector)
        requires
            last_page == end & 0xFFFF_FFFF_FFFF_F000u64,
    ;
    proof {
        lemma_floor_at_least(virt as int, end as int, last_page as int);
        lemma_aligned_difference(virt as int, last_page as int);
        vstd::arithmetic::div_mod::lemma_fundamental_div_mod(last_page - virt, 4096);
    }
    let count: u64 = (last_page - virt) / PAGE_BYTES + 1;
    let mut pages: Vec<MmioPage> = Vec::new();
    let mut i: u64 = 0;
    while i < count
        invariant
            mmio_valid(size, hhdm, phys_base),
            virt == hhdm + phys_base,
            last_page == page_floor(virt + size),
            virt <= last_page,
            last_page - virt == 4096 * ((last_page - virt) / 4096),
            count == (last_page - virt) / 4096 + 1,
            i <= count,
            pages@.len() == i,
            forall|k: int| 0 <= k < pages@.len() ==> #[trigger] pages@[k] == mmio_page(hhdm, phys_base, k),
        decreases count - i,
    {
        assert(i * 4096 <= last_page - virt) by (nonlinear_arith)
            requires
                i < count,
                count == (last_page - virt) / 4096 + 1,
                last_page - virt == 4096 * ((last_page - virt) / 4096),
        ;
        let offset: u64 = i * PAGE_BYTES;
        let page: u64 = virt + offset;
        let backing: u64 = phys_base + offset;
        let frame: u64 = backing & PAGE_MASK;
        assert(frame == backing - backing % 4096) by (bit_vector)
            requires
                frame == backing & 0xFFFF_FFFF_FFFF_F000u64,
        ;
        pages.push(MmioPage { page, frame });
        i = i + 1;
    }
    pages
}

/// A page boundary at or below `e` is at or below `e`'s page.
proof fn lemma_floor_at_least(a: int, e: int, floor: int)
    requires
        a % 4096 == 0,
        0 <= a <= e,
        floor == e - e % 4096,
    ensures
        a <= floor,
{
    vstd::arithmetic::div_mod::lemma_fundamental_div_mod(a, 4096);
    vstd::arithmetic::div_mod::lemma_fundamental_div_mod(e, 4096);
    vstd::arithmetic::div_mod::lemma_div_is_ordered(a, e, 4096);
    assert(4096 * (a / 4096) <= 4096 * (e / 4096)) by (nonlinear_arith)
        requires
            a / 4096 <= e / 4096,
    ;
}

/// Two page-aligned addresses are a whole number of pages apart.
proof fn lemma_aligned_difference(a: int, b: int)
    requires
        a % 4096 == 0,
        b % 4096 == 0,
        a <= b,
    ensures
        (b - a) % 4096 == 0,
{
    vstd::arithmetic::div_mod::lemma_fundamental_div_mod(a, 4096);
    vstd::arithmetic::div_mod::lemma_fundamental_div_mod(b, 4096);
    vstd::arithmetic::div_mod::lemma_mod_multiples_basic(b / 4096 - a / 4096, 4096);
    assert(b - a == (b / 4096 - a / 4096) * 4096) by (nonlinear_arith)
        requires
            a == 4096 * (a / 4096),
            b == 4096 * (b / 4096),
    ;
}

/// The pages that map the enhanced configuration space of `bus` buses
/// (one mebibyte each) at physical `phys_base`.
pub fn pci_mechanism_init(bus: usize, hhdm: u64, phys_base: u64) -> (pages: Vec<MmioPage>)
    requires
        bus * BUS_CONFIG_BYTES <= u64::MAX,
        mmio_valid((bus * BUS_CONFIG_BYTES) as u64, hhdm, phys_base),
    ensures
        pages@.len() == page_count(hhdm + phys_base, bus * BUS_CONFIG_BYTES),
        forall|i: int| 0 <= i < pages@.len() ==> #[trigger] pages@[i] == mmio_page(hhdm, phys_base, i),
{
    let size: u64 = bus as u64 * BUS_CONFIG_BYTES;
    mmio_init(size, hhdm, phys_base)
}

/// The pages that map the local APIC's register page at physical
/// `phys_base`.
pub fn lapic_mmio_init(hhdm: u64, phys_base: u64) -> (pages: Vec<MmioPage>)
    requires
        mmio_valid(LAPIC_MMIO_BYTES, hhdm, phys_base),
    ensures
        pages@.len() == page_count(hhdm + phys_base, LAPIC_MMIO_BYTES as int),
        forall|i: int| 0 <= i < pages@.len() ==> #[trigger] pages@[i] == mmio_page(hhdm, phys_base, i),
{
    mmio_init(LAPIC_MMIO_BYTES, hhdm, phys_base)
}

/// Page-table entry bit: the mapping is present.
pub const PTE_PRESENT: u64 = 0x1;

/// Page-table entry bit: the page may be written.
pub const PTE_WRITABLE: u64 = 0x2;

/// Page-table entry bit: accesses bypass the cache.
pub const PTE_NO_CACHE: u64 = 0x10;

/// Page-table entry bit: no instruction may be fetched from the page.
pub const PTE_NO_EXECUTE: u64 = 0x8000_0000_0000_0000;

/// The entry flags of device memory: present, writable, uncached and not
/// executable.
pub const MMIO_FLAGS: u64 = PTE_PRESENT | PTE_WRITABLE | PTE_NO_CACHE | PTE_NO_EXECUTE;

/// What to do with the page tables for one device page.
#[derive(Clone, Copy, Debug, PartialEq, Eq, Structural)]
pub enum MmioAction {
    /// The page is mapped already: give its entry `flags`.
    UpdateFlags { page: u64, flags: u64 },
    /// The page is not mapped: map it to `frame` with `flags`.
    MapTo { page: u64, frame: u64, flags: u64 },
}

/// The step for device page `p`: pages already mapped keep their frame and
/// get the device flags, the others are mapped to their frame with them.
pub fn mmio_action(p: MmioPage, already_mapped: bool) -> (a: MmioAction)
    ensures
        already_mapped ==> a == (MmioAction::UpdateFlags { page: p.page, flags: MMIO_FLAGS }),
        !already_mapped ==> a == (MmioAction::MapTo { page: p.page, frame: p.frame, flags: MMIO_FLAGS }),
{
    if already_mapped {
        MmioAction::UpdateFlags { page: p.page, flags: MMIO_FLAGS }
    } else {
        MmioAction::MapTo { page: p.page, frame: p.frame, flags: MMIO_FLAGS }
    }
}

} // verus!
