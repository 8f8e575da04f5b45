use tiny_kernel::mmio::{mmio_action, MmioAction, MMIO_FLAGS};
use tiny_kernel::boot_memory::{init_kernel_alloc, memmap_fits_check, memmap_init, MemmapEntry, MEMMAP_USABLE};
use tiny_kernel::buddy::{region_bookkeeping, BuddyManager};
use tiny_kernel::bump::BumpAllocator;
use tiny_kernel::frame_allocator::{calculate_order, BuddyAlloc};
use tiny_kernel::math::{floor_log2, pow_usize, trailing_zeros};
use tiny_kernel::mmio::{lapic_mmio_init, mmio_init, mmio_request_valid, pci_mechanism_init, MmioPage};
use tiny_kernel::page_allocator::{
    fits_address_space, KernelMemRegion, PageAllocationMapper, PageAllocator, PageLog, PageSize, VirtPages,
};
use tiny_kernel::slab::{k_mem_cache, round_power_two, SlubAllocator};

#[test]
fn bump_allocates_in_address_order_with_alignment() {
    let mut bump = BumpAllocator::new(0x1000, 0x100);
    assert_eq!(bump.k_alloc(0x10, 8), Some(0x1000));
    assert_eq!(bump.current, 0x1010);
    assert_eq!(bump.k_alloc(0x8, 0x20), Some(0x1020));
    assert_eq!(bump.current, 0x1028);
}

#[test]
fn bump_refuses_block_past_end_and_keeps_state() {
    let mut bump = BumpAllocator::new(0x1000, 0x100);
    assert_eq!(bump.k_alloc(0x101, 1), None);
    assert_eq!(bump.current, 0x1000);
    assert_eq!(bump.k_alloc(0x100, 1), Some(0x1000));
    assert_eq!(bump.k_alloc(1, 1), None);
}

#[test]
fn bump_successive_blocks_do_not_overlap() {
    let mut bump = BumpAllocator::new(0x2003, 0x1000);
    let a = bump.k_alloc(5, 4).unwrap();
    let b = bump.k_alloc(7, 16).unwrap();
    assert!(a >= 0x2003);
    assert!(a + 5 <= b);
    assert_eq!(a, 0x2004);
    assert_eq!(b, 0x2010);
}

fn manager_with_one_root() -> (BuddyManager, BumpAllocator) {
    let mut buddy = BuddyManager::new(0);
    let mut bump = BumpAllocator::new(0x10_0000, 0x1_0000);
    buddy.add_region(0x20_0000, 0x20_0000, &mut bump);
    (buddy, bump)
}

#[test]
fn buddy_add_region_takes_record_and_bitmap_from_bump() {
    let (_buddy, bump) = manager_with_one_root();
    // 48-byte record at 0x100000, then a 1023-entry bitmap.
    assert_eq!(bump.current, 0x10_0030 + 1023);
}

#[test]
fn buddy_allocations_come_from_the_root_in_order() {
    let (mut buddy, _bump) = manager_with_one_root();
    let a = buddy.allocate_bytes(4096).unwrap();
    assert_eq!(a.start_paddr, 0x20_0000);
    assert_eq!(a.length_bytes, 4096);
    let b = buddy.allocate_bytes(4096).unwrap();
    assert_eq!(b.start_paddr, 0x20_1000);
    assert_ne!(a.start_paddr, b.start_paddr);
}

#[test]
fn buddy_rounds_request_up_to_power_of_two() {
    let (mut buddy, _bump) = manager_with_one_root();
    let a = buddy.allocate_bytes(5000).unwrap();
    assert_eq!(a.length_bytes, 8192);
    assert_eq!(a.start_paddr, 0x20_0000);
}

#[test]
fn buddy_refuses_sizes_outside_orders() {
    let (mut buddy, _bump) = manager_with_one_root();
    assert!(buddy.allocate_bytes(100).is_none());
    assert!(buddy.allocate_bytes(4 * 1024 * 1024).is_none());
}

#[test]
fn buddy_without_memory_has_nothing() {
    let mut buddy = BuddyManager::new(0);
    assert!(buddy.allocate_bytes(4096).is_none());
}

#[test]
fn buddy_deallocate_misaligned_is_an_error() {
    let (mut buddy, _bump) = manager_with_one_root();
    let r = buddy.deallocate_bytes(0x20_0001, 4096);
    assert!(r.is_err());
}

#[test]
fn buddy_deallocate_outside_every_root_succeeds() {
    let (mut buddy, _bump) = manager_with_one_root();
    let r = buddy.deallocate_bytes(0x100_0000, 4096);
    assert!(r.is_ok());
}

#[test]
fn buddy_region_smaller_than_a_page_adds_nothing() {
    let mut buddy = BuddyManager::new(0);
    let mut bump = BumpAllocator::new(0x10_0000, 0x1000);
    buddy.add_region(0x20_0000, 4095, &mut bump);
    assert_eq!(bump.current, 0x10_0000);
    assert!(buddy.allocate_bytes(4096).is_none());
}

#[test]
fn page_sizes_in_bytes() {
    assert_eq!(PageSize::bytes_from_page_size(PageSize::REGULAR), 4096);
    assert_eq!(PageSize::bytes_from_page_size(PageSize::LARGE), 2 * 1024 * 1024);
    assert_eq!(PageSize::bytes_from_page_size(PageSize::HUGE), 1024 * 1024 * 1024);
}

#[test]
fn virt_pages_count_from_bytes_uses_low_byte() {
    let p = VirtPages::new_with_bytes(4096, PageSize::REGULAR, 0x1000);
    assert_eq!(p.page_count, 1);
    let q = VirtPages::new_with_bytes(10, PageSize::REGULAR, 0x1000);
    assert_eq!(q.page_count, 11);
    let r = VirtPages::new(3, PageSize::LARGE, 0);
    assert_eq!(r.calc_bytes(), 3 * 2 * 1024 * 1024);
}

#[test]
fn kernel_mem_region_holds_fields() {
    let r = KernelMemRegion::new(0x5000, 0x2000);
    assert_eq!(r.start_paddr, 0x5000);
    assert_eq!(r.length_bytes, 0x2000);
}

#[test]
fn page_table_entries_step_by_page_size() {
    let e = PageAllocationMapper::page_table_entries(0x1000, 0x8000, PageSize::REGULAR, 3);
    assert_eq!(e, vec![(0x8000, 0x1000), (0x9000, 0x2000), (0xA000, 0x3000)]);
}

#[test]
fn page_mapper_kernel_pages_are_in_direct_map() {
    let (buddy, _bump) = manager_with_one_root();
    let mut mapper = PageAllocationMapper::new(0xFFFF_8000_0000_0000, buddy);
    let p = mapper.kernel_allocate_pages(2, PageSize::REGULAR).unwrap();
    assert_eq!(p.start_addr, 0xFFFF_8000_0020_0000);
    assert_eq!(p.page_count, 2);
    // the bitmap search only looks at the generation asked for, so a page
    // under the two-page block is still handed out
    let q = mapper.allocate_pages(1, PageSize::REGULAR).unwrap();
    assert_eq!(q.start_addr, 0x20_0000);
}

#[test]
fn run_fits_address_space_check() {
    assert!(fits_address_space(&VirtPages::new(1, PageSize::REGULAR, 0x1000)));
    assert!(!fits_address_space(&VirtPages::new(0, PageSize::REGULAR, 0x1000)));
    assert!(!fits_address_space(&VirtPages::new(1, PageSize::REGULAR, u64::MAX - 10)));
}

struct FixedPages {
    next: u64,
    log: PageLog,
}

fn fixed_pages(next: u64) -> FixedPages {
    FixedPages { next, log: PageLog::new() }
}

impl FixedPages {
    fn take(&mut self, count: u8, pg: PageSize) -> Option<VirtPages> {
        let p = VirtPages::new(count, pg, self.next);
        self.next += 0x1_0000;
        Some(p)
    }
}

impl PageAllocator for FixedPages {
    fn page_log(&self) -> PageLog {
        self.log
    }

    fn allocate_pages(&mut self, count: u8, pg: PageSize) -> Option<VirtPages> {
        let answer = self.take(count, pg);
        self.log.note_mapped(count, pg, &answer);
        answer
    }

    fn deallocate_pages(&mut self, pages: VirtPages) {
        self.log.note_freed(&pages);
    }

    fn kernel_allocate_pages(&mut self, count: u8, pg: PageSize) -> Option<VirtPages> {
        let answer = self.take(count, pg);
        self.log.note_kernel(count, pg, &answer);
        answer
    }
}

#[test]
fn slab_default_caches_and_levels() {
    let slub: SlubAllocator<FixedPages> = SlubAllocator::default();
    assert_eq!(slub.caches.len(), 9);
    assert_eq!(slub.caches[8].object_size, 2048);
    assert_eq!(slub.evaluate_level_cache(1), Some(0));
    assert_eq!(slub.evaluate_level_cache(8), Some(0));
    assert_eq!(slub.evaluate_level_cache(9), Some(1));
    assert_eq!(slub.evaluate_level_cache(100), Some(4));
    assert_eq!(slub.evaluate_level_cache(2048), Some(8));
    assert_eq!(slub.evaluate_level_cache(2049), None);
}

#[test]
fn slab_alloc_object_takes_objects_from_a_fresh_page() {
    let mut slub: SlubAllocator<FixedPages> = SlubAllocator::default();
    assert!(slub.page_alloc.is_none());
    slub.set_page_allocator(fixed_pages(0x10_0000));
    let a = slub.alloc_object(8).unwrap();
    let b = slub.alloc_object(8).unwrap();
    // objects start after the 32-byte header, rounded to 16
    assert_eq!(a, 0x10_0020);
    assert_eq!(b, 0x10_0028);
    let c = slub.alloc_object(100).unwrap();
    assert_eq!(c, 0x11_0020);
}

#[test]
fn slab_cache_grow_lists_objects() {
    let mut cache = k_mem_cache::new(512);
    cache.grow(0x4000, 4096);
    assert_eq!(cache.slabs.len(), 1);
    assert_eq!(cache.node.active, Some(0));
    assert_eq!(cache.slabs[0].free_list, vec![0x4020, 0x4220, 0x4420, 0x4620, 0x4820, 0x4A20, 0x4C20]);
}

#[test]
fn round_power_two_values() {
    assert_eq!(round_power_two(0), 1);
    assert_eq!(round_power_two(1), 1);
    assert_eq!(round_power_two(3), 4);
    assert_eq!(round_power_two(64), 64);
    assert_eq!(round_power_two(65), 128);
}

#[test]
fn math_helpers() {
    assert_eq!(floor_log2(1), 0);
    assert_eq!(floor_log2(4095), 11);
    assert_eq!(floor_log2(4096), 12);
    assert_eq!(trailing_zeros(0x100), 8);
    assert_eq!(trailing_zeros(0), usize::BITS);
    assert_eq!(pow_usize(3, 4), 81);
    assert_eq!(calculate_order(0), 0);
    assert_eq!(calculate_order(1), 0);
    assert_eq!(calculate_order(4096), 12);
    assert_eq!(calculate_order(5000), 12);
}

#[test]
fn draft_frame_allocator_accepts_empty_region() {
    let mut a = BuddyAlloc::new(0xFFFF_8000_0000_0000);
    a.add_region(0x1000, 0);
    assert_eq!(a.physical_offset, 0xFFFF_8000_0000_0000);
    assert!(a.roots.is_empty());
}

fn entry(base: u64, length: u64, type_: u64) -> MemmapEntry {
    MemmapEntry { base, length, type_ }
}

#[test]
fn kernel_heap_goes_to_first_usable_entry_large_enough() {
    let entries = vec![
        entry(0x1000, 0x1000, MEMMAP_USABLE),
        entry(0x10_0000, 0x10_0000, 1),
        entry(0x20_0000, 0x40_0000, MEMMAP_USABLE),
        entry(0x80_0000, 0x40_0000, MEMMAP_USABLE),
    ];
    let k = init_kernel_alloc(&entries, 0x1000_0000, 0x10_0000).unwrap();
    assert_eq!(k.start, 0x1020_0000);
    assert_eq!(k.end, 0x1030_0000);
    assert_eq!(k.current, 0x1020_0000);
    assert!(init_kernel_alloc(&entries, 0, 0x100_0000).is_none());
}

#[test]
fn memmap_init_hands_usable_entries_to_buddy() {
    let entries = vec![entry(0x20_0000, 0x40_0000, MEMMAP_USABLE), entry(0x80_0000, 0x20_0000, 2)];
    let mut buddy = BuddyManager::new(0);
    let k = memmap_init(&entries, &mut buddy, 0, 0x10_0000).unwrap();
    assert_eq!(k.start, 0x20_0000);
    // the heap's megabyte is skipped: 3 MiB from 0x300000 become a 2 MiB and a 1 MiB root
    assert_eq!(k.current, 0x20_0000 + 48 + 1023 + 1 + 48 + 511);
    let a = buddy.allocate_bytes(2 * 1024 * 1024).unwrap();
    assert_eq!(a.start_paddr, 0x30_0000);
    let b = buddy.allocate_bytes(1024 * 1024).unwrap();
    assert_eq!(b.start_paddr, 0x50_0000);
}

#[test]
fn memmap_init_without_heap_entry_does_nothing() {
    let entries = vec![entry(0x20_0000, 0x1000, MEMMAP_USABLE)];
    let mut buddy = BuddyManager::new(0);
    assert!(memmap_init(&entries, &mut buddy, 0, 0x10_0000).is_none());
    assert!(buddy.allocate_bytes(4096).is_none());
}

#[test]
fn mmio_pages_cover_range_inclusive() {
    let pages = mmio_init(0x2000, 0xFFFF_8000_0000_0000, 0xFEE0_0000);
    assert_eq!(
        pages,
        vec![
            MmioPage { page: 0xFFFF_8000_FEE0_0000, frame: 0xFEE0_0000 },
            MmioPage { page: 0xFFFF_8000_FEE0_1000, frame: 0xFEE0_1000 },
            MmioPage { page: 0xFFFF_8000_FEE0_2000, frame: 0xFEE0_2000 },
        ]
    );
}

#[test]
fn lapic_and_pci_mmio_sizes() {
    let lapic = lapic_mmio_init(0xFFFF_8000_0000_0000, 0xFEE0_0000);
    assert_eq!(lapic.len(), 2);
    let pci = pci_mechanism_init(2, 0xFFFF_8000_0000_0000, 0xB000_0000);
    assert_eq!(pci.len(), 513);
    assert_eq!(pci[512].frame, 0xB020_0000);
}

#[test]
fn region_bookkeeping_predicts_bump_use() {
    assert_eq!(region_bookkeeping(0x10_0000, 0x11_0000, 0x20_0000), Some(0x10_0030 + 1023));
    assert_eq!(region_bookkeeping(0x10_0000, 0x11_0000, 0x30_0000), Some(0x10_0000 + 1631));
    assert_eq!(region_bookkeeping(0x10_0000, 0x10_0100, 0x20_0000), None);
    assert_eq!(region_bookkeeping(0x10_0000, 0x10_0000, 100), Some(0x10_0000));
}

#[test]
fn buddy_deallocation_precheck() {
    let (buddy, _bump) = manager_with_one_root();
    assert!(buddy.deallocation_returns(0x20_0001, 4096));
    assert!(!buddy.deallocation_returns(0x20_1000, 4096));
    assert!(!buddy.deallocation_returns(0x20_0001, 4 * 1024 * 1024));
    assert!(buddy.deallocation_returns(0x100_0000, 4096));
    assert!(buddy.blocks_fit_with_offset(0xFFFF_8000_0000_0000));
    assert!(!buddy.blocks_fit_with_offset(u64::MAX - 0x10_0000));
}

#[test]
fn memmap_fits_check_matches_bookkeeping_room() {
    let entries = vec![entry(0x20_0000, 0x40_0000, MEMMAP_USABLE)];
    let roomy = BumpAllocator::new(0x20_0000, 0x10_0000);
    assert!(memmap_fits_check(&entries, &roomy, 0x10_0000));
    let cramped = BumpAllocator::new(0x20_0000, 0x100);
    assert!(!memmap_fits_check(&entries, &cramped, 0x100));
}

#[test]
fn mmio_request_validity() {
    assert!(mmio_request_valid(0x2000, 0xFFFF_8000_0000_0000, 0xFEE0_0000));
    assert!(!mmio_request_valid(0x2000, 0xFFFF_8000_0000_0000, 0xFEE0_0010));
    assert!(!mmio_request_valid(0x2000, 0x0000_8000_0000_0000, 0));
    assert!(!mmio_request_valid(0x1000, 0, 1u64 << 52));
}

#[test]
fn single_page_requests_ask_for_one_page() {
    let mut pages = fixed_pages(0x40_0000);
    let p = pages.allocate_page(PageSize::LARGE).unwrap();
    assert_eq!(p.page_count, 1);
    assert_eq!(p.page_size, PageSize::LARGE);
    assert_eq!(p.start_addr, 0x40_0000);
    let k = pages.kernel_allocate_page(PageSize::REGULAR).unwrap();
    assert_eq!(k.page_count, 1);
    assert_eq!(k.page_size, PageSize::REGULAR);
    assert_eq!(k.start_addr, 0x41_0000);
}

#[test]
fn device_pages_get_uncached_flags() {
    assert_eq!(MMIO_FLAGS, 0x8000_0000_0000_0013);
    let p = MmioPage { page: 0xFFFF_8000_E000_0000, frame: 0xE000_0000 };
    assert_eq!(mmio_action(p, true), MmioAction::UpdateFlags { page: p.page, flags: MMIO_FLAGS });
    assert_eq!(mmio_action(p, false), MmioAction::MapTo { page: p.page, frame: p.frame, flags: MMIO_FLAGS });
}

#[test]
fn slab_cache_grow_on_a_tiny_page_gives_an_empty_slab() {
    let mut cache = k_mem_cache::new(8);
    cache.grow(0x4000, 32);
    assert_eq!(cache.slabs.len(), 1);
    assert_eq!(cache.node.active, Some(0));
    assert!(cache.slabs[0].free_list.is_empty());
}
