//! Turning the boot loader's memory map into the kernel's allocators: the
//! first usable region large enough holds the kernel heap, and every usable
//! region goes to the buddy allocator.
use vstd::prelude::*;
use crate::buddy::{
    region_bookkeeping, region_bookkeeping_end, region_bookkeeping_fits, roots_after_region, root_order_for,
    fresh_root, lemma_pow2_small, BuddyManager, RootModel, MIN_ORDER,
};
use crate::math::log2_floor;
use vstd::arithmetic::power2::pow2;
use crate::bump::BumpAllocator;

verus! {

/// The memory map type of memory the kernel may use.
pub const MEMMAP_USABLE: u64 = 0;

/// One region of the boot loader's memory map.
#[derive(Clone, Copy, Debug, PartialEq, Eq, Structural)]
pub struct MemmapEntry {
    pub base: u64,
    pub length: u64,
    pub type_: u64,
}

/// The entry is usable memory of at least `heap` bytes.
pub open spec fn holds_heap(e: MemmapEntry, heap: nat) -> bool {
    e.type_ == MEMMAP_USABLE && e.length >= heap
}

/// Entry `i` is the first that can hold the kernel heap.
pub open spec fn is_heap_entry(es: Seq<MemmapEntry>, heap: nat, i: int) -> bool {
    &&& 0 <= i < es.len()
    &&& holds_heap(es[i], heap)
    &&& forall|j: int| 0 <= j < i ==> !holds_heap(#[trigger] es[j], heap)
}

/// Some entry can hold the kernel heap.
pub open spec fn has_heap_entry(es: Seq<MemmapEntry>, heap: nat) -> bool {
    exists|i: int| 0 <= i < es.len() && holds_heap(es[i], heap)
}

/// The first entry that can hold the kernel heap.
pub open spec fn heap_entry(es: Seq<MemmapEntry>, heap: nat) -> int {
    choose|i: int| is_heap_entry(es, heap, i)
}

/// The kernel heap's allocator: `heap` bytes at the heap entry's base
/// moved by `offset` into the kernel's view of physical memory.
pub open spec fn heap_allocator(es: Seq<MemmapEntry>, heap: nat, offset: u64) -> BumpAllocator {
    let start = es[heap_entry(es, heap)].base + offset;
    BumpAllocator { start: start as usize, end: (start + heap) as usize, current: start as usize }
}

/// The part of a usable entry handed to the buddy allocator: all of it,
/// except the first `heap` bytes when its base equals the heap allocator's
/// start.
pub open spec fn region_of(e: MemmapEntry, k_start: int, heap: nat) -> (int, int) {
    if k_start == e.base {
        (e.base + heap, e.length - heap)
    } else {
        (e.base as int, e.length as int)
    }
}

/// The buddy allocator's roots and the heap allocator's next free address
/// after the first `n` entries were handed over.
pub open spec fn memmap_fold(
    es: Seq<MemmapEntry>,
    n: nat,
    roots: Seq<RootModel>,
    k: BumpAllocator,
    heap: nat,
) -> (Seq<RootModel>, usize)
    decreases n,
{
    if n == 0 {
        (roots, k.current)
    } else {
        let (r, c) = memmap_fold(es, (n - 1) as nat, roots, k, heap);
        let e = es[n - 1];
        let (b, l) = region_of(e, k.start as int, heap);
        if e.type_ != MEMMAP_USABLE || l == 0 {
            (r, c)
        } else {
            (roots_after_region(r, b as nat, l as nat), region_bookkeeping_end(c, k.end, l as nat))
        }
    }
}

/// Handing over the first `n` entries goes through: the heap's share of an
/// entry is never larger than the entry, every region fits the address
/// space and the heap allocator has room for its bookkeeping.
pub open spec fn memmap_fits(
    es: Seq<MemmapEntry>,
    n: nat,
    roots: Seq<RootModel>,
    k: BumpAllocator,
    heap: nat,
) -> bool
    decreases n,
{
    if n == 0 {
        true
    } else {
        let (r, c) = memmap_fold(es, (n - 1) as nat, roots, k, heap);
        let e = es[n - 1];
        let (b, l) = region_of(e, k.start as int, heap);
        &&& memmap_fits(es, (n - 1) as nat, roots, k, heap)
        &&& e.type_ == MEMMAP_USABLE ==> {
            &&& e.length <= usize::MAX
            &&& k.start == e.base ==> e.length >= heap && e.base + heap <= u64::MAX
            &&& l != 0 ==> b + l <= u64::MAX && region_bookkeeping_fits(c, k.end, l as nat)
        }
    }
}

/// The allocator for the kernel heap: `heap_size` bytes of the first usable
/// entry large enough, at its base moved by `offset`; `None` when no entry
/// is large enough.
pub fn init_kernel_alloc(entries: &[MemmapEntry], offset: u64, heap_size: usize) -> (r: Option<BumpAllocator>)
    requires
        has_heap_entry(entries@, heap_size as nat) ==> entries@[heap_entry(entries@, heap_size as nat)].base
            + offset + heap_size <= usize::MAX,
    ensures
        !has_heap_entry(entries@, heap_size as nat) ==> r is None,
        has_heap_entry(entries@, heap_size as nat) ==> r == Some(heap_allocator(entries@, heap_size as nat, offset)),
{
    let mut i: usize = 0;
    while i < entries.len()
        invariant
            i <= entries@.len(),
            forall|j: int| 0 <= j < i ==> !holds_heap(#[trigger] entries@[j], heap_size as nat),
            has_heap_entry(entries@, heap_size as nat) ==> entries@[heap_entry(entries@, heap_size as nat)].base
                + offset + heap_size <= usize::MAX,
        decreases entries@.len() - i,
    {
        let e = entries[i];
        if e.type_ == MEMMAP_USABLE && e.length >= heap_size as u64 {
            proof {
                assert(is_heap_entry(entries@, heap_size as nat, i as int));
                lemma_heap_entry_unique(entries@, heap_size as nat, i as int);
            }
            let start = (e.base + offset) as usize;
            return Some(BumpAllocator::new(start, heap_size));
        }
        i = i + 1;
    }
    None
}

/// The first entry that can hold the heap is the one `heap_entry` names.
proof fn lemma_heap_entry_unique(es: Seq<MemmapEntry>, heap: nat, i: int)
    requires
        is_heap_entry(es, heap, i),
    ensures
        heap_entry(es, heap) == i,
        has_heap_entry(es, heap),
{
    let k = heap_entry(es, heap);
    assert(is_heap_entry(es, heap, k));
    if k < i {
        assert(!holds_heap(es[k], heap));
    } else if i < k {
        assert(!holds_heap(es[i], heap));
    }
}

/// Sets up the kernel heap allocator from the memory map and hands every
/// usable entry to the buddy allocator `alloc`, less the heap's bytes where
/// an entry starts at the heap allocator's start. With no entry large
/// enough for the heap nothing is handed over and the result is `None`.
pub fn memmap_init(entries: &[MemmapEntry], alloc: &mut BuddyManager, offset: u64, heap_size: usize) -> (r: Option<
    BumpAllocator,
>)
    requires
        old(alloc).wf(),
        has_heap_entry(entries@, heap_size as nat) ==> {
            let k = heap_allocator(entries@, heap_size as nat, offset);
            &&& entries@[heap_entry(entries@, heap_size as nat)].base + offset + heap_size <= usize::MAX
            &&& memmap_fits(entries@, entries@.len(), old(alloc)@, k, heap_size as nat)
        },
    ensures
        final(alloc).wf(),
        final(alloc).kernel_offset() == old(alloc).kernel_offset(),
        !has_heap_entry(entries@, heap_size as nat) ==> r is None && final(alloc)@ == old(alloc)@,
        has_heap_entry(entries@, heap_size as nat) ==> {
            let k = heap_allocator(entries@, heap_size as nat, offset);
            let (roots, current) = memmap_fold(entries@, entries@.len(), old(alloc)@, k, heap_size as nat);
            &&& r == Some(BumpAllocator { current, ..k })
            &&& final(alloc)@ == roots
        },
{
    let kernel_alloc = init_kernel_alloc(entries, offset, heap_size);
    match kernel_alloc {
        None => None,
        Some(k0) => {
            let mut k = k0;
            let ghost roots0 = alloc@;
            let mut i: usize = 0;
            while i < entries.len()
                invariant
                    i <= entries@.len(),
                    alloc.wf(),
                    alloc.kernel_offset() == old(alloc).kernel_offset(),
                    roots0 == old(alloc)@,
                    k.start == k0.start,
                    k.end == k0.end,
                    memmap_fits(entries@, entries@.len(), roots0, k0, heap_size as nat),
                    (alloc@, k.current) == memmap_fold(entries@, i as nat, roots0, k0, heap_size as nat),
                decreases entries@.len() - i,
            {
                let e = entries[i];
                proof {
                    lemma_memmap_fits_prefix(entries@, entries@.len(), (i + 1) as nat, roots0, k0, heap_size as nat);
                }
                if e.type_ == MEMMAP_USABLE {
                    let mut len: usize = e.length as usize;
                    let mut base: u64 = e.base;
                    if k.start as u64 == base {
                        base = base + heap_size as u64;
                        len = len - heap_size;
                    }
                    if len != 0 {
                        alloc.add_region(base, len, &mut k);
                    }
                }
                i = i + 1;
            }
            Some(k)
        },
    }
}

/// A prefix of a memory map that goes through goes through too.
proof fn lemma_memmap_fits_prefix(
    es: Seq<MemmapEntry>,
    n: nat,
    m: nat,
    roots: Seq<RootModel>,
    k: BumpAllocator,
    heap: nat,
)
    requires
        memmap_fits(es, n, roots, k, heap),
        m <= n,
    ensures
        memmap_fits(es, m, roots, k, heap),
    decreases n,
{
    if m < n {
        lemma_memmap_fits_prefix(es, (n - 1) as nat, m, roots, k, heap);
    }
}

/// Handing the memory map over does not depend on the roots the buddy
/// allocator already has: neither whether it goes through nor where the
/// heap allocator's next free address ends up.
proof fn lemma_memmap_roots_irrelevant(
    es: Seq<MemmapEntry>,
    n: nat,
    r1: Seq<RootModel>,
    r2: Seq<RootModel>,
    k: BumpAllocator,
    heap: nat,
)
    ensures
        memmap_fold(es, n, r1, k, heap).1 == memmap_fold(es, n, r2, k, heap).1,
        memmap_fits(es, n, r1, k, heap) == memmap_fits(es, n, r2, k, heap),
    decreases n,
{
    if n > 0 {
        lemma_memmap_roots_irrelevant(es, (n - 1) as nat, r1, r2, k, heap);
    }
}

/// Tells whether handing `entries` to the buddy allocator goes through with
/// the heap allocator `k` (see `memmap_fits`), whatever roots the buddy
/// allocator starts with.
pub fn memmap_fits_check(entries: &[MemmapEntry], k: &BumpAllocator, heap_size: usize) -> (b: bool)
    ensures
        forall|roots: Seq<RootModel>| b == memmap_fits(entries@, entries@.len(), roots, *k, heap_size as nat),
{
    let ghost none = Seq::<RootModel>::empty();
    let mut cur: usize = k.current;
    let mut i: usize = 0;
    while i < entries.len()
        invariant
            i <= entries@.len(),
            memmap_fits(entries@, i as nat, none, *k, heap_size as nat),
            cur == memmap_fold(entries@, i as nat, none, *k, heap_size as nat).1,
        decreases entries@.len() - i,
    {
        let e = entries[i];
        if e.type_ == MEMMAP_USABLE {
            if e.length > usize::MAX as u64 {
                proof {
                    lemma_memmap_fits_prefix_fails(entries@, (i + 1) as nat, none, *k, heap_size as nat);
                    lemma_memmap_roots_irrelevant_all(entries@, none, *k, heap_size as nat);
                }
                return false;
            }
            let mut base: u64 = e.base;
            let mut len: u64 = e.length;
            if k.start as u64 == e.base {
                if e.length < heap_size as u64 || e.base > u64::MAX - heap_size as u64 {
                    proof {
                        lemma_memmap_fits_prefix_fails(entries@, (i + 1) as nat, none, *k, heap_size as nat);
                        lemma_memmap_roots_irrelevant_all(entries@, none, *k, heap_size as nat);
                    }
                    return false;
                }
                base = e.base + heap_size as u64;
                len = e.length - heap_size as u64;
            }
            if len != 0 {
                if base > u64::MAX - len {
                    proof {
                        lemma_memmap_fits_prefix_fails(entries@, (i + 1) as nat, none, *k, heap_size as nat);
                        lemma_memmap_roots_irrelevant_all(entries@, none, *k, heap_size as nat);
                    }
                    return false;
                }
                match region_bookkeeping(cur, k.end, len as usize) {
                    Some(c) => {
                        cur = c;
                    },
                    None => {
                        proof {
                            lemma_memmap_fits_prefix_fails(entries@, (i + 1) as nat, none, *k, heap_size as nat);
                            lemma_memmap_roots_irrelevant_all(entries@, none, *k, heap_size as nat);
                        }
                        return false;
                    },
                }
            }
        }
        i = i + 1;
    }
    proof {
        lemma_memmap_roots_irrelevant_all(entries@, none, *k, heap_size as nat);
    }
    true
}

/// A memory map whose prefix does not go through does not go through.
proof fn lemma_memmap_fits_prefix_fails(
    es: Seq<MemmapEntry>,
    m: nat,
    roots: Seq<RootModel>,
    k: BumpAllocator,
    heap: nat,
)
    requires
        m <= es.len(),
        !memmap_fits(es, m, roots, k, heap),
    ensures
        !memmap_fits(es, es.len(), roots, k, heap),
{
    if memmap_fits(es, es.len(), roots, k, heap) {
        lemma_memmap_fits_prefix(es, es.len(), m, roots, k, heap);
    }
}

/// `lemma_memmap_roots_irrelevant` for the whole map and every start.
proof fn lemma_memmap_roots_irrelevant_all(es: Seq<MemmapEntry>, r1: Seq<RootModel>, k: BumpAllocator, heap: nat)
    ensures
        forall|r2: Seq<RootModel>| memmap_fits(es, es.len(), r1, k, heap) == #[trigger] memmap_fits(es, es.len(), r2, k, heap),
{
    assert forall|r2: Seq<RootModel>| memmap_fits(es, es.len(), r1, k, heap) == #[trigger] memmap_fits(
        es,
        es.len(),
        r2,
        k,
        heap,
    ) by {
        lemma_memmap_roots_irrelevant(es, es.len(), r1, r2, k, heap);
    }
}

/// The entries of the memory map do not overlap.
pub open spec fn entries_disjoint(es: Seq<MemmapEntry>) -> bool {
    forall|i: int, j: int|
        0 <= i < es.len() && 0 <= j < es.len() && i != j ==> #[trigger] es[i].base + es[i].length <= #[trigger] es[j].base
            || es[j].base + es[j].length <= es[i].base
}

/// The block of root `r` lies inside `[lo, hi)`.
pub open spec fn root_within(r: RootModel, lo: int, hi: int) -> bool {
    lo <= r.start && r.start + pow2(r.order as nat) <= hi
}

/// The block of root `r` does not meet `[lo, hi)`.
pub open spec fn root_outside(r: RootModel, lo: int, hi: int) -> bool {
    r.start + pow2(r.order as nat) <= lo || hi <= r.start
}

/// Adding a region puts new roots in front of the list, each inside the
/// region, and keeps the roots already there.
proof fn lemma_region_roots_within(roots: Seq<RootModel>, start: nat, size: nat)
    requires
        start + size <= u64::MAX,
    ensures
        ({
            let res = roots_after_region(roots, start, size);
            &&& res.len() >= roots.len()
            &&& res.skip(res.len() - roots.len()) == roots
            &&& forall|i: int| 0 <= i < res.len() - roots.len() ==> root_within(#[trigger] res[i], start as int, (start + size) as int)
        }),
    decreases size,
{
    let res = roots_after_region(roots, start, size);
    if size == 0 || log2_floor(size) < MIN_ORDER {
        assert(res.skip(0) =~= roots);
    } else {
        let o = root_order_for(size);
        if 1 <= pow2(o) <= size {
            let fresh = fresh_root(start, o);
            let r2 = seq![fresh] + roots;
            lemma_region_roots_within(r2, start + pow2(o), (size - pow2(o)) as nat);
            let k = res.len() - r2.len();
            assert(res.skip(k) == r2);
            assert(res.skip(res.len() - roots.len()) =~= roots) by {
                assert forall|i: int| 0 <= i < roots.len() implies res.skip(res.len() - roots.len())[i] == roots[i] by {
                    assert(res.skip(k)[i + 1] == r2[i + 1]);
                }
            }
            assert forall|i: int| 0 <= i < res.len() - roots.len() implies root_within(#[trigger] res[i], start as int, (start + size) as int) by {
                if i == k {
                    assert(res.skip(k)[0] == fresh);
                    assert(res[i] == fresh);
                    lemma_pow2_small(o);
                }
            }
        } else {
            assert(res.skip(0) =~= roots);
        }
    }
}

/// The bytes of usable entry `j` that go to the buddy allocator lie outside
/// the kernel heap, when the heap allocator starts at the heap entry's base.
proof fn lemma_region_outside_heap(es: Seq<MemmapEntry>, j: int, heap: nat)
    requires
        has_heap_entry(es, heap),
        entries_disjoint(es),
        0 <= j < es.len(),
        es[j].type_ == MEMMAP_USABLE,
        es[heap_entry(es, heap)].base == es[j].base ==> es[j].length >= heap,
    ensures
        ({
            let h = es[heap_entry(es, heap)].base as int;
            let (b, l) = region_of(es[j], h, heap);
            &&& es[j].base <= b
            &&& b + l <= es[j].base + es[j].length
            &&& l <= 0 || b + l <= h || h + heap <= b
        }),
{
    let hi = heap_entry(es, heap);
    assert(is_heap_entry(es, heap, hi)) by {
        let w = choose|i: int| 0 <= i < es.len() && holds_heap(es[i], heap);
        lemma_first_heap_entry_exists(es, heap, w);
    }
    if j != hi {
        assert(es[j].base + es[j].length <= es[hi].base || es[hi].base + es[hi].length <= es[j].base);
    }
}

/// Some entry that can hold the heap makes a first such entry.
proof fn lemma_first_heap_entry_exists(es: Seq<MemmapEntry>, heap: nat, w: int)
    requires
        0 <= w < es.len(),
        holds_heap(es[w], heap),
    ensures
        exists|i: int| is_heap_entry(es, heap, i),
    decreases w,
{
    if exists|j: int| 0 <= j < w && holds_heap(es[j], heap) {
        let v = choose|j: int| 0 <= j < w && holds_heap(es[j], heap);
        lemma_first_heap_entry_exists(es, heap, v);
    } else {
        assert(is_heap_entry(es, heap, w));
    }
}

/// With the direct map at offset 0, handing the memory map to the buddy
/// allocator keeps the kernel heap out of it: `memmap_init` puts new roots
/// in front of the ones already there, and none of them meets the heap,
/// provided the entries of the map do not overlap.
pub proof fn lemma_heap_kept_from_buddy(es: Seq<MemmapEntry>, roots: Seq<RootModel>, heap: nat)
    requires
        has_heap_entry(es, heap),
        entries_disjoint(es),
        es[heap_entry(es, heap)].base + heap <= usize::MAX,
        memmap_fits(es, es.len(), roots, heap_allocator(es, heap, 0), heap),
    ensures
        ({
            let k = heap_allocator(es, heap, 0);
            let after = memmap_fold(es, es.len(), roots, k, heap).0;
            &&& after.len() >= roots.len()
            &&& after.skip(after.len() - roots.len()) == roots
            &&& forall|i: int|
                0 <= i < after.len() - roots.len() ==> root_outside(#[trigger] after[i], k.start as int, k.start + heap)
        }),
{
    lemma_heap_kept_prefix(es, es.len(), roots, heap);
}

proof fn lemma_heap_kept_prefix(es: Seq<MemmapEntry>, n: nat, roots: Seq<RootModel>, heap: nat)
    requires
        n <= es.len(),
        has_heap_entry(es, heap),
        entries_disjoint(es),
        es[heap_entry(es, heap)].base + heap <= usize::MAX,
        memmap_fits(es, n, roots, heap_allocator(es, heap, 0), heap),
    ensures
        ({
            let k = heap_allocator(es, heap, 0);
            let after = memmap_fold(es, n, roots, k, heap).0;
            &&& after.len() >= roots.len()
            &&& after.skip(after.len() - roots.len()) == roots
            &&& forall|i: int|
                0 <= i < after.len() - roots.len() ==> root_outside(#[trigger] after[i], k.start as int, k.start + heap)
        }),
    decreases n,
{
    let k = heap_allocator(es, heap, 0);
    let after = memmap_fold(es, n, roots, k, heap).0;
    if n == 0 {
        assert(after.skip(0) =~= roots);
    } else {
        lemma_heap_kept_prefix(es, (n - 1) as nat, roots, heap);
        let prev = memmap_fold(es, (n - 1) as nat, roots, k, heap).0;
        let e = es[n - 1];
        let (b, l) = region_of(e, k.start as int, heap);
        if e.type_ == MEMMAP_USABLE && l != 0 {
            lemma_region_roots_within(prev, b as nat, l as nat);
            lemma_region_outside_heap(es, n - 1, heap);
            let fresh_count = after.len() - prev.len();
            assert(after.skip(fresh_count) == prev);
            assert(after.skip(after.len() - roots.len()) =~= roots) by {
                assert forall|i: int| 0 <= i < roots.len() implies after.skip(after.len() - roots.len())[i] == roots[i] by {
                    assert(after.skip(fresh_count)[prev.len() - roots.len() + i] == prev[prev.len() - roots.len() + i]);
                    assert(prev.skip(prev.len() - roots.len())[i] == roots[i]);
                }
            }
            assert forall|i: int| 0 <= i < after.len() - roots.len() implies root_outside(
                #[trigger] after[i],
                k.start as int,
                k.start + heap,
            ) by {
                if i < fresh_count {
                    assert(root_within(after[i], b, b + l));
                } else {
                    assert(after.skip(fresh_count)[i - fresh_count] == prev[i - fresh_count]);
                    assert(root_outside(prev[i - fresh_count], k.start as int, k.start + heap));
                }
            }
        }
    }
}

} // verus!
