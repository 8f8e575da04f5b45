//! The slab caches behind the kernel heap: objects of one size are carved
//! from pages, kept on free lists, and handed out from the active slab.
use vstd::prelude::*;
use vstd::arithmetic::power2::pow2;
use vstd::arithmetic::power::pow;
use crate::math::{floor_log2, log2_floor, trailing_zeros, trailing_zeros_of, pow_usize};
use crate::page_allocator::{PageAllocator, PageRequest, PageSize, VirtPages, fits_address_space, page_bytes, run_in_address_space};

verus! {

/// Objects are aligned to 16 bytes: `ALIGN_MASK` is the mask of the low bits.
pub const ALIGN_MASK: usize = 15;

/// Bytes taken at the start of each page by the slab record (a free-list
/// head and a link to the next slab).
pub const SLAB_HEADER_BYTES: usize = 32;

/// A page cut into objects; `free_list` holds the addresses of its free
/// objects, head first, and `next` links it into the cache's partial list.
pub struct Slab {
    pub start: usize,
    pub free_list: Vec<usize>,
    pub next: Option<usize>,
}

/// Which slabs a cache works from: the active one and the head of the list
/// of partially used ones (indices into the cache's slabs).
#[allow(non_camel_case_types)]
pub struct k_mem_cache_node {
    pub count: usize,
    pub active: Option<usize>,
    pub partial_first: Option<usize>,
}

/// A cache of objects of `object_size` bytes.
#[allow(non_camel_case_types)]
pub struct k_mem_cache {
    pub object_size: u16,
    pub node: k_mem_cache_node,
    pub slabs: Vec<Slab>,
}

/// Address of the first object of a slab whose page starts at `page_start`:
/// just after the slab record, rounded up to 16 bytes.
pub open spec fn first_object(page_start: int) -> int {
    ((page_start + SLAB_HEADER_BYTES + ALIGN_MASK) as usize & !ALIGN_MASK) as int
}

/// Addresses of the objects that fit between `first` and `end`, `size` apart.
pub open spec fn object_slots(first: int, end: int, size: int) -> Seq<usize>
    decreases end - first,
{
    if size > 0 && first + size <= end {
        seq![first as usize] + object_slots(first + size, end, size)
    } else {
        Seq::empty()
    }
}

/// What a slab is: its page, its free objects (head first) and its link in
/// the partial list.
pub struct SlabModel {
    pub start: usize,
    pub free_list: Seq<usize>,
    pub next: Option<usize>,
}

/// What a cache is: its object size, replacement count, active slab,
/// partial list head and slabs.
pub struct CacheModel {
    pub object_size: u16,
    pub count: usize,
    pub active: Option<usize>,
    pub partial_first: Option<usize>,
    pub slabs: Seq<SlabModel>,
}

impl Slab {
    /// The slab as a value.
    pub open spec fn view(&self) -> SlabModel {
        SlabModel { start: self.start, free_list: self.free_list@, next: self.next }
    }
}

impl k_mem_cache {
    /// The cache as a value.
    pub open spec fn view(&self) -> CacheModel {
        CacheModel {
            object_size: self.object_size,
            count: self.node.count,
            active: self.node.active,
            partial_first: self.node.partial_first,
            slabs: self.slabs@.map_values(|s: Slab| s@),
        }
    }
}

/// The cache after the page at `page_start` of `page_size` bytes was cut
/// into objects and made the active slab.
pub open spec fn grown(c: CacheModel, page_start: usize, page_size: nat) -> CacheModel {
    CacheModel {
        slabs: c.slabs.push(
            SlabModel {
                start: page_start,
                free_list: object_slots(
                    first_object(page_start as int),
                    page_start + page_size,
                    c.object_size as int,
                ),
                next: None,
            },
        ),
        active: Some(c.slabs.len() as usize),
        count: if c.active is None {
            0
        } else {
            (c.count + 1) as usize
        },
        ..c
    }
}

/// The page allocator's answer to a request for one regular page: nothing,
/// or one page of the regular size.
pub open spec fn one_regular_page(page: Option<VirtPages>) -> bool {
    page matches Some(p) ==> p.page_count == 1 && p.page_size == PageSize::REGULAR
}

/// The page allocator's log `after` is `before` with one more call: a
/// request for one regular page in the kernel's direct map, answered `page`.
pub open spec fn asked_one_kernel_page(before: Seq<PageRequest>, after: Seq<PageRequest>, page: Option<VirtPages>) -> bool {
    after == before.push(PageRequest::Kernel { count: 1, size: PageSize::REGULAR, answer: page })
}

/// A run from the page allocator that a cache can grow from: real memory,
/// the whole run taken as the slab's page.
pub open spec fn usable_page(page: Option<VirtPages>) -> bool {
    page matches Some(p) && run_in_address_space(p)
}

/// The cache after growing from `page` (unchanged when it is not usable).
pub open spec fn grown_from(c: CacheModel, page: Option<VirtPages>) -> CacheModel {
    match page {
        Some(p) => grown(c, p.start_addr as usize, (page_bytes(p.page_size) * p.page_count) as nat),
        None => c,
    }
}

/// The cache after replacing its active slab when the page allocator
/// answers `page` if asked: the first partial slab (unlinked) when there is
/// one; otherwise a slab grown from the page, or no active slab when the
/// page is not usable.
pub open spec fn changed_active(c: CacheModel, page: Option<VirtPages>) -> CacheModel {
    match c.partial_first {
        Some(p) => CacheModel {
            active: Some(p),
            partial_first: c.slabs[p as int].next,
            slabs: c.slabs.update(p as int, SlabModel { next: None, ..c.slabs[p as int] }),
            ..c
        },
        None => if usable_page(page) {
            grown_from(c, page)
        } else {
            CacheModel { active: None, ..c }
        },
    }
}

/// The cache after handing out the head of its active slab's free list,
/// and that object; nothing when there is no active slab or it is full.
pub open spec fn served(c: CacheModel) -> (CacheModel, Option<usize>) {
    match c.active {
        Some(a) => if c.slabs[a as int].free_list.len() > 0 {
            (
                CacheModel {
                    slabs: c.slabs.update(
                        a as int,
                        SlabModel { free_list: c.slabs[a as int].free_list.drop_first(), ..c.slabs[a as int] },
                    ),
                    ..c
                },
                Some(c.slabs[a as int].free_list[0]),
            )
        } else {
            (c, None)
        },
        None => (c, None),
    }
}

/// The cache after an allocation and the object handed out, when the page
/// allocator answers `page` if asked: a cache without an active slab grows
/// from the page (nothing happens when it is not usable); a cache whose
/// active slab is full replaces it; then the head of the active slab's free
/// list is handed out.
pub open spec fn alloc_outcome(c: CacheModel, page: Option<VirtPages>) -> (CacheModel, Option<usize>) {
    match c.active {
        None => if usable_page(page) {
            served(grown_from(c, page))
        } else {
            (c, None)
        },
        Some(a) => if c.slabs[a as int].free_list.len() == 0 {
            served(changed_active(c, page))
        } else {
            served(c)
        },
    }
}

/// The slab indices a cache keeps (active, partial list head, links) point at its slabs.
pub open spec fn slab_indices_ok(c: &k_mem_cache) -> bool {
    &&& c.node.active matches Some(a) ==> a < c.slabs.len()
    &&& c.node.partial_first matches Some(p) ==> p < c.slabs.len()
    &&& forall|i: int|
        0 <= i < c.slabs.len() ==> (#[trigger] c.slabs@[i].next matches Some(n) ==> n
            < c.slabs.len())
}

impl k_mem_cache {
    /// An empty cache for objects of `object_size` bytes.
    pub fn new(object_size: u16) -> (r: Self)
        ensures
            r.object_size == object_size,
            r.node.count == 0,
            r.node.active is None,
            r.node.partial_first is None,
            r.slabs@.len() == 0,
    {
        k_mem_cache {
            object_size,
            node: k_mem_cache_node { count: 0, partial_first: None, active: None },
            slabs: Vec::new(),
        }
    }

    /// Cuts the page at `page_start` into objects and makes it the active
    /// slab.  A previous active slab (full when this is called) is left
    /// behind; `count` counts such replacements.
    pub fn grow(&mut self, page_start: usize, page_size: usize)
        requires
            slab_indices_ok(old(self)),
            old(self).object_size > 0,
            page_size >= SLAB_HEADER_BYTES,
            page_start + page_size <= usize::MAX,
            page_start + SLAB_HEADER_BYTES + ALIGN_MASK <= usize::MAX,
            old(self).node.active is Some ==> old(self).node.count < usize::MAX,
        ensures
            slab_indices_ok(final(self)),
            final(self)@ == grown(old(self)@, page_start, page_size as nat),
            final(self).object_size == old(self).object_size,
            final(self).slabs@.len() == old(self).slabs@.len() + 1,
            forall|i: int| 0 <= i < old(self).slabs@.len() ==> #[trigger] final(self).slabs@[i] == old(self).slabs@[i],
            final(self).slabs@.last().start == page_start,
            final(self).slabs@.last().free_list@ == object_slots(
                first_object(page_start as int),
                page_start + page_size,
                old(self).object_size as int,
            ),
            final(self).slabs@.last().next is None,
            final(self).node.active == Some(old(self).slabs@.len() as usize),
            final(self).node.partial_first == old(self).node.partial_first,
            final(self).node.count == if old(self).node.active is None {
                0
            } else {
                old(self).node.count + 1
            },
    {
        let first = (page_start + SLAB_HEADER_BYTES + ALIGN_MASK) & !ALIGN_MASK;
        let page_end = page_start + page_size;
        let size = self.object_size as usize;
        proof {
            let x = (page_start + SLAB_HEADER_BYTES + ALIGN_MASK) as usize;
            assert(x & !15usize <= x) by (bit_vector);
        }
        let mut objects: Vec<usize> = Vec::new();
        let mut obj = first;
        while obj <= page_end && size <= page_end - obj
            invariant
                obj <= page_end || obj == first,
                size > 0,
                size == old(self).object_size,
                objects@ + object_slots(obj as int, page_end as int, size as int) == object_slots(
                    first as int,
                    page_end as int,
                    size as int,
                ),
            decreases page_end - obj,
        {
            let ghost before = objects@;
            objects.push(obj);
            proof {
                assert(objects@ + object_slots(obj + size, page_end as int, size as int) =~= before
                    + object_slots(obj as int, page_end as int, size as int));
            }
            obj = obj + size;
        }
        proof {
            assert(object_slots(obj as int, page_end as int, size as int) =~= Seq::<usize>::empty());
            assert(objects@ =~= objects@ + object_slots(obj as int, page_end as int, size as int));
        }
        let index = self.slabs.len();
        self.slabs.push(Slab { start: page_start, free_list: objects, next: None });
        if self.node.active.is_none() {
            self.node.active = Some(index);
            self.node.count = 0;
        } else {
            self.node.active = Some(index);
            self.node.count = self.node.count + 1;
        }
        proof {
            assert forall|i: int| 0 <= i < self.slabs.len() implies (#[trigger] self.slabs@[i].next matches Some(
                n,
            ) ==> n < self.slabs.len()) by {
                if i < index {
                    assert(self.slabs@[i] == old(self).slabs@[i]);
                }
            }
            assert(self.slabs@.map_values(|s: Slab| s@) =~= old(self).slabs@.map_values(|s: Slab| s@).push(
                SlabModel {
                    start: page_start,
                    free_list: object_slots(first_object(page_start as int), page_end as int, size as int),
                    next: None,
                },
            ));
        }
    }

    /// Replaces the active slab: with the first partial slab when there is
    /// one (unlinking it), otherwise with a fresh page from `alloc`; when no
    /// page can be had, or the allocator hands out a run that is empty or
    /// leaves the address space, the cache is left without an active slab
    /// (see `changed_active`; what `alloc` answers is up to it).
    pub fn change_active<A: PageAllocator>(&mut self, alloc: &mut A)
        requires
            slab_indices_ok(old(self)),
            old(self).object_size > 0,
            old(self).node.active is Some ==> old(self).node.count < usize::MAX,
        ensures
            slab_indices_ok(final(self)),
            final(self).object_size == old(self).object_size,
            old(self).node.partial_first is Some ==> final(self)@ == changed_active(old(self)@, None)
                && *final(alloc) == *old(alloc),
            old(self).node.partial_first is None ==> exists|page: Option<VirtPages>|
                one_regular_page(page) && asked_one_kernel_page(
                    old(alloc).page_log().entries(),
                    final(alloc).page_log().entries(),
                    page,
                ) && final(self)@ == changed_active(old(self)@, page),
    {
        match self.node.partial_first {
            None => {
                let answer = alloc.kernel_allocate_page(PageSize::REGULAR);
                let ghost given = answer;
                match answer {
                    Some(page) if fits_address_space(&page) => {
                        proof {
                            assert(page_bytes(page.page_size) >= 4096);
                            assert(page_bytes(page.page_size) * page.page_count >= page_bytes(
                                page.page_size,
                            )) by (nonlinear_arith)
                                requires
                                    page.page_count >= 1,
                            ;
                        }
                        let bytes = page.calc_bytes();
                        self.grow(page.start_addr as usize, bytes);
                        proof {
                            assert(self@ == changed_active(old(self)@, given));
                            assert(one_regular_page(given));
                        }
                    },
                    _ => {
                        self.node.active = None;
                        proof {
                            assert(self@ == changed_active(old(self)@, given));
                            assert(one_regular_page(given));
                        }
                    },
                }
            },
            Some(first) => {
                let next = self.slabs[first].next;
                self.node.active = Some(first);
                self.node.partial_first = next;
                let ghost before = self.slabs@;
                let mut slab = self.slabs.remove(first);
                slab.next = None;
                self.slabs.insert(first, slab);
                proof {
                    assert(self.slabs@ =~= before.update(first as int, Slab { next: None, ..before[first as int] }));
                    assert(self.slabs@.map_values(|s: Slab| s@) =~= old(self)@.slabs.update(
                        first as int,
                        SlabModel { next: None, ..old(self)@.slabs[first as int] },
                    ));
                    assert(self@ == changed_active(old(self)@, None));
                    assert(one_regular_page(None));
                    assert forall|i: int| 0 <= i < self.slabs.len() implies (#[trigger] self.slabs@[i].next matches Some(
                        n,
                    ) ==> n < self.slabs.len()) by {
                        if i != first {
                            assert(self.slabs@[i] == before[i]);
                        }
                    }
                }
            },
        }
    }
}

/// Hands out the head of the active slab's free list.
fn serve(cache: &mut k_mem_cache) -> (r: Option<usize>)
    requires
        slab_indices_ok(old(cache)),
    ensures
        slab_indices_ok(final(cache)),
        (final(cache)@, r) == served(old(cache)@),
        final(cache).object_size == old(cache).object_size,
{
    match cache.node.active {
        Some(active) => {
            if cache.slabs[active].free_list.len() > 0 {
                let ghost before = cache.slabs@;
                let mut slab = cache.slabs.remove(active);
                let head = slab.free_list.remove(0);
                cache.slabs.insert(active, slab);
                proof {
                    assert(cache.slabs@.len() == before.len());
                    assert forall|i: int| 0 <= i < cache.slabs.len() implies (#[trigger] cache.slabs@[i].next matches Some(
                        n,
                    ) ==> n < cache.slabs.len()) by {
                        if i != active {
                            assert(cache.slabs@[i] == before[i]);
                        }
                    }
                    assert(cache.slabs@.map_values(|s: Slab| s@) =~= old(cache)@.slabs.update(
                        active as int,
                        SlabModel {
                            free_list: old(cache)@.slabs[active as int].free_list.drop_first(),
                            ..old(cache)@.slabs[active as int]
                        },
                    ));
                }
                Some(head)
            } else {
                None
            }
        },
        None => None,
    }
}

/// `size` rounded up to a power of two (1 for sizes 0 and 1).
pub fn round_power_two(size: usize) -> (r: usize)
    requires
        size <= 1 || log2_floor((size - 1) as nat) + 1 < usize::BITS,
    ensures
        size <= 1 ==> r == 1,
        size > 1 ==> r == pow2(log2_floor((size - 1) as nat) + 1),
{
    if size <= 1 {
        return 1;
    }
    let power = floor_log2(size - 1) + 1;
    proof {
        vstd::bits::lemma_usize_pow2_no_overflow(power as nat);
        vstd::bits::lemma_usize_shl_is_mul(1, power as usize);
    }
    1usize << (power as usize)
}

/// The slab allocator: caches of growing object sizes, starting at
/// `start_obj_size` and multiplied by `incr_factor` from one cache to the
/// next, and the page allocator the caches grow from.
pub struct SlubAllocator<A: PageAllocator> {
    pub caches: Vec<k_mem_cache>,
    pub page_alloc: Option<A>,
    pub incr_factor: u8,
    pub start_obj_size: u8,
}

/// Cache that `evaluate_level_cache` picks for `size`: 0 for sizes up to the
/// first object size; otherwise the power-of-two rounding of `size` measured
/// in factor steps above the first object size; none for sizes above the
/// largest cache or a factor that is not even.
pub open spec fn level_for(size: nat, obj: nat, factor: nat, n: nat) -> Option<nat> {
    if size > obj * pow(factor as int, (n - 1) as nat) {
        None
    } else if size <= obj {
        Some(0)
    } else {
        let rounded = if size <= 1 { 1 } else { pow2(log2_floor((size - 1) as nat) + 1) };
        let diff = (trailing_zeros_of(rounded) - trailing_zeros_of(obj)) as nat;
        let step = trailing_zeros_of(factor);
        if step == 0 {
            None
        } else if diff / step >= n {
            None
        } else {
            Some((diff / step) as nat)
        }
    }
}

/// An allocation from `c` asks the page allocator for a page: `c` has no
/// active slab, or its active slab is full and no partial slab is left.
pub open spec fn asks_page(c: &k_mem_cache) -> bool {
    match c.node.active {
        None => true,
        Some(a) => c.slabs@[a as int].free_list@.len() == 0 && c.node.partial_first is None,
    }
}

/// Serving from cache `c` first replaces or creates its active slab: the
/// cache has no active slab, or its active slab is full.
pub open spec fn needs_page(c: &k_mem_cache) -> bool {
    match c.node.active {
        None => true,
        Some(a) => c.slabs@[a as int].free_list@.len() == 0,
    }
}

impl<A: PageAllocator> SlubAllocator<A> {
    /// Nine caches of 8, 16, ..., 2048 bytes, no page allocator yet.
    pub fn default() -> (r: Self)
        ensures
            r.caches.len() == 9,
            forall|i: int| 0 <= i < 9 ==> #[trigger] r.caches@[i].object_size == 8 * pow2(i as nat),
            forall|i: int| 0 <= i < 9 ==> slab_indices_ok(&#[trigger] r.caches@[i]),
            forall|i: int| 0 <= i < 9 ==> #[trigger] r.caches@[i].node.active is None,
            r.page_alloc is None,
            r.incr_factor == 2,
            r.start_obj_size == 8,
    {
        let mut caches: Vec<k_mem_cache> = Vec::new();
        caches.push(k_mem_cache::new(8));
        caches.push(k_mem_cache::new(16));
        caches.push(k_mem_cache::new(32));
        caches.push(k_mem_cache::new(64));
        caches.push(k_mem_cache::new(128));
        caches.push(k_mem_cache::new(256));
        caches.push(k_mem_cache::new(512));
        caches.push(k_mem_cache::new(1024));
        caches.push(k_mem_cache::new(2048));
        proof {
            vstd::arithmetic::power2::lemma2_to64();
        }
        SlubAllocator { caches, page_alloc: None, incr_factor: 2, start_obj_size: 8 }
    }

    /// Makes `alloc` the allocator the caches take pages from.
    pub fn set_page_allocator(&mut self, alloc: A)
        ensures
            final(self).page_alloc == Some(alloc),
            final(self).caches@ == old(self).caches@,
            final(self).incr_factor == old(self).incr_factor,
            final(self).start_obj_size == old(self).start_obj_size,
    {
        self.page_alloc = Some(alloc);
    }

    /// Hands out an object of at least `size` bytes from the matching cache:
    /// the head of the active slab's free list.  A cache without an active
    /// slab first grows from a fresh page; one whose active slab is full
    /// first switches to its next partial slab or a fresh page.  `None` when
    /// no cache fits the size or no object can be had (a run that is empty or
    /// leaves the address space counts as no page).  See `alloc_outcome`;
    /// which page the page allocator answers is up to it.
    pub fn alloc_object(&mut self, size: usize) -> (r: Option<usize>)
        requires
            old(self).caches.len() >= 1,
            old(self).start_obj_size * pow(old(self).incr_factor as int, (old(self).caches.len() - 1) as nat)
                <= usize::MAX / 2 + 1,
            pow(old(self).incr_factor as int, (old(self).caches.len() - 1) as nat) <= usize::MAX,
            old(self).caches.len() - 1 <= u32::MAX,
            forall|i: int| 0 <= i < old(self).caches.len() ==> slab_indices_ok(&#[trigger] old(self).caches@[i]),
            forall|i: int| 0 <= i < old(self).caches.len() ==> #[trigger] old(self).caches@[i].object_size > 0,
            forall|i: int| 0 <= i < old(self).caches.len() ==> #[trigger] old(self).caches@[i].node.count < usize::MAX,
            level_for(size as nat, old(self).start_obj_size as nat, old(self).incr_factor as nat, old(self).caches.len() as nat) matches Some(l)
                ==> needs_page(&old(self).caches@[l as int]) ==> old(self).page_alloc is Some,
        ensures
            final(self).caches.len() == old(self).caches.len(),
            final(self).incr_factor == old(self).incr_factor,
            final(self).start_obj_size == old(self).start_obj_size,
            level_for(size as nat, old(self).start_obj_size as nat, old(self).incr_factor as nat, old(self).caches.len() as nat) is None
                ==> r is None && final(self).caches@ == old(self).caches@ && final(self).page_alloc == old(self).page_alloc,
            level_for(size as nat, old(self).start_obj_size as nat, old(self).incr_factor as nat, old(self).caches.len() as nat) matches Some(l)
                ==> ({
                &&& forall|i: int| 0 <= i < old(self).caches.len() && i != l ==> #[trigger] final(self).caches@[i] == old(self).caches@[i]
                &&& slab_indices_ok(&final(self).caches@[l as int])
                &&& asks_page(&old(self).caches@[l as int]) ==> final(self).page_alloc is Some && exists|
                    page: Option<VirtPages>,
                |
                    one_regular_page(page) && asked_one_kernel_page(
                        old(self).page_alloc->0.page_log().entries(),
                        final(self).page_alloc->0.page_log().entries(),
                        page,
                    ) && (final(self).caches@[l as int]@, r) == alloc_outcome(old(self).caches@[l as int]@, page)
                &&& !asks_page(&old(self).caches@[l as int]) ==> final(self).page_alloc == old(self).page_alloc
                    && (final(self).caches@[l as int]@, r) == alloc_outcome(old(self).caches@[l as int]@, None)
            }),
    {
        let level = match self.evaluate_level_cache(size) {
            Some(x) => x,
            None => return None,
        };
        let ghost old_caches = self.caches@;
        let ghost c0 = self.caches@[level as int]@;
        let ghost mut given: Option<VirtPages> = None;
        let mut cache = self.caches.remove(level);
        assert(cache == old_caches[level as int]);
        if cache.node.active.is_none() {
            let answer = self.page_alloc.as_mut().unwrap().kernel_allocate_page(PageSize::REGULAR);
            proof {
                given = answer;
            }
            match answer {
                Some(page) if fits_address_space(&page) => {
                    proof {
                        assert(page_bytes(page.page_size) * page.page_count >= page_bytes(
                            page.page_size,
                        )) by (nonlinear_arith)
                            requires
                                page.page_count >= 1,
                        ;
                    }
                    let bytes = page.calc_bytes();
                    cache.grow(page.start_addr as usize, bytes);
                    proof {
                        assert(cache@ == grown_from(c0, given));
                    }
                },
                _ => {
                    self.caches.insert(level, cache);
                    proof {
                        assert(self.caches@ =~= old_caches);
                        assert((self.caches@[level as int]@, None::<usize>) == alloc_outcome(c0, given));
                        assert(one_regular_page(given));
                    }
                    return None;
                },
            }
        } else if cache.slabs[cache.node.active.unwrap()].free_list.len() == 0 {
            let ghost before = cache@;
            let ghost alloc_before = self.page_alloc->0;
            cache.change_active(self.page_alloc.as_mut().unwrap());
            proof {
                if before.partial_first is None {
                    let page = choose|page: Option<VirtPages>|
                        one_regular_page(page) && asked_one_kernel_page(
                            alloc_before.page_log().entries(),
                            self.page_alloc->0.page_log().entries(),
                            page,
                        ) && cache@ == changed_active(before, page);
                    given = page;
                }
            }
        }
        proof {
            assert(cache@.object_size == c0.object_size);
        }
        let result = serve(&mut cache);
        self.caches.insert(level, cache);
        proof {
            assert(forall|i: int| 0 <= i < old_caches.len() && i != level ==> #[trigger] self.caches@[i] == old_caches[i]);
            assert((self.caches@[level as int]@, result) == alloc_outcome(c0, given));
            assert(one_regular_page(given));
        }
        result
    }

    /// Index of the cache that serves objects of `size` bytes.
    pub fn evaluate_level_cache(&self, size: usize) -> (r: Option<usize>)
        requires
            self.caches.len() >= 1,
            self.start_obj_size * pow(self.incr_factor as int, (self.caches.len() - 1) as nat)
                <= usize::MAX / 2 + 1,
            pow(self.incr_factor as int, (self.caches.len() - 1) as nat) <= usize::MAX,
            self.caches.len() - 1 <= u32::MAX,
        ensures
            r == match level_for(
                size as nat,
                self.start_obj_size as nat,
                self.incr_factor as nat,
                self.caches.len() as nat,
            ) {
                Some(l) => Some(l as usize),
                None => None::<usize>,
            },
    {
        let obj_size = self.start_obj_size as usize;
        let factor = self.incr_factor as usize;
        let top = pow_usize(factor, (self.caches.len() - 1) as u32);
        if size > obj_size * top {
            return None;
        } else if size <= obj_size {
            return Some(0);
        }
        proof {
            if obj_size == 0 {
                assert(obj_size * top == 0) by (nonlinear_arith)
                    requires
                        obj_size == 0,
                ;
            }
            lemma_round_fits(size);
        }
        let rounded = round_power_two(size);
        proof {
            crate::math::lemma_log2_floor_bounds((size - 1) as nat);
            lemma_trailing_zeros_order(rounded, obj_size, size);
        }
        let bit_difference = trailing_zeros(rounded) as usize - trailing_zeros(obj_size) as usize;
        let factor_step = trailing_zeros(factor) as usize;
        if factor_step == 0 {
            return None;
        }
        let index = bit_difference / factor_step;
        if index >= self.caches.len() {
            return None;
        } else {
            return Some(index);
        }
    }
}

/// The rounding of a size that fits in a `usize` fits too, when the size is
/// not above half the range.
proof fn lemma_round_fits(size: usize)
    requires
        size > 1,
        size <= usize::MAX / 2 + 1,
    ensures
        log2_floor((size - 1) as nat) + 1 < usize::BITS,
{
    crate::math::lemma_log2_floor_bounds((size - 1) as nat);
    vstd::arithmetic::power2::lemma2_to64();
    vstd::arithmetic::power2::lemma2_to64_rest();
    let k = log2_floor((size - 1) as nat);
    if k + 1 >= usize::BITS {
        if k + 1 > usize::BITS {
            vstd::arithmetic::power2::lemma_pow2_strictly_increases((usize::BITS - 1) as nat, k);
        }
    }
}

/// A power of two not below `obj` has at least as many trailing zeros.
proof fn lemma_trailing_zeros_order(rounded: usize, obj: usize, size: usize)
    requires
        1 <= obj < size <= rounded,
        rounded == pow2(log2_floor((size - 1) as nat) + 1),
    ensures
        trailing_zeros_of(obj as nat) <= trailing_zeros_of(rounded as nat),
{
    let k = log2_floor((size - 1) as nat) + 1;
    lemma_trailing_zeros_pow2(k);
    lemma_trailing_zeros_below(obj as nat, k);
}

proof fn lemma_trailing_zeros_pow2(k: nat)
    requires
        pow2(k) <= usize::MAX,
    ensures
        trailing_zeros_of(pow2(k)) == k,
    decreases k,
{
    vstd::arithmetic::power2::lemma2_to64();
    if k > 0 {
        vstd::arithmetic::power2::lemma_pow2_unfold(k);
        vstd::arithmetic::power2::lemma_pow2_pos((k - 1) as nat);
        lemma_trailing_zeros_pow2((k - 1) as nat);
    }
}

proof fn lemma_trailing_zeros_below(x: nat, k: nat)
    requires
        1 <= x < pow2(k),
    ensures
        trailing_zeros_of(x) < k,
    decreases x,
{
    vstd::arithmetic::power2::lemma2_to64();
    if x % 2 == 0 {
        if k == 0 {
            assert(false);
        } else {
            vstd::arithmetic::power2::lemma_pow2_unfold(k);
            lemma_trailing_zeros_below(x / 2, (k - 1) as nat);
        }
    }
}

/// The objects of a slab cut from `first` to `end` lie in order, `size`
/// apart, each wholly inside the range: no object is listed twice.
pub proof fn lemma_object_slots_increasing(first: int, end: int, size: int)
    requires
        0 <= first,
        end <= usize::MAX + 1,
        size > 0,
    ensures
        forall|i: int, j: int|
            0 <= i < j < object_slots(first, end, size).len() ==> #[trigger] object_slots(first, end, size)[i]
                + size <= #[trigger] object_slots(first, end, size)[j],
        forall|i: int|
            0 <= i < object_slots(first, end, size).len() ==> first <= #[trigger] object_slots(first, end, size)[i]
                && object_slots(first, end, size)[i] + size <= end,
        object_slots(first, end, size).no_duplicates(),
    decreases end - first,
{
    let slots = object_slots(first, end, size);
    if first + size <= end {
        lemma_object_slots_increasing(first + size, end, size);
        let rest = object_slots(first + size, end, size);
        assert(slots == seq![first as usize] + rest);
        assert forall|i: int, j: int| 0 <= i < j < slots.len() implies #[trigger] slots[i] + size <= #[trigger] slots[j] by {
            if i > 0 {
                assert(slots[i] == rest[i - 1]);
                assert(slots[j] == rest[j - 1]);
            } else {
                assert(slots[j] == rest[j - 1]);
            }
        }
        assert forall|i: int| 0 <= i < slots.len() implies first <= #[trigger] slots[i] && slots[i] + size <= end by {
            if i > 0 {
                assert(slots[i] == rest[i - 1]);
            }
        }
    }
    assert forall|i: int, j: int| 0 <= i < slots.len() && 0 <= j < slots.len() && i != j implies slots[i] != slots[j] by {
        if i < j {
            assert(slots[i] + size <= slots[j]);
        } else {
            assert(slots[j] + size <= slots[i]);
        }
    }
}

/// An object handed out leaves its slab's free list: when the active
/// slab's free list lists no object twice, the object served is no longer
/// on it, and the list still lists no object twice.
pub proof fn lemma_served_object_leaves_free_list(c: CacheModel)
    requires
        c.active matches Some(a) && 0 <= a < c.slabs.len() && c.slabs[a as int].free_list.no_duplicates(),
    ensures
        ({
            let a = c.active->0 as int;
            let (after, obj) = served(c);
            &&& after.slabs[a].free_list.no_duplicates()
            &&& obj matches Some(o) ==> !after.slabs[a].free_list.contains(o)
        }),
{
    let a = c.active->0 as int;
    let fl = c.slabs[a].free_list;
    if fl.len() > 0 {
        let rest = fl.drop_first();
        assert forall|k: int| 0 <= k < rest.len() implies rest[k] != fl[0] by {
            assert(rest[k] == fl[k + 1]);
        }
        assert forall|i: int, j: int| 0 <= i < rest.len() && 0 <= j < rest.len() && i != j implies rest[i] != rest[j] by {
            assert(rest[i] == fl[i + 1]);
            assert(rest[j] == fl[j + 1]);
        }
    }
}

/// With the default caches (8 to 2048 bytes, doubling), a request of
/// `size` bytes goes to the smallest cache whose objects hold it, and a
/// request above 2048 bytes to none.
pub proof fn lemma_default_caches_pick_smallest_fit(size: nat)
    ensures
        size > 2048 ==> level_for(size, 8, 2, 9) is None,
        size <= 2048 ==> (level_for(size, 8, 2, 9) matches Some(l) && l < 9 && size <= 8 * pow2(l) && (
        l == 0 || 8 * pow2((l - 1) as nat) < size)),
{
    vstd::arithmetic::power2::lemma2_to64();
    vstd::arithmetic::power::lemma_pow1(2);
    vstd::arithmetic::power2::lemma_pow2(8);
    assert(pow(2int, 8) == 256) by {
        vstd::arithmetic::power::lemma_pow_adds(2, 4, 4);
        vstd::arithmetic::power::lemma_pow_adds(2, 2, 2);
        vstd::arithmetic::power::lemma_pow_adds(2, 1, 1);
    }
    assert(trailing_zeros_of(1) == 0);
    assert(trailing_zeros_of(2) == 1);
    assert(trailing_zeros_of(4) == 2);
    assert(trailing_zeros_of(8) == 3);
    if 8 < size <= 2048 {
        let k = log2_floor((size - 1) as nat) + 1;
        crate::math::lemma_log2_floor_bounds((size - 1) as nat);
        if k > 11 {
            vstd::arithmetic::power2::lemma_pow2_strictly_increases(11, (k - 1) as nat);
        }
        if k < 4 {
            vstd::arithmetic::power2::lemma_pow2_strictly_increases(k, 3);
        }
        assert(4 <= k <= 11);
        lemma_trailing_zeros_pow2(k);
        let l = (k - 3) as nat;
        vstd::arithmetic::power2::lemma_pow2_adds(3, l);
        vstd::arithmetic::power2::lemma_pow2_adds(3, (l - 1) as nat);
    }
}

} // verus!
