//! The pool of interrupt vectors handed to drivers, and the local APIC timer
//! options.
use vstd::prelude::*;

verus! {

/// Number of interrupt vectors in the pool.
pub const VECTOR_POOL_SIZE: usize = 192;

/// The first vector of the pool; slot `i` of the pool is vector
/// `VECTOR_BASE + i`.
pub const VECTOR_BASE: u8 = 0x32;

/// The handlers registered for the vectors of the pool, slot by slot; an
/// empty slot is a free vector.
pub struct InterruptVectorAllocator<H> {
    pub used: Vec<Option<H>>,
    pub starts_from: u8,
}

/// Slot `i` is the first free slot of the pool.
pub open spec fn is_first_free<H>(used: Seq<Option<H>>, i: int) -> bool {
    &&& 0 <= i < used.len()
    &&& used[i] is None
    &&& forall|j: int| 0 <= j < i ==> used[j] is Some
}

/// The pool has a free slot.
pub open spec fn has_free<H>(used: Seq<Option<H>>) -> bool {
    exists|i: int| 0 <= i < used.len() && used[i] is None
}

/// Going from `before` to `after` handed out vector `v` for `handler`: the
/// first free slot was `v - VECTOR_BASE` and now holds `handler`.
pub open spec fn handed_out<H>(before: Seq<Option<H>>, after: Seq<Option<H>>, v: u8, handler: H) -> bool {
    let i = v - VECTOR_BASE;
    &&& is_first_free(before, i)
    &&& after == before.update(i, Some(handler))
}

impl<H> InterruptVectorAllocator<H> {
    /// The pool has exactly one slot per vector.
    pub open spec fn wf(&self) -> bool {
        self.used@.len() == VECTOR_POOL_SIZE
    }

    /// An allocator with every vector free.
    pub fn default() -> (a: Self)
        ensures
            a.wf(),
            forall|i: int| 0 <= i < a.used@.len() ==> a.used@[i] is None,
    {
        let mut used: Vec<Option<H>> = Vec::new();
        let mut k: usize = 0;
        while k < VECTOR_POOL_SIZE
            invariant
                k <= VECTOR_POOL_SIZE,
                used@.len() == k,
                forall|i: int| 0 <= i < used@.len() ==> used@[i] is None,
            decreases VECTOR_POOL_SIZE - k,
        {
            used.push(None);
            k = k + 1;
        }
        InterruptVectorAllocator { used, starts_from: VECTOR_BASE }
    }

    /// Registers `handler` on the lowest free vector and returns that
    /// vector. Returns `None`, changing nothing, when the interrupt
    /// descriptor table is not loaded yet (`idt_loaded` false) or when no
    /// vector is free.
    pub fn set_and_get_free_vector(&mut self, idt_loaded: bool, handler: H) -> (r: Option<u8>)
        requires
            old(self).wf(),
        ensures
            final(self).wf(),
            final(self).starts_from == old(self).starts_from,
            !idt_loaded ==> r is None && final(self).used@ == old(self).used@,
            idt_loaded && !has_free(old(self).used@) ==> r is None && final(self).used@ == old(
                self,
            ).used@,
            idt_loaded && has_free(old(self).used@) ==> r is Some && handed_out(
                old(self).used@,
                final(self).used@,
                r->0,
                handler,
            ),
    {
        if !idt_loaded {
            return None;
        }
        let mut i: usize = 0;
        while i < VECTOR_POOL_SIZE
            invariant
                self.wf(),
                idt_loaded,
                self.used@ == old(self).used@,
                self.starts_from == old(self).starts_from,
                i <= VECTOR_POOL_SIZE,
                forall|j: int| 0 <= j < i ==> self.used@[j] is Some,
            decreases VECTOR_POOL_SIZE - i,
        {
            if self.used[i].is_none() {
                self.used.set(i, Some(handler));
                let v: u8 = i as u8 + VECTOR_BASE;
                return Some(v);
            }
            i = i + 1;
        }
        None
    }
}

impl<H: Copy> InterruptVectorAllocator<H> {
    /// The handler registered on interrupt `vector` (vectors below the pool
    /// are looked up in its first slot).
    pub fn handler_for(&self, vector: u64) -> (h: Option<H>)
        requires
            self.wf(),
            vector < VECTOR_BASE + VECTOR_POOL_SIZE,
        ensures
            h == self.used@[if vector < VECTOR_BASE { 0 } else { vector - VECTOR_BASE }],
    {
        let index = vector.saturating_sub(VECTOR_BASE as u64);
        self.used[index as usize]
    }
}

/// No vector is handed out twice: after two successful allocations from
/// the same pool the second vector differs from the first.
pub proof fn lemma_vectors_handed_out_once<H>(
    a: Seq<Option<H>>,
    b: Seq<Option<H>>,
    c: Seq<Option<H>>,
    v1: u8,
    v2: u8,
    h1: H,
    h2: H,
)
    requires
        handed_out(a, b, v1, h1),
        handed_out(b, c, v2, h2),
    ensures
        v1 != v2,
{
    assert(b[v1 - VECTOR_BASE] is Some);
}

/// The local APIC timer's local vector table settings.
pub struct TimerOptions {
    pub timer_mode: u8,
    pub vector: u8,
    pub delivery_status: u8,
    pub mask: u8,
}

impl TimerOptions {
    /// The timer mode: the low two bits of the setting.
    pub fn get_timer_mode(&self) -> (m: u8)
        ensures
            m == self.timer_mode % 4,
    {
        let raw: u8 = self.timer_mode;
        let m = raw & 0b11;
        assert(raw & 0b11 == raw % 4) by (bit_vector);
        m
    }

    /// The mask flag: the low bit of the setting.
    pub fn get_mask(&self) -> (m: u8)
        ensures
            m == self.mask % 2,
    {
        let raw: u8 = self.mask;
        let m = raw & 0b1;
        assert(raw & 0b1 == raw % 2) by (bit_vector);
        m
    }

    /// The interrupt vector the timer raises.
    pub fn get_vector(&self) -> (v: u8)
        ensures
            v == self.vector,
    {
        self.vector
    }

    /// The delivery status flag: the low bit of the setting.
    pub fn get_delivery_status(&self) -> (s: u8)
        ensures
            s == self.delivery_status % 2,
    {
        let raw: u8 = self.delivery_status;
        let s = raw & 0b1;
        assert(raw & 0b1 == raw % 2) by (bit_vector);
        s
    }

    /// Timer options with the given settings, stored as given.
    pub fn new(mask: u8, delivery_status: u8, vector: u8, timer_mode: u8) -> (t: Self)
        ensures
            t.mask == mask,
            t.delivery_status == delivery_status,
            t.vector == vector,
            t.timer_mode == timer_mode,
    {
        TimerOptions { mask, delivery_status, vector, timer_mode }
    }
}

/// Offset of the local APIC's end-of-interrupt register.
pub const LAPIC_EOI_OFFSET: u64 = 0xB0;

/// Offset of the local APIC's spurious interrupt vector register.
pub const LAPIC_SPURIOUS_OFFSET: u64 = 0xF0;

/// Offset of the local APIC's timer local vector table register.
pub const LAPIC_TIMER_LVT_OFFSET: u64 = 0x320;

/// A 32-bit write to a memory-mapped register.
#[derive(Clone, Copy, Debug, PartialEq, Eq, Structural)]
pub struct RegisterWrite {
    pub address: u64,
    pub value: u32,
}

/// The local APIC whose registers are mapped from `base` on: what to write
/// where to drive it.
#[derive(Clone, Copy, Debug, PartialEq, Eq, Structural)]
pub struct ApicDriver {
    pub base: u64,
}

/// The timer's local vector table entry for `t`: the vector in bits 0 to 7,
/// the delivery status in bit 12, the mask in bit 16 and the timer mode in
/// bits 17 and 18.
pub open spec fn timer_lvt_value(t: TimerOptions) -> int {
    t.vector + (t.delivery_status % 2) * 0x1000 + (t.mask % 2) * 0x1_0000 + (t.timer_mode % 4) * 0x2_0000
}

impl ApicDriver {
    /// The local APIC with its register page at `base`.
    pub fn new(base: u64) -> (d: Self)
        ensures
            d.base == base,
    {
        ApicDriver { base }
    }

    /// The write that software-enables the APIC: the spurious interrupt
    /// register, read as `current`, with bit 8 set.
    pub fn enable(&self, current: u32) -> (w: RegisterWrite)
        requires
            self.base + LAPIC_SPURIOUS_OFFSET <= u64::MAX,
        ensures
            w.address == self.base + LAPIC_SPURIOUS_OFFSET,
            w.value == current | 0x100,
    {
        let value = current | 0x100u32;
        RegisterWrite { address: self.base + LAPIC_SPURIOUS_OFFSET, value }
    }

    /// The write that signals the end of an interrupt: 0 to the EOI
    /// register.
    pub fn send_eoi(&self) -> (w: RegisterWrite)
        requires
            self.base + LAPIC_EOI_OFFSET <= u64::MAX,
        ensures
            w == (RegisterWrite { address: (self.base + LAPIC_EOI_OFFSET) as u64, value: 0 }),
    {
        RegisterWrite { address: self.base + LAPIC_EOI_OFFSET, value: 0 }
    }

    /// The write that programs the timer with `options`.
    pub fn setup_timer(&self, options: &TimerOptions) -> (w: RegisterWrite)
        requires
            self.base + LAPIC_TIMER_LVT_OFFSET <= u64::MAX,
        ensures
            w.address == self.base + LAPIC_TIMER_LVT_OFFSET,
            w.value == timer_lvt_value(*options),
    {
        let vector = options.get_vector() as u32;
        let delivery = options.get_delivery_status() as u32;
        let mask = options.get_mask() as u32;
        let mode = options.get_timer_mode() as u32;
        let value = vector | (delivery << 12u32) | (mask << 16u32) | (mode << 17u32);
        assert(value == vector + delivery * 0x1000 + mask * 0x1_0000 + mode * 0x2_0000) by (bit_vector)
            requires
                vector < 256,
                delivery < 2,
                mask < 2,
                mode < 4,
                value == vector | (delivery << 12u32) | (mask << 16u32) | (mode << 17u32),
        ;
        RegisterWrite { address: self.base + LAPIC_TIMER_LVT_OFFSET, value }
    }
}

} // verus!
