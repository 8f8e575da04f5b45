//! Addresses of x86_64: physical addresses have 52 bits, virtual addresses
//! are canonical (bits 48 to 63 repeat bit 47).
use vstd::prelude::*;
use crate::addresses::{PhysicalAddress, VirtualAddress, HIGHER_HALF_START};
use crate::mmio::{canonical, PHYS_ADDR_LIMIT};
use crate::acpi::xsdt::entry_maps_high;

verus! {

/// An x86_64 virtual address.
#[derive(Clone, Copy, Debug, PartialEq, Eq, Structural)]
pub struct X86VirtAddr(pub u64);

/// An x86_64 physical address.
#[derive(Clone, Copy, Debug, PartialEq, Eq, Structural)]
pub struct X86PhysAddr(pub u64);

impl VirtualAddress for X86VirtAddr {
    open spec fn address(&self) -> u64 {
        self.0
    }

    fn to_u64(&self) -> (r: u64) {
        self.0
    }

    fn is_higher_half(&self) -> (r: bool) {
        self.to_u64() >= HIGHER_HALF_START
    }
}

/// Whether `addr` is a canonical virtual address.
pub fn is_canonical(addr: u64) -> (b: bool)
    ensures
        b == canonical(addr as int),
{
    addr < 0x0000_8000_0000_0000 || addr >= 0xFFFF_8000_0000_0000
}

impl PhysicalAddress for X86PhysAddr {
    type VAddr = X86VirtAddr;

    open spec fn address(&self) -> u64 {
        self.0
    }

    open spec fn representable(addr: u64) -> bool {
        addr < PHYS_ADDR_LIMIT
    }

    open spec fn from_address(addr: u64) -> Self {
        X86PhysAddr(addr)
    }

    /// The virtual address `offset` above, when the sum is canonical.
    open spec fn virtual_at(&self, offset: u64) -> Option<X86VirtAddr> {
        if self.0 + offset <= u64::MAX && canonical(self.0 + offset) {
            Some(X86VirtAddr((self.0 + offset) as u64))
        } else {
            None
        }
    }

    fn to_u64(&self) -> (r: u64) {
        self.0
    }

    /// The address has no bit set above bit 51.
    fn is_valid(&self) -> (r: bool)
        ensures
            r == (self.0 < PHYS_ADDR_LIMIT),
    {
        self.0 < PHYS_ADDR_LIMIT
    }

    fn from_u64(addr: u64) -> (r: Self) {
        X86PhysAddr(addr)
    }

    fn to_virtual(&self, offset: u64) -> (r: Option<X86VirtAddr>) {
        if self.0 > u64::MAX - offset {
            return None;
        }
        let sum = self.0 + offset;
        if is_canonical(sum) {
            Some(X86VirtAddr(sum))
        } else {
            None
        }
    }
}

/// Whether an XSDT entry holding physical address `raw` is seen, through
/// the direct map at `hhdm`, in the upper half of the x86_64 address space
/// (what reading the table it names requires).
pub fn entry_maps_high_x86(raw: u64, hhdm: u64) -> (b: bool)
    ensures
        b == entry_maps_high::<X86PhysAddr>(raw, hhdm),
{
    if raw >= PHYS_ADDR_LIMIT || raw > u64::MAX - hhdm {
        return false;
    }
    let v = raw + hhdm;
    is_canonical(v) && v >= HIGHER_HALF_START
}

} // verus!
