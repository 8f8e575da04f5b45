//! Physical and virtual addresses, as an architecture provides them.
use vstd::prelude::*;

verus! {

/// First address of the upper half of the canonical address space.
pub const HIGHER_HALF_START: u64 = 0xFFFF_8000_0000_0000;

/// A virtual address of the architecture.
pub trait VirtualAddress: Copy {
    /// The address as an integer.
    spec fn address(&self) -> u64;

    fn to_u64(&self) -> (r: u64)
        ensures
            r == self.address(),
    ;

    /// The address lies in the upper half, where the kernel lives.
    fn is_higher_half(&self) -> (r: bool)
        ensures
            r == (self.address() >= HIGHER_HALF_START),
    ;
}

/// A physical address of the architecture.
pub trait PhysicalAddress: Copy {
    type VAddr: VirtualAddress;

    /// The address as an integer.
    spec fn address(&self) -> u64;

    /// `addr` can be a physical address.
    spec fn representable(addr: u64) -> bool;

    /// The address made from the integer `addr`.
    spec fn from_address(addr: u64) -> Self;

    /// Where the address is seen at `offset` above it, if anywhere.
    spec fn virtual_at(&self, offset: u64) -> Option<Self::VAddr>;

    fn to_u64(&self) -> (r: u64)
        ensures
            r == self.address(),
    ;

    fn is_valid(&self) -> bool;

    fn from_u64(addr: u64) -> (r: Self)
        requires
            Self::representable(addr),
        ensures
            r == Self::from_address(addr),
            r.address() == addr,
    ;

    fn to_virtual(&self, offset: u64) -> (r: Option<Self::VAddr>)
        ensures
            r == self.virtual_at(offset),
    ;
}

} // verus!
