//! What the boot code hands the kernel's main function.
use vstd::prelude::*;
use crate::acpi::xsdt::Xsdt;
use crate::addresses::PhysicalAddress;
use crate::bump::BumpAllocator;
use crate::framebuffer::Framebuffer;
use crate::page_allocator::PageAllocator;

verus! {

/// The framebuffer, the allocators and the ACPI root table the boot code
/// found.
pub struct BiosInfo<P: PhysicalAddress, A: PageAllocator> {
    pub framebuffer: Framebuffer,
    pub page_allocator: A,
    pub kernel_alloc: BumpAllocator,
    pub xsdt: Xsdt<P>,
}

impl<P: PhysicalAddress, A: PageAllocator> BiosInfo<P, A> {
    /// Collects the given parts.
    pub fn new(framebuffer: Framebuffer, bump_alloc: BumpAllocator, page_alloc: A, xsdt: Xsdt<P>) -> (b: Self)
        ensures
            b.framebuffer == framebuffer,
            b.kernel_alloc == bump_alloc,
            b.page_allocator == page_alloc,
            b.xsdt == xsdt,
    {
        BiosInfo { framebuffer, kernel_alloc: bump_alloc, page_allocator: page_alloc, xsdt }
    }
}

} // verus!
