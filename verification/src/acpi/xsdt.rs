//! The extended system description table: the list of the other tables.
use vstd::prelude::*;
use core::marker::PhantomData;
use crate::addresses::{PhysicalAddress, VirtualAddress};
use crate::acpi::header::{SdtTable, TableModel};
use crate::le_bytes::{le_u64, read_u64, copy_from};

verus! {

/// The XSDT, with the offset of the kernel's direct map of physical memory.
pub struct Xsdt<P: PhysicalAddress> {
    pub sdt: SdtTable,
    hh_mem: u64,
    _phantom: PhantomData<P>,
}

impl<P: PhysicalAddress> Xsdt<P> {
    /// The table as read from memory.
    pub closed spec fn view(&self) -> TableModel {
        self.sdt@
    }

    /// Offset of the kernel's direct map of physical memory.
    pub closed spec fn direct_map_offset(&self) -> u64 {
        self.hh_mem
    }

    /// The XSDT held in `sdt`, seen through the direct map at `hh_mem`.
    pub fn new(sdt: SdtTable, hh_mem: u64) -> (r: Self)
        ensures
            r@ == sdt@,
            r.direct_map_offset() == hh_mem,
    {
        Xsdt { sdt, hh_mem, _phantom: PhantomData }
    }

    /// The entries: the bytes after the header.
    pub fn as_slice(&self) -> (r: &[u8])
        ensures
            r@ == self@.data,
    {
        self.sdt.data.as_slice()
    }
}

/// Walks the XSDT entries: 8-byte little-endian physical addresses of tables.
pub struct XsdtIter<P: PhysicalAddress> {
    pub slice: Vec<u8>,
    pub current_offset: usize,
    pub hh_mem_offset: u64,
    pub _phantom: PhantomData<P>,
}

/// Something whose entries can be walked.
pub trait RxsdtToIter<P: PhysicalAddress> {
    fn to_iter(&self) -> XsdtIter<P>;
}

impl<P: PhysicalAddress> RxsdtToIter<P> for Xsdt<P> {
    fn to_iter(&self) -> (r: XsdtIter<P>)
        ensures
            r.slice@ == self@.data,
            r.current_offset == 0,
            r.hh_mem_offset == self.direct_map_offset(),
    {
        let slice = copy_from(self.as_slice(), 0);
        proof {
            assert(slice@ =~= self@.data);
        }
        XsdtIter { current_offset: 0, hh_mem_offset: self.hh_mem, slice, _phantom: PhantomData }
    }
}

/// The entry at `offset` names a physical address that is seen, through the
/// direct map at `hh`, in the upper half.
pub open spec fn entry_maps_high<P: PhysicalAddress>(raw: u64, hh: u64) -> bool {
    &&& P::representable(raw)
    &&& P::from_address(raw).virtual_at(hh) is Some
    &&& P::from_address(raw).virtual_at(hh)->0.address() >= crate::addresses::HIGHER_HALF_START
}

impl<P: PhysicalAddress> XsdtIter<P> {
    /// The virtual address of the next table header, or `None` when fewer
    /// than 8 bytes of entries remain.  An entry that does not map into the
    /// upper half is fatal, so such tables are excluded.
    pub fn next(&mut self) -> (r: Option<u64>)
        requires
            old(self).current_offset + 8 <= usize::MAX,
            old(self).current_offset + 8 <= old(self).slice@.len() ==> entry_maps_high::<P>(
                le_u64(old(self).slice@, old(self).current_offset as int),
                old(self).hh_mem_offset,
            ),
        ensures
            final(self).slice@ == old(self).slice@,
            final(self).hh_mem_offset == old(self).hh_mem_offset,
            old(self).current_offset + 8 > old(self).slice@.len() ==> r is None && final(self).current_offset
                == old(self).current_offset,
            old(self).current_offset + 8 <= old(self).slice@.len() ==> final(self).current_offset
                == old(self).current_offset + 8 && r == Some(
                P::from_address(le_u64(old(self).slice@, old(self).current_offset as int)).virtual_at(
                    old(self).hh_mem_offset,
                )->0.address(),
            ),
    {
        if self.current_offset + 8 > self.slice.len() {
            return None;
        }
        let raw_addr = read_u64(self.slice.as_slice(), self.current_offset);
        self.current_offset = self.current_offset + 8;
        let phys_addr = P::from_u64(raw_addr);
        let virt_addr = phys_addr.to_virtual(self.hh_mem_offset).unwrap();
        Some(virt_addr.to_u64())
    }
}

} // verus!
