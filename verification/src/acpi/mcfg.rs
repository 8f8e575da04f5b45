//! The MCFG table: where PCI configuration space is mapped into memory.
use vstd::prelude::*;
use core::marker::PhantomData;
use crate::addresses::{PhysicalAddress, VirtualAddress};
use crate::acpi::header::{SdtTable, TableModel};
use crate::acpi::tables::{Tables, signature_of};
use crate::acpi::xsdt::entry_maps_high;
use crate::le_bytes::{le_u16, le_u32, le_u64, read_u16, read_u32, read_u64, copy_from};
use crate::pci::EnhancedPciMechanism;

verus! {

/// Reserved bytes between the MCFG header and its allocation records.
pub const MCFG_RESERVED_LEN: usize = 8;

/// Bytes in one allocation record.
pub const MCFG_RECORD_LEN: usize = 16;

/// The MCFG: where PCI configuration space is mapped.
pub struct Mcfg<P: PhysicalAddress> {
    sdt: SdtTable,
    _phantom: PhantomData<P>,
    hhdm: usize,
}

impl<P: PhysicalAddress> Mcfg<P> {
    /// The table as read from memory.
    pub closed spec fn view(&self) -> TableModel {
        self.sdt@
    }

    /// Offset of the kernel's direct map of physical memory.
    pub closed spec fn hhdm(&self) -> usize {
        self.hhdm
    }

    /// The table as an MCFG, or `None` when its signature is not "MCFG".
    pub fn new(acpi_sdt_header: SdtTable, hhdm: usize) -> (r: Option<Self>)
        ensures
            r is Some <==> acpi_sdt_header.header.signature@ == signature_of(Tables::MCFG),
            r matches Some(m) ==> m@ == acpi_sdt_header@ && m.hhdm() == hhdm,
    {
        if !acpi_sdt_header.header.has_signature(Tables::get_signature(&Tables::MCFG)) {
            None
        } else {
            Some(Mcfg { sdt: acpi_sdt_header, hhdm, _phantom: PhantomData })
        }
    }

    /// The allocation records: the table's bytes after the reserved ones.
    fn as_slice(&self) -> (r: Vec<u8>)
        ensures
            self@.data.len() >= MCFG_RESERVED_LEN ==> r@ == self@.data.subrange(
                MCFG_RESERVED_LEN as int,
                self@.data.len() as int,
            ),
            self@.data.len() < MCFG_RESERVED_LEN ==> r@.len() == 0,
    {
        copy_from(self.sdt.data.as_slice(), MCFG_RESERVED_LEN)
    }

    /// A walk over the allocation records, which follow the reserved bytes.
    pub fn to_iter(&self) -> (r: McfgIterator<P>)
        ensures
            self@.data.len() >= MCFG_RESERVED_LEN ==> r.data_slice@ == self@.data.subrange(
                MCFG_RESERVED_LEN as int,
                self@.data.len() as int,
            ),
            self@.data.len() < MCFG_RESERVED_LEN ==> r.data_slice@.len() == 0,
            r.curr_offset == 0,
            r.hhdm == self.hhdm(),
    {
        McfgIterator { data_slice: self.as_slice(), curr_offset: 0, hhdm: self.hhdm, _phantom: PhantomData }
    }
}

/// Walks the MCFG allocation records.
pub struct McfgIterator<P: PhysicalAddress> {
    pub data_slice: Vec<u8>,
    pub curr_offset: usize,
    pub hhdm: usize,
    pub _phantom: PhantomData<P>,
}

/// The record starting at `o` of `s` as a configuration mechanism: the base
/// address (seen through the direct map at `hhdm`), segment, first and last bus.
pub open spec fn record_mechanism<P: PhysicalAddress>(s: Seq<u8>, o: int, hhdm: u64) -> EnhancedPciMechanism {
    EnhancedPciMechanism {
        bacm: P::from_address(le_u64(s, o)).virtual_at(hhdm)->0.address(),
        bus_segment_number: le_u16(s, o + 8),
        start_pci_host_bridge: s[o + 10],
        end_pci_host_bridge: s[o + 11],
        reserved: le_u32(s, o + 12),
    }
}

/// An MCFG allocation record, by its 16 bytes: the 8-byte base address of
/// the configuration space (seen through the direct map at `hhdm`), the
/// 2-byte segment group, the first and last bus, then 4 reserved bytes, all
/// little-endian.
pub proof fn lemma_mcfg_record_layout<P: PhysicalAddress>(s: Seq<u8>, o: int, hhdm: u64)
    requires
        0 <= o,
        o + 16 <= s.len(),
    ensures
        ({
            let m = record_mechanism::<P>(s, o, hhdm);
            let raw = s[o] + 256 * s[o + 1] + 65536 * s[o + 2] + 16777216 * s[o + 3] + 4294967296 * s[o + 4] + 1099511627776 * s[o + 5] + 281474976710656 * s[o + 6] + 72057594037927936 * s[o + 7];
            &&& 0 <= raw <= u64::MAX
            &&& m.bacm == P::from_address(raw as u64).virtual_at(hhdm)->0.address()
            &&& m.bus_segment_number == s[o + 8] + 256 * s[o + 9]
            &&& m.start_pci_host_bridge == s[o + 10]
            &&& m.end_pci_host_bridge == s[o + 11]
            &&& m.reserved == s[o + 12] + 256 * s[o + 13] + 65536 * s[o + 14] + 16777216 * s[o + 15]
        }),
{
    let lo = le_u32(s, o);
    let hi = le_u32(s, o + 4);
    assert(lo == s[o] + 256 * s[o + 1] + 65536 * s[o + 2] + 16777216 * s[o + 3]);
    assert(hi == s[o + 4] + 256 * s[o + 5] + 65536 * s[o + 6] + 16777216 * s[o + 7]);
    assert(0 <= lo + 0x1_0000_0000 * hi <= u64::MAX) by (nonlinear_arith)
        requires
            0 <= lo < 0x1_0000_0000,
            0 <= hi < 0x1_0000_0000,
    ;
    assert(le_u64(s, o) == lo + 0x1_0000_0000 * hi);
    assert(s[o + 12] + 256 * s[o + 13] + 65536 * s[o + 14] + 16777216 * s[o + 15] < 0x1_0000_0000);
}

impl<P: PhysicalAddress> McfgIterator<P> {
    /// The next record, or `None` when fewer than 16 bytes remain.  A base
    /// address that does not map into the upper half is fatal, so such
    /// tables are excluded.
    pub fn next(&mut self) -> (r: Option<EnhancedPciMechanism>)
        requires
            old(self).curr_offset + MCFG_RECORD_LEN <= usize::MAX,
            old(self).curr_offset + MCFG_RECORD_LEN <= old(self).data_slice@.len() ==> entry_maps_high::<P>(
                le_u64(old(self).data_slice@, old(self).curr_offset as int),
                old(self).hhdm as u64,
            ),
        ensures
            final(self).data_slice@ == old(self).data_slice@,
            final(self).hhdm == old(self).hhdm,
            old(self).curr_offset + MCFG_RECORD_LEN > old(self).data_slice@.len() ==> r is None
                && final(self).curr_offset == old(self).curr_offset,
            old(self).curr_offset + MCFG_RECORD_LEN <= old(self).data_slice@.len() ==> final(self).curr_offset
                == old(self).curr_offset + MCFG_RECORD_LEN && r == Some(
                record_mechanism::<P>(old(self).data_slice@, old(self).curr_offset as int, old(self).hhdm as u64),
            ),
    {
        if (self.curr_offset + MCFG_RECORD_LEN) > self.data_slice.len() {
            return None;
        }
        let off = self.curr_offset;
        self.curr_offset = self.curr_offset + MCFG_RECORD_LEN;
        let pci = parse_into_pci::<P>(self.data_slice.as_slice(), off, self.hhdm as u64);
        Some(pci)
    }
}

/// Decodes the 16-byte allocation record at `o` of `bytes`.
fn parse_into_pci<P: PhysicalAddress>(bytes: &[u8], o: usize, hhdm: u64) -> (r: EnhancedPciMechanism)
    requires
        o + MCFG_RECORD_LEN <= bytes@.len(),
        entry_maps_high::<P>(le_u64(bytes@, o as int), hhdm),
    ensures
        r == record_mechanism::<P>(bytes@, o as int, hhdm),
{
    assert(o + MCFG_RECORD_LEN <= bytes.len());
    let bacm = read_u64(bytes, o);
    let bacm = P::from_u64(bacm);
    let virt_addr = bacm.to_virtual(hhdm).unwrap();
    let pci_segment = read_u16(bytes, o + 8);
    let start_bus = bytes[o + 10];
    let end_bus = bytes[o + 11];
    let reserved = read_u32(bytes, o + 12);
    EnhancedPciMechanism::new(virt_addr.to_u64(), pci_segment, start_bus, end_bus, reserved)
}

} // verus!
