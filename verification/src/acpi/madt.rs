//! The MADT: the interrupt controllers of the machine.
use vstd::prelude::*;
use core::marker::PhantomData;
use crate::addresses::PhysicalAddress;
use crate::acpi::header::{SdtTable, TableModel};
use crate::le_bytes::{le_u16, le_u32, le_u64, read_u16, read_u32, read_u64, copy_from};

verus! {

/// The MADT: the interrupt controllers of the machine.
pub struct Madt<P: PhysicalAddress> {
    sdt: SdtTable,
    hhdm: usize,
    _phantom: PhantomData<P>,
}

impl<P: PhysicalAddress> Madt<P> {
    /// The table as read from memory.
    pub closed spec fn view(&self) -> TableModel {
        self.sdt@
    }

    /// Offset of the kernel's direct map of physical memory.
    pub closed spec fn hhdm(&self) -> usize {
        self.hhdm
    }

    /// The MADT held in `sdt`, seen through the direct map at `hhdm`.
    pub fn new(sdt: SdtTable, hhdm: usize) -> (r: Self)
        ensures
            r@ == sdt@,
            r.hhdm() == hhdm,
    {
        Madt { sdt, hhdm, _phantom: PhantomData }
    }

    /// The table's bytes after the header.
    pub fn as_slice(&self) -> (r: &[u8])
        ensures
            r@ == self@.data,
    {
        self.sdt.data.as_slice()
    }

    /// The first eight bytes after the header, little-endian.
    pub fn get_data_addr(&self) -> (r: u64)
        requires
            self@.data.len() >= 8,
        ensures
            r == le_u64(self@.data, 0),
    {
        read_u64(self.sdt.data.as_slice(), 0)
    }

    /// A walk over the interrupt controller records, from the first byte after the header.
    pub fn to_iter(&self) -> (r: MadtIterator<P>)
        ensures
            r.data_slice@ == self@.data,
            r.curr_offset == 0,
            r.hhdm == self.hhdm(),
    {
        let data = copy_from(self.as_slice(), 0);
        proof {
            assert(data@ =~= self@.data);
        }
        MadtIterator { data_slice: data, curr_offset: 0, hhdm: self.hhdm, phantom_data: PhantomData }
    }
}

/// Walks the MADT's interrupt controller records.
pub struct MadtIterator<P: PhysicalAddress> {
    pub data_slice: Vec<u8>,
    pub curr_offset: usize,
    pub phantom_data: PhantomData<P>,
    pub hhdm: usize,
}

/// One record: its type, its length and its decoded contents.
pub struct Entry {
    pub entry_type: u8,
    pub record_len: u8,
    pub entry_specific: EntryType,
}

/// Record type 0: a processor and its local APIC.
pub struct ProcessorLapic {
    pub processor_id: u8,
    pub apic_id: u8,
    pub flags: u32,
}

/// Record type 1: an I/O APIC.
pub struct IOApic {
    pub io_apic_id: u8,
    pub reserved: u8,
    pub io_apic_address: u32,
    pub global_interrupt: u32,
}

/// Record type 2: an interrupt source override.
pub struct IOApicSourceOverride {
    pub bus_source: u8,
    pub irq_source: u8,
    pub gsi: u32,
    pub flags: u16,
}

/// Record type 3: a non-maskable interrupt source of an I/O APIC.
pub struct IOApicNonMaskableInterruptSource {
    pub nmi_source: u8,
    pub reserved: u8,
    pub flags: u16,
    pub gsi: u32,
}

/// Record type 4: the non-maskable interrupts of local APICs.
pub struct LapicNonMaskableInterrupts {
    pub acpi_processor_id: u8,
    pub flags: u16,
    pub lint: u8,
}

/// Record type 5: the 64-bit address of the local APICs.
pub struct LapicAddressOverride {
    pub reserved: u16,
    pub lapic_address: u64,
}

/// Record type 9: a processor and its x2APIC.
pub struct X2LapicProcessor {
    pub reserved: u16,
    pub processor_x2lapic_id: u32,
    pub flags: u32,
    pub acpi_id: u32,
}

/// A record's contents by type; types this kernel does not read, and records
/// too short for their type, keep only the type.
pub enum EntryType {
    EntryType0(ProcessorLapic),
    EntryType1(IOApic),
    EntryType2(IOApicSourceOverride),
    EntryType3(IOApicNonMaskableInterruptSource),
    EntryType4(LapicNonMaskableInterrupts),
    EntryType5(LapicAddressOverride),
    EntryType9(X2LapicProcessor),
    EntryTypeUnknown(u8),
}

/// Bytes a record of type `t` needs after its two header bytes; 0 for types
/// that are not decoded.
pub open spec fn payload_len(t: u8) -> nat {
    if t == 0 {
        6
    } else if t == 1 {
        10
    } else if t == 2 {
        8
    } else if t == 3 {
        8
    } else if t == 4 {
        4
    } else if t == 5 {
        10
    } else if t == 9 {
        14
    } else {
        0
    }
}

/// The contents `parse` decodes from payload `p` of a record of type `t`.
pub open spec fn parsed_entry(t: u8, p: Seq<u8>) -> EntryType {
    if payload_len(t) == 0 || p.len() < payload_len(t) {
        EntryType::EntryTypeUnknown(t)
    } else if t == 0 {
        EntryType::EntryType0(ProcessorLapic { processor_id: p[0], apic_id: p[1], flags: le_u32(p, 2) })
    } else if t == 1 {
        EntryType::EntryType1(
            IOApic { io_apic_id: p[0], reserved: p[1], io_apic_address: le_u32(p, 2), global_interrupt: le_u32(p, 6) },
        )
    } else if t == 2 {
        EntryType::EntryType2(
            IOApicSourceOverride { bus_source: p[0], irq_source: p[1], gsi: le_u32(p, 2), flags: le_u16(p, 6) },
        )
    } else if t == 3 {
        EntryType::EntryType3(
            IOApicNonMaskableInterruptSource { nmi_source: p[0], reserved: p[1], flags: le_u16(p, 2), gsi: le_u32(p, 4) },
        )
    } else if t == 4 {
        EntryType::EntryType4(LapicNonMaskableInterrupts { acpi_processor_id: p[0], flags: le_u16(p, 1), lint: p[3] })
    } else if t == 5 {
        EntryType::EntryType5(LapicAddressOverride { reserved: le_u16(p, 0), lapic_address: le_u64(p, 2) })
    } else {
        EntryType::EntryType9(
            X2LapicProcessor {
                reserved: le_u16(p, 0),
                processor_x2lapic_id: le_u32(p, 2),
                flags: le_u32(p, 6),
                acpi_id: le_u32(p, 10),
            },
        )
    }
}

/// The payload layout of each MADT record type, field by field: bytes
/// in order, multi-byte fields little-endian, packed without gaps (the
/// layout the ACPI specification gives).  A payload too short for its type,
/// or a type not decoded, keeps only the type.
pub proof fn lemma_madt_payload_layout(t: u8, p: Seq<u8>)
    ensures
        p.len() < payload_len(t) || payload_len(t) == 0 ==> parsed_entry(t, p) == EntryType::EntryTypeUnknown(t),
        t == 0 && p.len() >= 6 ==> ({
            &&& parsed_entry(t, p) matches EntryType::EntryType0(e)
            &&& e.processor_id == p[0]
            &&& e.apic_id == p[1]
            &&& e.flags == p[2] + 256 * p[3] + 65536 * p[4] + 16777216 * p[5]
        }),
        t == 1 && p.len() >= 10 ==> ({
            &&& parsed_entry(t, p) matches EntryType::EntryType1(e)
            &&& e.io_apic_id == p[0]
            &&& e.reserved == p[1]
            &&& e.io_apic_address == p[2] + 256 * p[3] + 65536 * p[4] + 16777216 * p[5]
            &&& e.global_interrupt == p[6] + 256 * p[7] + 65536 * p[8] + 16777216 * p[9]
        }),
        t == 2 && p.len() >= 8 ==> ({
            &&& parsed_entry(t, p) matches EntryType::EntryType2(e)
            &&& e.bus_source == p[0]
            &&& e.irq_source == p[1]
            &&& e.gsi == p[2] + 256 * p[3] + 65536 * p[4] + 16777216 * p[5]
            &&& e.flags == p[6] + 256 * p[7]
        }),
        t == 3 && p.len() >= 8 ==> ({
            &&& parsed_entry(t, p) matches EntryType::EntryType3(e)
            &&& e.nmi_source == p[0]
            &&& e.reserved == p[1]
            &&& e.flags == p[2] + 256 * p[3]
            &&& e.gsi == p[4] + 256 * p[5] + 65536 * p[6] + 16777216 * p[7]
        }),
        t == 4 && p.len() >= 4 ==> ({
            &&& parsed_entry(t, p) matches EntryType::EntryType4(e)
            &&& e.acpi_processor_id == p[0]
            &&& e.flags == p[1] + 256 * p[2]
            &&& e.lint == p[3]
        }),
        t == 5 && p.len() >= 10 ==> ({
            &&& parsed_entry(t, p) matches EntryType::EntryType5(e)
            &&& e.reserved == p[0] + 256 * p[1]
            &&& e.lapic_address == p[2] + 256 * p[3] + 65536 * p[4] + 16777216 * p[5]
                + 0x1_0000_0000 * (p[6] + 256 * p[7] + 65536 * p[8] + 16777216 * p[9])
        }),
        t == 9 && p.len() >= 14 ==> ({
            &&& parsed_entry(t, p) matches EntryType::EntryType9(e)
            &&& e.reserved == p[0] + 256 * p[1]
            &&& e.processor_x2lapic_id == p[2] + 256 * p[3] + 65536 * p[4] + 16777216 * p[5]
            &&& e.flags == p[6] + 256 * p[7] + 65536 * p[8] + 16777216 * p[9]
            &&& e.acpi_id == p[10] + 256 * p[11] + 65536 * p[12] + 16777216 * p[13]
        }),
{
    if p.len() >= payload_len(t) && payload_len(t) > 0 {
        assert forall|o: int| 0 <= o && o + 4 <= p.len() implies #[trigger] le_u32(p, o) == p[o] + 256 * p[o + 1]
            + 65536 * p[o + 2] + 16777216 * p[o + 3] by {
            assert(0 <= p[o] + 256 * p[o + 1] + 65536 * p[o + 2] + 16777216 * p[o + 3] < 0x1_0000_0000);
        }
        assert forall|o: int| 0 <= o && o + 2 <= p.len() implies #[trigger] le_u16(p, o) == p[o] + 256 * p[o + 1] by {}
        if t == 5 {
            let lo = le_u32(p, 2);
            let hi = le_u32(p, 6);
            assert(le_u32(p, 2) == p[2] + 256 * p[3] + 65536 * p[4] + 16777216 * p[5]);
            assert(le_u32(p, 6) == p[6] + 256 * p[7] + 65536 * p[8] + 16777216 * p[9]);
            assert(0 <= lo + 0x1_0000_0000 * hi < 0x1_0000_0000 * 0x1_0000_0000) by (nonlinear_arith)
                requires
                    0 <= lo < 0x1_0000_0000,
                    0 <= hi < 0x1_0000_0000,
            ;
        }
    }
}

impl EntryType {
    /// Decodes the payload (the bytes after type and length) of a record.
    pub fn parse(entry_type: u8, payload: &[u8]) -> (r: Self)
        ensures
            r == parsed_entry(entry_type, payload@),
    {
        if entry_type == 0 && payload.len() >= 6 {
            EntryType::EntryType0(
                ProcessorLapic { processor_id: payload[0], apic_id: payload[1], flags: read_u32(payload, 2) },
            )
        } else if entry_type == 1 && payload.len() >= 10 {
            EntryType::EntryType1(
                IOApic {
                    io_apic_id: payload[0],
                    reserved: payload[1],
                    io_apic_address: read_u32(payload, 2),
                    global_interrupt: read_u32(payload, 6),
                },
            )
        } else if entry_type == 2 && payload.len() >= 8 {
            EntryType::EntryType2(
                IOApicSourceOverride {
                    bus_source: payload[0],
                    irq_source: payload[1],
                    gsi: read_u32(payload, 2),
                    flags: read_u16(payload, 6),
                },
            )
        } else if entry_type == 3 && payload.len() >= 8 {
            EntryType::EntryType3(
                IOApicNonMaskableInterruptSource {
                    nmi_source: payload[0],
                    reserved: payload[1],
                    flags: read_u16(payload, 2),
                    gsi: read_u32(payload, 4),
                },
            )
        } else if entry_type == 4 && payload.len() >= 4 {
            EntryType::EntryType4(
                LapicNonMaskableInterrupts {
                    acpi_processor_id: payload[0],
                    flags: read_u16(payload, 1),
                    lint: payload[3],
                },
            )
        } else if entry_type == 5 && payload.len() >= 10 {
            EntryType::EntryType5(
                LapicAddressOverride { reserved: read_u16(payload, 0), lapic_address: read_u64(payload, 2) },
            )
        } else if entry_type == 9 && payload.len() >= 14 {
            EntryType::EntryType9(
                X2LapicProcessor {
                    reserved: read_u16(payload, 0),
                    processor_x2lapic_id: read_u32(payload, 2),
                    flags: read_u32(payload, 6),
                    acpi_id: read_u32(payload, 10),
                },
            )
        } else {
            EntryType::EntryTypeUnknown(entry_type)
        }
    }
}

impl<P: PhysicalAddress> MadtIterator<P> {
    /// The record at the current offset, or `None` when fewer than two bytes
    /// remain, the record's length is 2 or less, or the record runs past the
    /// end.  After a record the offset grows by the offset just past that
    /// record (so the walk moves from `o` to `2 * o + length`).
    pub fn next(&mut self) -> (r: Option<Entry>)
        requires
            old(self).curr_offset + 2 <= usize::MAX,
            old(self).curr_offset + 2 <= old(self).data_slice@.len() ==> 2 * old(self).curr_offset
                + old(self).data_slice@[old(self).curr_offset + 1] <= usize::MAX,
        ensures
            final(self).data_slice@ == old(self).data_slice@,
            final(self).hhdm == old(self).hhdm,
            ({
                let s = old(self).data_slice@;
                let o = old(self).curr_offset as int;
                if o + 2 > s.len() || s[o + 1] <= 2 || o + s[o + 1] > s.len() {
                    r is None && final(self).curr_offset == old(self).curr_offset
                } else {
                    &&& final(self).curr_offset == 2 * o + s[o + 1]
                    &&& r matches Some(e) && e.entry_type == s[o] && e.record_len == s[o + 1]
                        && e.entry_specific == parsed_entry(s[o], s.subrange(o + 2, o + s[o + 1]))
                }
            }),
    {
        if self.curr_offset + 2 > self.data_slice.len() {
            None
        } else {
            let entry_type = self.data_slice[self.curr_offset];
            let len = self.data_slice[self.curr_offset + 1];
            let next_offset = self.curr_offset + len as usize;
            if len <= 2 {
                return None;
            } else if next_offset > self.data_slice.len() {
                return None;
            }
            let payload = copy_from(self.data_slice.as_slice(), self.curr_offset + 2);
            let payload = truncated(payload, (len - 2) as usize);
            let entry_specific = EntryType::parse(entry_type, payload.as_slice());
            self.curr_offset = self.curr_offset + next_offset;
            Some(Entry { entry_type: entry_type, record_len: len, entry_specific })
        }
    }
}

/// The first `n` bytes of `v`.
fn truncated(v: Vec<u8>, n: usize) -> (r: Vec<u8>)
    requires
        n <= v@.len(),
    ensures
        r@ == v@.subrange(0, n as int),
{
    let mut v = v;
    v.truncate(n);
    v
}

} // verus!
