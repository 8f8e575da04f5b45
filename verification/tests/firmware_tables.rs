use tiny_kernel::acpi::header::{AcpiSdtHeader, SdtTable};
use tiny_kernel::acpi::madt::{EntryType, Madt};
use tiny_kernel::acpi::mcfg::Mcfg;
use tiny_kernel::acpi::rsdp::{is_rsdp_valid, rsdp_xsdt_address};
use tiny_kernel::acpi::tables::{parse_acpi_tables, Tables};
use tiny_kernel::acpi::xsdt::{RxsdtToIter, Xsdt};
use tiny_kernel::addresses::{PhysicalAddress, VirtualAddress, HIGHER_HALF_START};
use tiny_kernel::bios_info::BiosInfo;
use tiny_kernel::bump::BumpAllocator;
use tiny_kernel::framebuffer::Framebuffer;
use tiny_kernel::le_bytes::{read_u16, read_u32, read_u64};
use tiny_kernel::x86_addresses::{is_canonical, X86PhysAddr, X86VirtAddr};
use tiny_kernel::page_allocator::{PageAllocator, PageLog, PageSize, VirtPages};

#[derive(Clone, Copy, Debug, PartialEq)]
struct Phys(u64);

#[derive(Clone, Copy, Debug, PartialEq)]
struct Virt(u64);

impl VirtualAddress for Virt {
    fn address(&self) -> u64 {
        self.0
    }

    fn to_u64(&self) -> u64 {
        self.0
    }

    fn is_higher_half(&self) -> bool {
        self.0 >= HIGHER_HALF_START
    }
}

impl PhysicalAddress for Phys {
    type VAddr = Virt;

    fn address(&self) -> u64 {
        self.0
    }

    fn representable(addr: u64) -> bool {
        addr < (1u64 << 52)
    }

    fn from_address(addr: u64) -> Self {
        Phys(addr)
    }

    fn virtual_at(&self, offset: u64) -> Option<Virt> {
        self.0.checked_add(offset).map(Virt)
    }

    fn to_u64(&self) -> u64 {
        self.0
    }

    fn is_valid(&self) -> bool {
        self.0 < (1u64 << 52)
    }

    fn from_u64(addr: u64) -> Self {
        Phys(addr)
    }

    fn to_virtual(&self, offset: u64) -> Option<Virt> {
        self.0.checked_add(offset).map(Virt)
    }
}

const HHDM: u64 = 0xFFFF_8000_0000_0000;

fn header_bytes(sig: &[u8; 4], len: u32) -> Vec<u8> {
    let mut b = Vec::new();
    b.extend_from_slice(sig);
    b.extend_from_slice(&len.to_le_bytes());
    b.push(1); // revision
    b.push(0); // checksum
    b.extend_from_slice(b"OEMID ");
    b.extend_from_slice(b"TABLEID ");
    b.extend_from_slice(&7u32.to_le_bytes());
    b.extend_from_slice(&0x4142_4344u32.to_le_bytes());
    b.extend_from_slice(&9u32.to_le_bytes());
    b
}

fn table(sig: &[u8; 4], data: Vec<u8>) -> SdtTable {
    let bytes = header_bytes(sig, 36 + data.len() as u32);
    SdtTable { header: AcpiSdtHeader::from_bytes(&bytes), data }
}

#[test]
fn sdt_header_fields_are_read_little_endian() {
    let bytes = header_bytes(b"APIC", 0x50);
    let h = AcpiSdtHeader::from_bytes(&bytes);
    assert_eq!(h.signature, *b"APIC");
    assert_eq!(h.len, 0x50);
    assert_eq!(h.revision, 1);
    assert_eq!(h.oemid, *b"OEMID ");
    assert_eq!(h.oem_table_id, *b"TABLEID ");
    assert_eq!(h.oem_revision, 7);
    assert_eq!(h.creator_id, 0x4142_4344);
    assert_eq!(h.creator_revision, 9);
    assert_eq!(h.get_data_len(), 0x50 - 36);
    assert!(h.has_signature(*b"APIC"));
    assert!(!h.has_signature(*b"MCFG"));
}

#[test]
fn sdt_header_short_length_has_no_data() {
    let h = AcpiSdtHeader::from_bytes(&header_bytes(b"FACP", 20));
    assert_eq!(h.get_data_len(), 0);
}

#[test]
fn table_signatures() {
    assert_eq!(Tables::XSDT.get_signature(), *b"XSDT");
    assert_eq!(Tables::FADT.get_signature(), *b"FACP");
    assert_eq!(Tables::MCFG.get_signature(), *b"MCFG");
    assert_eq!(Tables::HPET.get_signature(), *b"HPET");
    assert_eq!(Tables::MADT.get_signature(), *b"APIC");
}

#[test]
fn little_endian_reads() {
    let b = [0x01u8, 0x02, 0x03, 0x04, 0x05, 0x06, 0x07, 0x08];
    assert_eq!(read_u16(&b, 1), 0x0302);
    assert_eq!(read_u32(&b, 0), 0x0403_0201);
    assert_eq!(read_u64(&b, 0), 0x0807_0605_0403_0201);
}

fn rsdp_bytes(revision: u8, xsdt: u64) -> Vec<u8> {
    let mut b = vec![0u8; 36];
    b[..8].copy_from_slice(b"RSD PTR ");
    b[15] = revision;
    b[24..32].copy_from_slice(&xsdt.to_le_bytes());
    let sum: u32 = b.iter().map(|&x| x as u32).sum();
    b[8] = ((256 - (sum % 256)) % 256) as u8;
    b
}

#[test]
fn rsdp_checksum_and_xsdt_address() {
    let b = rsdp_bytes(2, 0x7FE1_4000);
    assert!(is_rsdp_valid(&b, 36));
    assert_eq!(rsdp_xsdt_address(&b), 0x7FE1_4000);
    let mut bad = b.clone();
    bad[30] ^= 1;
    assert!(!is_rsdp_valid(&bad, 36));
    assert!(is_rsdp_valid(&bad, 0));
}

#[test]
fn xsdt_entries_map_into_upper_half() {
    let mut data = Vec::new();
    data.extend_from_slice(&0x1000u64.to_le_bytes());
    data.extend_from_slice(&0x2000u64.to_le_bytes());
    data.extend_from_slice(&[1, 2, 3]);
    let xsdt: Xsdt<Phys> = Xsdt::new(table(b"XSDT", data), HHDM);
    assert_eq!(xsdt.as_slice().len(), 19);
    let mut it = xsdt.to_iter();
    assert_eq!(it.next(), Some(HHDM + 0x1000));
    assert_eq!(it.next(), Some(HHDM + 0x2000));
    assert_eq!(it.next(), None);
    assert_eq!(it.next(), None);
}

fn mcfg_data() -> Vec<u8> {
    let mut data = vec![0u8; 8];
    data.extend_from_slice(&0xE000_0000u64.to_le_bytes());
    data.extend_from_slice(&3u16.to_le_bytes());
    data.push(0);
    data.push(0x3F);
    data.extend_from_slice(&0u32.to_le_bytes());
    data
}

#[test]
fn mcfg_records_give_pci_mechanisms() {
    let mcfg: Mcfg<Phys> = Mcfg::new(table(b"MCFG", mcfg_data()), HHDM as usize).unwrap();
    let mut it = mcfg.to_iter();
    let m = it.next().unwrap();
    assert_eq!(m.bacm, HHDM + 0xE000_0000);
    assert_eq!(m.bus_segment_number, 3);
    assert_eq!(m.start_pci_host_bridge, 0);
    assert_eq!(m.end_pci_host_bridge, 0x3F);
    assert!(it.next().is_none());
}

#[test]
fn mcfg_needs_its_signature() {
    assert!(Mcfg::<Phys>::new(table(b"HPET", mcfg_data()), 0).is_none());
}

fn madt_data() -> Vec<u8> {
    let mut d = vec![0u8, 8, 1, 2, 1, 0, 0, 0];
    d.extend_from_slice(&[1u8, 12, 3, 0]);
    d.extend_from_slice(&0xFEC0_0000u32.to_le_bytes());
    d.extend_from_slice(&0u32.to_le_bytes());
    d
}

#[test]
fn madt_entries_are_decoded() {
    let madt: Madt<Phys> = Madt::new(table(b"APIC", madt_data()), HHDM as usize);
    assert_eq!(madt.get_data_addr(), u64::from_le_bytes([0, 8, 1, 2, 1, 0, 0, 0]));
    let mut it = madt.to_iter();
    let first = it.next().unwrap();
    assert_eq!(first.entry_type, 0);
    assert_eq!(first.record_len, 8);
    assert!(matches!(&first.entry_specific, EntryType::EntryType0(p) if p.processor_id == 1 && p.apic_id == 2 && p.flags == 1));
    // the walk then moves to twice the offset plus the record length (8), a
    // record of type 1
    let second = it.next().unwrap();
    assert_eq!(second.entry_type, 1);
    assert!(matches!(&second.entry_specific, EntryType::EntryType1(a) if a.io_apic_id == 3 && a.io_apic_address == 0xFEC0_0000));
    assert!(it.next().is_none());
}

#[test]
fn madt_entry_type_parse_short_payload_is_unknown() {
    assert!(matches!(EntryType::parse(0, &[1, 2]), EntryType::EntryTypeUnknown(0)));
    assert!(matches!(EntryType::parse(42, &[0; 16]), EntryType::EntryTypeUnknown(42)));
    assert!(matches!(
        EntryType::parse(5, &[0, 0, 0x00, 0x00, 0xE0, 0xFE, 0, 0, 0, 0]),
        EntryType::EntryType5(o) if o.lapic_address == 0xFEE0_0000
    ));
}

#[test]
fn acpi_tables_are_sorted_and_last_one_wins() {
    let xsdt: Xsdt<Phys> = Xsdt::new(table(b"XSDT", Vec::new()), HHDM);
    let tables = vec![
        table(b"FACP", vec![1, 2, 3]),
        table(b"APIC", vec![9; 4]),
        table(b"MCFG", mcfg_data()),
        table(b"APIC", madt_data()),
        table(b"SSDT", vec![]),
    ];
    let reg = parse_acpi_tables(xsdt, tables, HHDM as usize);
    assert!(reg.fadt.is_some());
    assert!(reg.hpet.is_none());
    assert!(reg.mcfg.is_some());
    let madt = reg.madt.unwrap();
    assert_eq!(madt.as_slice(), madt_data().as_slice());
}

struct NoPages {
    log: PageLog,
}

impl PageAllocator for NoPages {
    fn page_log(&self) -> PageLog {
        self.log
    }

    fn allocate_pages(&mut self, count: u8, pg: PageSize) -> Option<VirtPages> {
        self.log.note_mapped(count, pg, &None);
        None
    }

    fn deallocate_pages(&mut self, pages: VirtPages) {
        self.log.note_freed(&pages);
    }

    fn kernel_allocate_pages(&mut self, count: u8, pg: PageSize) -> Option<VirtPages> {
        self.log.note_kernel(count, pg, &None);
        None
    }
}

#[test]
fn bios_info_collects_boot_parts() {
    let fb = Framebuffer::new(0x1000, 640, 480, 2560, 8, 8, 8, 16, 8, 0, 4);
    let xsdt: Xsdt<Phys> = Xsdt::new(table(b"XSDT", vec![0; 8]), HHDM);
    let mut info = BiosInfo::new(fb, BumpAllocator::new(0x10_0000, 0x1000), NoPages { log: PageLog::new() }, xsdt);
    assert_eq!(info.framebuffer.width, 640);
    assert_eq!(info.kernel_alloc.end, 0x10_1000);
    assert_eq!(info.xsdt.as_slice().len(), 8);
    assert!(info.page_allocator.allocate_page(PageSize::REGULAR).is_none());
}

#[test]
fn x86_addresses_follow_the_architecture() {
    let p = X86PhysAddr(0x1000);
    assert!(p.is_valid());
    assert!(!X86PhysAddr(1u64 << 52).is_valid());
    assert_eq!(p.to_u64(), 0x1000);
    assert_eq!(X86PhysAddr::from_u64(0x2000), X86PhysAddr(0x2000));
    assert_eq!(p.to_virtual(HHDM), Some(X86VirtAddr(HHDM + 0x1000)));
    assert_eq!(p.to_virtual(0x0000_8000_0000_0000), None);
    assert_eq!(X86PhysAddr(u64::MAX).to_virtual(2), None);
    assert!(X86VirtAddr(HHDM).is_higher_half());
    assert!(!X86VirtAddr(0x1000).is_higher_half());
    assert!(is_canonical(0x7FFF_FFFF_FFFF));
    assert!(!is_canonical(0x8000_0000_0000));
}

#[test]
fn xsdt_walk_with_x86_addresses() {
    let mut data = Vec::new();
    data.extend_from_slice(&0x7FE1_4000u64.to_le_bytes());
    let xsdt: Xsdt<X86PhysAddr> = Xsdt::new(table(b"XSDT", data), HHDM);
    let mut it = xsdt.to_iter();
    assert_eq!(it.next(), Some(HHDM + 0x7FE1_4000));
    assert_eq!(it.next(), None);
}

#[test]
fn xsdt_entries_mapping_high() {
    assert!(tiny_kernel::x86_addresses::entry_maps_high_x86(0x7FE1_0000, 0xFFFF_8000_0000_0000));
    assert!(!tiny_kernel::x86_addresses::entry_maps_high_x86(0x7FE1_0000, 0));
    assert!(!tiny_kernel::x86_addresses::entry_maps_high_x86(1u64 << 52, 0xFFFF_8000_0000_0000));
    assert!(!tiny_kernel::x86_addresses::entry_maps_high_x86(0x1000, u64::MAX));
}
