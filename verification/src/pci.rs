//! PCI configuration space: the enhanced (memory-mapped) configuration
//! mechanism and the decoding of device headers, BARs and capabilities.
use vstd::prelude::*;
use crate::text::{describe_device, device_summary};
use crate::le_bytes::{le_u16, le_u32, read_u16, read_u32, write_u16};

verus! {

/// One MCFG allocation: configuration space of the buses
/// `start_pci_host_bridge ..= end_pci_host_bridge` mapped at `bacm`.
#[derive(Debug)]
pub struct EnhancedPciMechanism {
    pub bacm: u64,
    pub bus_segment_number: u16,
    pub start_pci_host_bridge: u8,
    pub end_pci_host_bridge: u8,
    pub reserved: u32,
}

impl EnhancedPciMechanism {
    /// A mechanism record holding the given fields.
    pub fn new(
        bacm: u64,
        bus_segment_number: u16,
        start_pci_host_bridge: u8,
        end_pci_host_bridge: u8,
        reserved: u32,
    ) -> (r: Self)
        ensures
            r.bacm == bacm,
            r.bus_segment_number == bus_segment_number,
            r.start_pci_host_bridge == start_pci_host_bridge,
            r.end_pci_host_bridge == end_pci_host_bridge,
            r.reserved == reserved,
    {
        EnhancedPciMechanism {
            bacm,
            bus_segment_number,
            start_pci_host_bridge,
            end_pci_host_bridge,
            reserved,
        }
    }
}

/// Offset of function `func` of device `dev` on bus `bus` in the enhanced
/// configuration space: bus in bits 20.., device (5 bits) in bits 15..20,
/// function (3 bits) in bits 12..15.
pub open spec fn bdf_offset(bus: u8, dev: u8, func: u8) -> int {
    bus * 0x10_0000 + (dev % 32) * 0x8000 + (func % 8) * 0x1000
}

/// The configuration space of a function is the 4 KiB page whose number
/// spells bus, device and function: the offset is page aligned and gives
/// back the bus (bits 20 and up), the device (bits 15..20) and the function
/// (bits 12..15), so two different functions never share a byte.
pub proof fn lemma_bdf_offset_layout(bus: u8, dev: u8, func: u8, bus2: u8, dev2: u8, func2: u8)
    requires
        dev < 32,
        func < 8,
        dev2 < 32,
        func2 < 8,
    ensures
        bdf_offset(bus, dev, func) % 0x1000 == 0,
        bdf_offset(bus, dev, func) / 0x10_0000 == bus,
        (bdf_offset(bus, dev, func) / 0x8000) % 32 == dev,
        (bdf_offset(bus, dev, func) / 0x1000) % 8 == func,
        (bus, dev, func) != (bus2, dev2, func2) ==> bdf_offset(bus, dev, func) + 0x1000 <= bdf_offset(bus2, dev2, func2)
            || bdf_offset(bus2, dev2, func2) + 0x1000 <= bdf_offset(bus, dev, func),
{
    let o = bdf_offset(bus, dev, func);
    let page: int = bus * 256 + dev * 8 + func;
    let page2: int = bus2 * 256 + dev2 * 8 + func2;
    assert(o == page * 0x1000);
    assert(bdf_offset(bus2, dev2, func2) == page2 * 0x1000);
    vstd::arithmetic::div_mod::lemma_mod_multiples_basic(page, 0x1000);
    vstd::arithmetic::div_mod::lemma_fundamental_div_mod_converse(o, 0x10_0000, bus as int, dev * 0x8000 + func * 0x1000);
    vstd::arithmetic::div_mod::lemma_fundamental_div_mod_converse(o, 0x8000, bus * 32 + dev, func * 0x1000);
    vstd::arithmetic::div_mod::lemma_fundamental_div_mod_converse(bus * 32 + dev, 32, bus as int, dev as int);
    vstd::arithmetic::div_mod::lemma_fundamental_div_mod_converse(o, 0x1000, page, 0);
    vstd::arithmetic::div_mod::lemma_fundamental_div_mod_converse(page, 8, bus * 32 + dev, func as int);
    if (bus, dev, func) != (bus2, dev2, func2) {
        if page == page2 {
            vstd::arithmetic::div_mod::lemma_fundamental_div_mod_converse(page, 8, bus2 * 32 + dev2, func2 as int);
            vstd::arithmetic::div_mod::lemma_fundamental_div_mod_converse(bus2 * 32 + dev2, 32, bus2 as int, dev2 as int);
        }
        assert(page != page2);
        assert(page * 0x1000 + 0x1000 <= page2 * 0x1000 || page2 * 0x1000 + 0x1000 <= page * 0x1000) by (nonlinear_arith)
            requires
                page != page2,
        ;
    }
}

/// The header fields every function has, by their place in configuration
/// space: two-byte fields little-endian at 0 (vendor), 2 (device), 4
/// (command) and 6 (status), then one byte each for revision, programming
/// interface, subclass, class, cache line size, latency timer, header type
/// and BIST at 8 to 15.
pub proof fn lemma_basic_header_layout(c: Seq<u8>)
    requires
        c.len() >= 16,
    ensures
        basic_of(c).vendor_id == c[0] + 256 * c[1],
        basic_of(c).device_id == c[2] + 256 * c[3],
        basic_of(c).command == c[4] + 256 * c[5],
        basic_of(c).status == c[6] + 256 * c[7],
        basic_of(c).revision == c[8],
        basic_of(c).prog_if == c[9],
        basic_of(c).sub_class == c[10],
        basic_of(c).class == c[11],
        basic_of(c).cache_line_size == c[12],
        basic_of(c).timer == c[13],
        basic_of(c).header_type == c[14],
        basic_of(c).bist == c[15],
{
}

/// Address of the configuration space of (`bus`, `dev`, `func`) above `virt_base`.
pub fn get_bdf_address(virt_base: u64, bus: u8, dev: u8, func: u8) -> (r: u64)
    requires
        virt_base + bdf_offset(bus, dev, func) <= u64::MAX,
    ensures
        r == virt_base + bdf_offset(bus, dev, func),
{
    let bus_offset = bus as u64;
    let dev_offset = (dev & 0x1F) as u64;
    let func_offset = (func & 0x07) as u64;
    let offset = (bus_offset << 20u64) | (dev_offset << 15u64) | (func_offset << 12u64);
    proof {
        assert(dev & 0x1F == dev % 32) by (bit_vector);
        assert(func & 0x07 == func % 8) by (bit_vector);
        assert(offset == bus_offset * 0x10_0000 + dev_offset * 0x8000 + func_offset * 0x1000) by (bit_vector)
            requires
                bus_offset < 256,
                dev_offset < 32,
                func_offset < 8,
                offset == (bus_offset << 20u64) | (dev_offset << 15u64) | (func_offset << 12u64),
        ;
    }
    virt_base + offset
}

} // verus!

verus! {

/// Bytes of one function's configuration space in the enhanced mechanism.
pub const CONFIG_SPACE_LEN: usize = 4096;

/// Offset of the first base address register.
pub const FIRST_BAR_OFFSET: usize = 0x10;

/// Offset of the capabilities pointer.
pub const CAPABILITIES_POINTER_OFFSET: usize = 0x34;

/// Capability id of MSI.
pub const MSI_CAPABILITY_ID: u8 = 0x5;

/// The header fields every PCI function has (the first 16 bytes).
#[derive(Debug)]
pub struct BasicDevice {
    pub vendor_id: u16,
    pub device_id: u16,
    pub command: u16,
    pub status: u16,
    pub revision: u8,
    pub prog_if: u8,
    pub sub_class: u8,
    pub class: u8,
    pub cache_line_size: u8,
    pub timer: u8,
    pub header_type: u8,
    pub bist: u8,
}

/// The common header fields of configuration space `c`.
pub open spec fn basic_of(c: Seq<u8>) -> BasicDevice {
    BasicDevice {
        vendor_id: le_u16(c, 0),
        device_id: le_u16(c, 2),
        command: le_u16(c, 4),
        status: le_u16(c, 6),
        revision: c[8],
        prog_if: c[9],
        sub_class: c[10],
        class: c[11],
        cache_line_size: c[12],
        timer: c[13],
        header_type: c[14],
        bist: c[15],
    }
}

impl BasicDevice {
    /// The common header fields of configuration space `c`.
    pub fn from_config(c: &[u8]) -> (r: Self)
        requires
            c@.len() >= 16,
        ensures
            r == basic_of(c@),
    {
        BasicDevice {
            vendor_id: read_u16(c, 0),
            device_id: read_u16(c, 2),
            command: read_u16(c, 4),
            status: read_u16(c, 6),
            revision: c[8],
            prog_if: c[9],
            sub_class: c[10],
            class: c[11],
            cache_line_size: c[12],
            timer: c[13],
            header_type: c[14],
            bist: c[15],
        }
    }
}

/// A base address register: a memory range (32- or 64-bit) or an I/O port range.
#[derive(Debug, Clone, Copy)]
pub enum Bar {
    Memory32(u32),
    Memory64(u64),
    Io(u32),
}

impl Bar {
    fn empty() -> (r: Self)
        ensures
            r == Bar::Memory32(0),
    {
        Bar::Memory32(0)
    }

    /// The register holds a non-zero address.
    pub fn is_usable(&self) -> (r: bool)
        ensures
            r == match *self {
                Bar::Io(f) => f != 0,
                Bar::Memory64(f) => f != 0,
                Bar::Memory32(f) => f != 0,
            },
    {
        match self {
            Bar::Io(f) => *f != 0,
            Bar::Memory64(f) => *f != 0,
            Bar::Memory32(f) => *f != 0,
        }
    }
}

/// The BAR decoded from register `reg` (counted in 32-bit registers from
/// `base`), and how many registers it takes.
pub open spec fn decode_bar(c: Seq<u8>, base: int, reg: nat) -> (Bar, nat) {
    let v = le_u32(c, base + 4 * reg);
    if v == 0 {
        (Bar::Memory32(0), 1)
    } else if v % 2 == 0 {
        if (v / 2) % 4 == 2 {
            let upper = le_u32(c, base + 4 * reg + 4);
            (Bar::Memory64((upper * 0x1_0000_0000 + (v - v % 16)) as u64), 2)
        } else {
            (Bar::Memory32((v - v % 16) as u32), 1)
        }
    } else {
        (Bar::Io((v - v % 4) as u32), 1)
    }
}

/// `count` BARs decoded one after the other from register `reg` on.
pub open spec fn bar_list(c: Seq<u8>, base: int, reg: nat, count: nat) -> Seq<Bar>
    decreases count,
{
    if count == 0 {
        Seq::empty()
    } else {
        let (b, used) = decode_bar(c, base, reg);
        seq![b] + bar_list(c, base, reg + used, (count - 1) as nat)
    }
}

/// What a BAR register means, by the value `v` of the 32-bit register read
/// little-endian from its four bytes: zero is an empty memory BAR; an odd
/// value is an I/O BAR whose port is `v` with its two flag bits cleared;
/// any other value is a memory BAR whose address is `v` with its four flag
/// bits (space, type, prefetchable) cleared, 16-byte aligned, and, when the
/// type bits (2..1) are `10`, extended by the next register as the upper 32
/// bits of a 64-bit address.
pub proof fn lemma_bar_register_meaning(c: Seq<u8>, base: int, reg: nat)
    ensures
        ({
            let o = base + 4 * reg;
            let v = c[o] + 256 * c[o + 1] + 65536 * c[o + 2] + 16777216 * c[o + 3];
            let (bar, used) = decode_bar(c, base, reg);
            &&& v == 0 ==> bar == Bar::Memory32(0) && used == 1
            &&& v % 2 == 1 ==> used == 1 && (bar matches Bar::Io(a) && a % 4 == 0 && a <= v < a + 4)
            &&& v != 0 && v % 2 == 0 && (v / 2) % 4 != 2 ==> used == 1 && (bar matches Bar::Memory32(a) && a % 16
                == 0 && a <= v < a + 16)
            &&& v != 0 && v % 2 == 0 && (v / 2) % 4 == 2 ==> used == 2 && (bar matches Bar::Memory64(a) && a
                % 16 == 0 && a % 0x1_0000_0000 <= v < a % 0x1_0000_0000 + 16 && a / 0x1_0000_0000 == c[o + 4]
                + 256 * c[o + 5] + 65536 * c[o + 6] + 16777216 * c[o + 7])
        }),
{
    let o = base + 4 * reg;
    let v = le_u32(c, o);
    assert(0 <= c[o] + 256 * c[o + 1] + 65536 * c[o + 2] + 16777216 * c[o + 3] < 0x1_0000_0000);
    assert(v == c[o] + 256 * c[o + 1] + 65536 * c[o + 2] + 16777216 * c[o + 3]);
    let upper = le_u32(c, o + 4);
    assert(0 <= c[o + 4] + 256 * c[o + 5] + 65536 * c[o + 6] + 16777216 * c[o + 7] < 0x1_0000_0000);
    assert(upper == c[o + 4] + 256 * c[o + 5] + 65536 * c[o + 6] + 16777216 * c[o + 7]);
    let low = v - v % 16;
    assert(0 <= low < 0x1_0000_0000);
    let a: int = upper * 0x1_0000_0000 + low;
    assert(0 <= a < 0x1_0000_0000 * 0x1_0000_0000) by (nonlinear_arith)
        requires
            0 <= upper < 0x1_0000_0000,
            0 <= low < 0x1_0000_0000,
            a == upper * 0x1_0000_0000 + low,
    ;
    vstd::arithmetic::div_mod::lemma_fundamental_div_mod_converse(a, 0x1_0000_0000, upper as int, low);
    assert(a % 16 == 0) by {
        assert(a == 16 * (upper * 0x1000_0000 + low / 16));
        vstd::arithmetic::div_mod::lemma_mod_multiples_basic(upper * 0x1000_0000 + low / 16, 16);
    }
}

/// The BARs `parse_bars` lists are those registers decoded in turn: the
/// first one is the meaning (see `lemma_bar_register_meaning`) of the first
/// register, and each next one starts after the registers the previous one
/// took.
pub proof fn lemma_bar_list_steps(c: Seq<u8>, base: int, reg: nat, count: nat)
    requires
        count > 0,
    ensures
        bar_list(c, base, reg, count)[0] == decode_bar(c, base, reg).0,
        bar_list(c, base, reg, count).drop_first() == bar_list(c, base, reg + decode_bar(c, base, reg).1, (count
            - 1) as nat),
{
    let (b, used) = decode_bar(c, base, reg);
    assert(bar_list(c, base, reg, count) == seq![b] + bar_list(c, base, reg + used, (count - 1) as nat));
    assert((seq![b] + bar_list(c, base, reg + used, (count - 1) as nat)).drop_first() =~= bar_list(
        c,
        base,
        reg + used,
        (count - 1) as nat,
    ));
}

/// Decoding `count` BARs gives `count` of them.
pub proof fn lemma_bar_list_len(c: Seq<u8>, base: int, reg: nat, count: nat)
    ensures
        bar_list(c, base, reg, count).len() == count,
    decreases count,
{
    if count > 0 {
        let (b, used) = decode_bar(c, base, reg);
        lemma_bar_list_len(c, base, reg + used, (count - 1) as nat);
    }
}

/// Decodes `n` BARs from the configuration space `c`, the first register at
/// `first_bar_offset`.  A 64-bit memory BAR takes two registers and the
/// following BAR is read after them.
pub fn parse_bars(c: &[u8], first_bar_offset: usize, n: usize) -> (r: Vec<Bar>)
    requires
        first_bar_offset + 8 * n + 4 <= c@.len(),
    ensures
        r@ == bar_list(c@, first_bar_offset as int, 0, n as nat),
        r@.len() == n,
{
    proof {
        lemma_bar_list_len(c@, first_bar_offset as int, 0, n as nat);
    }
    let mut bars: Vec<Bar> = Vec::new();
    let mut reg_counter: usize = 0;
    let mut i: usize = 0;
    while i < n
        invariant
            i <= n,
            reg_counter <= 2 * i,
            first_bar_offset + 8 * n + 4 <= c@.len(),
            c@.len() == c.len(),
            bars@ + bar_list(c@, first_bar_offset as int, reg_counter as nat, (n - i) as nat) == bar_list(
                c@,
                first_bar_offset as int,
                0,
                n as nat,
            ),
        decreases n - i,
    {
        let bar_offset = first_bar_offset + reg_counter * 4;
        let bar_value = read_u32(c, bar_offset);
        let ghost before = bars@;
        let ghost rest = bar_list(c@, first_bar_offset as int, reg_counter as nat, (n - i) as nat);
        proof {
            assert(bar_value & 1 == bar_value % 2) by (bit_vector);
            assert((bar_value >> 1) & 0x03 == (bar_value / 2) % 4) by (bit_vector);
            assert(bar_value & 0xFFFF_FFF0 == bar_value - bar_value % 16) by (bit_vector);
            assert(bar_value & 0xFFFF_FFFC == bar_value - bar_value % 4) by (bit_vector);
        }
        if bar_value == 0 {
            bars.push(Bar::empty());
            reg_counter = reg_counter + 1;
        } else if (bar_value & 0x01) == 0 {
            if ((bar_value >> 1) & 0x03) == 2 {
                let bar_upper = read_u32(c, bar_offset + 4);
                let addr = ((bar_upper as u64) << 32u64) | ((bar_value & 0xFFFF_FFF0) as u64);
                proof {
                    let low = (bar_value & 0xFFFF_FFF0) as u64;
                    assert(addr == bar_upper * 0x1_0000_0000 + low) by (bit_vector)
                        requires
                            low < 0x1_0000_0000,
                            addr == ((bar_upper as u64) << 32u64) | low,
                    ;
                }
                bars.push(Bar::Memory64(addr));
                reg_counter = reg_counter + 2;
            } else {
                let addr = (bar_value & 0xFFFF_FFF0) as u64;
                bars.push(Bar::Memory32(addr as u32));
                reg_counter = reg_counter + 1;
            }
        } else {
            let port = bar_value & 0xFFFF_FFFC;
            bars.push(Bar::Io(port));
            reg_counter = reg_counter + 1;
        }
        proof {
            assert(bars@ + bar_list(c@, first_bar_offset as int, reg_counter as nat, (n - i - 1) as nat)
                =~= before + rest);
        }
        i = i + 1;
    }
    proof {
        assert(bars@ =~= bars@ + bar_list(c@, first_bar_offset as int, reg_counter as nat, 0));
    }
    bars
}

} // verus!

verus! {

/// Type-0 header fields: an ordinary device.
#[derive(Debug)]
pub struct NormalDevice {
    pub bars: [Bar; 6],
    pub cardbus: u32,
    pub sub_system_id: u16,
    pub sub_system_vendor_id: u16,
    pub exp_rom_base_address: u32,
    pub multifunc: bool,
}

/// Type-1 header fields: a PCI-to-PCI bridge.
#[derive(Debug)]
pub struct BridgeDevice {
    pub bars: [Bar; 2],
    pub primary_bus: u8,
    pub secondary_bus: u8,
    pub subordinate_bus: u8,
    pub secondary_latency_timer: u8,
    pub io_base: u8,
    pub io_limit: u8,
    pub io_base_upper: u16,
    pub io_limit_upper: u16,
    pub secondary_status: u16,
    pub memory_base: u16,
    pub memory_limit: u16,
    pub prefetchable_memory_base: u16,
    pub prefetchable_memory_limit: u16,
    pub prefetchable_memory_base_upper: u32,
    pub prefetchable_memory_limit_upper: u32,
    pub erom_bar: u32,
    pub bridge_control: u16,
    pub multifunc: bool,
}

/// The header-specific part of a function, by header type.
#[derive(Debug)]
pub enum PciHeaderType {
    NORMAL(NormalDevice),
    BRIDGE(BridgeDevice),
    UNKNOWN(u8),
}

/// The type-0 header fields of configuration space `c`.
pub open spec fn normal_of(c: Seq<u8>, multifunc: bool) -> NormalDevice {
    let b = bar_list(c, FIRST_BAR_OFFSET as int, 0, 6);
    NormalDevice {
        bars: [b[0], b[1], b[2], b[3], b[4], b[5]],
        sub_system_vendor_id: le_u16(c, 0x2C),
        sub_system_id: le_u16(c, 0x2E),
        exp_rom_base_address: le_u32(c, 0x30),
        cardbus: le_u32(c, 0x28),
        multifunc,
    }
}

/// The type-1 header fields of configuration space `c`.
pub open spec fn bridge_of(c: Seq<u8>, multifunc: bool) -> BridgeDevice {
    let b = bar_list(c, FIRST_BAR_OFFSET as int, 0, 2);
    BridgeDevice {
        bars: [b[0], b[1]],
        primary_bus: c[0x18],
        secondary_bus: c[0x19],
        subordinate_bus: c[0x1A],
        secondary_latency_timer: c[0x1B],
        io_base: c[0x1C],
        io_limit: c[0x1D],
        secondary_status: le_u16(c, 0x1E),
        memory_base: le_u16(c, 0x20),
        memory_limit: le_u16(c, 0x22),
        prefetchable_memory_base: le_u16(c, 0x24),
        prefetchable_memory_limit: le_u16(c, 0x26),
        prefetchable_memory_base_upper: le_u32(c, 0x28),
        prefetchable_memory_limit_upper: le_u32(c, 0x2C),
        io_base_upper: le_u16(c, 0x30),
        io_limit_upper: le_u16(c, 0x32),
        erom_bar: le_u32(c, 0x38),
        bridge_control: le_u16(c, 0x3E),
        multifunc,
    }
}

impl NormalDevice {
    /// The type-0 header fields of configuration space `c`.
    pub fn parse(c: &[u8], multifunc: bool) -> (r: NormalDevice)
        requires
            c@.len() >= 0x100,
        ensures
            r == normal_of(c@, multifunc),
    {
        let b = parse_bars(c, FIRST_BAR_OFFSET, 6);
        NormalDevice {
            bars: [b[0], b[1], b[2], b[3], b[4], b[5]],
            sub_system_vendor_id: read_u16(c, 0x2C),
            sub_system_id: read_u16(c, 0x2E),
            exp_rom_base_address: read_u32(c, 0x30),
            cardbus: read_u32(c, 0x28),
            multifunc,
        }
    }
}

impl BridgeDevice {
    /// The type-1 header fields of configuration space `c`.
    pub fn parse(c: &[u8], multifunc: bool) -> (r: Self)
        requires
            c@.len() >= 0x100,
        ensures
            r == bridge_of(c@, multifunc),
    {
        let b = parse_bars(c, FIRST_BAR_OFFSET, 2);
        BridgeDevice {
            bars: [b[0], b[1]],
            primary_bus: c[0x18],
            secondary_bus: c[0x19],
            subordinate_bus: c[0x1A],
            secondary_latency_timer: c[0x1B],
            io_base: c[0x1C],
            io_limit: c[0x1D],
            secondary_status: read_u16(c, 0x1E),
            memory_base: read_u16(c, 0x20),
            memory_limit: read_u16(c, 0x22),
            prefetchable_memory_base: read_u16(c, 0x24),
            prefetchable_memory_limit: read_u16(c, 0x26),
            prefetchable_memory_base_upper: read_u32(c, 0x28),
            prefetchable_memory_limit_upper: read_u32(c, 0x2C),
            io_base_upper: read_u16(c, 0x30),
            io_limit_upper: read_u16(c, 0x32),
            erom_bar: read_u32(c, 0x38),
            bridge_control: read_u16(c, 0x3E),
            multifunc,
        }
    }
}

/// Where each capability of a function starts in its configuration space.
#[derive(Debug)]
pub struct PciCapabilities {
    pub power_management: Option<u8>,
    pub agp: Option<u8>,
    pub vital_product_data: Option<u8>,
    pub slot_identification: Option<u8>,
    pub msi: Option<u8>,
    pub cci: Option<u8>,
    pub pci_x: Option<u8>,
    pub hypertransport: Option<u8>,
    pub vendor_specific: Option<u8>,
    pub debug_port: Option<u8>,
    pub compactpci_central_resource: Option<u8>,
    pub pci_hot_plug: Option<u8>,
    pub pci_bridge_subsystem_vendor_id: Option<u8>,
    pub agp_8x: Option<u8>,
    pub pcix_2: Option<u8>,
    pub msi_x: Option<u8>,
    pub sata_data_index: Option<u8>,
    pub advanced_features: Option<u8>,
    pub enhanced_allocation: Option<u8>,
    pub flattening_portal_bridge: Option<u8>,
}

/// No capability found.
pub open spec fn no_capabilities() -> PciCapabilities {
    PciCapabilities {
        power_management: None,
        agp: None,
        agp_8x: None,
        vital_product_data: None,
        sata_data_index: None,
        slot_identification: None,
        msi: None,
        msi_x: None,
        cci: None,
        hypertransport: None,
        vendor_specific: None,
        debug_port: None,
        compactpci_central_resource: None,
        pci_hot_plug: None,
        pci_x: None,
        pci_bridge_subsystem_vendor_id: None,
        pcix_2: None,
        advanced_features: None,
        enhanced_allocation: None,
        flattening_portal_bridge: None,
    }
}

/// Following the capability list of `c` from `off` reaches the end (a zero
/// pointer) within `n` steps.
pub open spec fn chain_ends(c: Seq<u8>, off: u8, n: nat) -> bool
    decreases n,
{
    if off == 0 {
        true
    } else if n == 0 {
        false
    } else {
        chain_ends(c, c[off + 1], (n - 1) as nat)
    }
}

/// The MSI capability position found on the list from `off` (the last one
/// with the MSI id), starting from `found`.
pub open spec fn msi_on_chain(c: Seq<u8>, off: u8, n: nat, found: Option<u8>) -> Option<u8>
    decreases n,
{
    if off == 0 || n == 0 {
        found
    } else {
        msi_on_chain(c, c[off + 1], (n - 1) as nat, if c[off as int] == MSI_CAPABILITY_ID { Some(off) } else { found })
    }
}

/// Longest capability list a configuration space can hold without a loop.
pub const MAX_CHAIN: usize = 256;

impl PciCapabilities {
    /// Capabilities with none found.
    pub fn empty() -> (r: Self)
        ensures
            r == no_capabilities(),
    {
        PciCapabilities {
            power_management: None,
            agp: None,
            agp_8x: None,
            vital_product_data: None,
            sata_data_index: None,
            slot_identification: None,
            msi: None,
            msi_x: None,
            cci: None,
            hypertransport: None,
            vendor_specific: None,
            debug_port: None,
            compactpci_central_resource: None,
            pci_hot_plug: None,
            pci_x: None,
            pci_bridge_subsystem_vendor_id: None,
            pcix_2: None,
            advanced_features: None,
            enhanced_allocation: None,
            flattening_portal_bridge: None,
        }
    }

    /// Walks the capability list of configuration space `c` from `offset`
    /// and records where MSI is.  A list that loops is never left, so such
    /// configuration spaces are excluded.
    pub fn parse(c: &[u8], offset: u8) -> (r: Self)
        requires
            c@.len() > 256,
            chain_ends(c@, offset, MAX_CHAIN as nat),
        ensures
            r == (PciCapabilities { msi: msi_on_chain(c@, offset, MAX_CHAIN as nat, None), ..no_capabilities() }),
    {
        let mut curr_offset = offset;
        let mut capabilities = PciCapabilities::empty();
        let ghost mut fuel: nat = MAX_CHAIN as nat;
        while curr_offset != 0
            invariant
                c@.len() > 256,
                chain_ends(c@, curr_offset, fuel),
                capabilities == (PciCapabilities { msi: capabilities.msi, ..no_capabilities() }),
                msi_on_chain(c@, curr_offset, fuel, capabilities.msi) == msi_on_chain(c@, offset, MAX_CHAIN as nat, None),
            decreases fuel,
        {
            let cap_id = c[curr_offset as usize];
            if cap_id == MSI_CAPABILITY_ID {
                capabilities.msi = Some(curr_offset);
            }
            curr_offset = c[curr_offset as usize + 1];
            proof {
                fuel = (fuel - 1) as nat;
            }
        }
        capabilities
    }
}

/// The MSI capability structure.
#[derive(Debug)]
pub struct MsiCapability {
    pub cap_id: u8,
    pub next_ptr: u8,
    pub message_control: u16,
    pub message_address_low: u32,
}

impl MsiCapability {
    /// Bit 6 of the message control: 64-bit message addresses.
    pub fn is_64bit(&self) -> (r: bool)
        ensures
            r == ((self.message_control / 64) % 2 == 1),
    {
        let mc = self.message_control;
        let r = (mc & 0b1000000) != 0;
        assert(((mc & 0b1000000) != 0) == ((mc / 64) % 2 == 1)) by (bit_vector);
        r
    }

    /// Offset of the message data register: 0xC with 64-bit addresses, 0x8 otherwise.
    pub fn message_data_offset(&self) -> (r: usize)
        ensures
            r == if (self.message_control / 64) % 2 == 1 { 0xCusize } else { 0x8usize },
    {
        if self.is_64bit() {
            0xC
        } else {
            0x8
        }
    }

    /// Message data for `vector`: the vector with fixed delivery (bits 8..11
    /// = 001) and edge trigger.
    pub fn create_msi_message_data(vector: u8) -> (r: u16)
        ensures
            r == vector + 0x100,
    {
        let vector_bits = (vector as u16) & 0xff;
        let delivery_mode: u16 = 0b001 << 8u16;
        let trigger_mode: u16 = 0b0 << 14u16;
        let r = vector_bits | delivery_mode | trigger_mode;
        assert(r == vector + 0x100) by (bit_vector)
            requires
                vector_bits == (vector as u16) & 0xff,
                delivery_mode == 0b001u16 << 8u16,
                trigger_mode == 0u16 << 14u16,
                r == vector_bits | delivery_mode | trigger_mode,
        ;
        r
    }

    /// Writes the message data for `vector` into the capability's registers
    /// `regs` (its bytes from the capability ID on), at the message data
    /// offset; nothing else changes.
    pub fn write_vn(&self, regs: &mut [u8], vector: u8)
        requires
            old(regs)@.len() >= 0xE,
        ensures
            ({
                let off = if (self.message_control / 64) % 2 == 1 { 0xCint } else { 0x8int };
                &&& final(regs)@ == old(regs)@.update(off, vector).update(off + 1, 1u8)
                &&& le_u16(final(regs)@, off) == vector + 0x100
            }),
    {
        let off = self.message_data_offset();
        let message = MsiCapability::create_msi_message_data(vector);
        write_u16(regs, off, message);
    }

    /// The 64-bit message address with `high_address` as its upper register,
    /// or `None` for a 32-bit capability.  The value is computed as
    /// `high << (32 + low)`, so it is defined only for a low register below 32.
    fn get_64_addres(&self, high_address: u32) -> (r: Option<u64>)
        requires
            self.message_address_low < 32,
        ensures
            (self.message_control / 64) % 2 == 0 ==> r is None,
            (self.message_control / 64) % 2 == 1 ==> r == Some(
                (high_address as u64) << ((32 + self.message_address_low) as u64),
            ),
    {
        if !self.is_64bit() {
            None
        } else {
            let final_address = (high_address as u64) << (32 + (self.message_address_low as u64));
            Some(final_address)
        }
    }
}

} // verus!

verus! {

/// A function found in configuration space.
#[derive(Debug)]
pub struct PciDevice {
    pub bus: u8,
    pub slot: u8,
    pub function: u8,
    pub base: BasicDevice,
    pub header_type: PciHeaderType,
    pub config_address: Option<u64>,
    pub capabilities: Option<PciCapabilities>,
}

impl PciDevice {
    /// A function record holding the given fields.
    pub fn new(
        bus: u8,
        slot: u8,
        function: u8,
        base: BasicDevice,
        header_type: PciHeaderType,
        config_address: Option<u64>,
        capabilities: Option<PciCapabilities>,
    ) -> (r: Self)
        ensures
            r == (PciDevice { bus, slot, function, base, header_type, config_address, capabilities }),
    {
        PciDevice { bus, slot, function, header_type, base, config_address, capabilities }
    }

    /// The device's one-line description: its vendor and device IDs.
    pub fn to_string(&self) -> (s: String)
        ensures
            s@ == device_summary(self.base.vendor_id, self.base.device_id),
    {
        describe_device(self.base.vendor_id, self.base.device_id)
    }

    /// An MSI capability was found.
    pub fn msi_enabled(&self) -> (r: bool)
        ensures
            r == (self.capabilities matches Some(c) && c.msi is Some),
    {
        if let Some(capabilities) = &self.capabilities {
            capabilities.msi.is_some()
        } else {
            false
        }
    }

    /// Bit 10 of the command register.
    pub fn is_enabled(&self) -> (r: bool)
        ensures
            r == ((self.base.command / 0x400) % 2 == 1),
    {
        let command = self.base.command;
        let r = ((command >> 10u16) & 0x1) == 1;
        assert((((command >> 10u16) & 0x1) == 1) == ((command / 0x400) % 2 == 1)) by (bit_vector);
        r
    }

    /// Bit 4 of the status register: the function has a capability list.
    pub fn support_capabilities(&self) -> (r: bool)
        ensures
            r == ((self.base.status / 0x10) % 2 == 1),
    {
        let status = self.base.status;
        let r = ((status >> 4u16) & 0x1) == 1;
        assert((((status >> 4u16) & 0x1) == 1) == ((status / 0x10) % 2 == 1)) by (bit_vector);
        r
    }
}

/// The capability pointer of configuration space `c`, or 0 when its status
/// says it has no capability list.
pub open spec fn cap_pointer_of(c: Seq<u8>) -> u8 {
    if (le_u16(c, 6) / 0x10) % 2 == 1 {
        c[CAPABILITIES_POINTER_OFFSET as int]
    } else {
        0
    }
}

/// The header of configuration space `c`: its header type has the top bit
/// masked off first, so the multi-function flag computed from it is false.
pub open spec fn header_type_of(c: Seq<u8>) -> PciHeaderType {
    let v = (c[14] % 0x80) as u8;
    let multifunc = v / 0x80 != 0;
    if v == 0 {
        PciHeaderType::NORMAL(normal_of(c, multifunc))
    } else if v == 1 {
        PciHeaderType::BRIDGE(bridge_of(c, multifunc))
    } else {
        PciHeaderType::UNKNOWN(v)
    }
}

/// The capabilities of configuration space `c`: none without a capability list, else where MSI is on it.
pub open spec fn capabilities_of(c: Seq<u8>) -> Option<PciCapabilities> {
    let p = cap_pointer_of(c);
    if p != 0 {
        Some(PciCapabilities { msi: msi_on_chain(c, p, MAX_CHAIN as nat, None), ..no_capabilities() })
    } else {
        None
    }
}

/// The function whose configuration space `c` is mapped at `addr`; none
/// when its vendor id reads 0xFFFF.
pub open spec fn device_at(c: Seq<u8>, bus: u8, slot: u8, function: u8, addr: u64) -> Option<PciDevice> {
    if le_u16(c, 0) == 0xFFFF {
        None
    } else {
        Some(
            PciDevice {
                bus,
                slot,
                function,
                base: basic_of(c),
                header_type: header_type_of(c),
                config_address: Some(addr),
                capabilities: capabilities_of(c),
            },
        )
    }
}

/// A configuration space image this library can decode: a whole function's
/// space, whose capability list ends.
pub open spec fn config_decodable(c: Seq<u8>) -> bool {
    &&& c.len() == CONFIG_SPACE_LEN
    &&& cap_pointer_of(c) != 0 ==> chain_ends(c, cap_pointer_of(c), MAX_CHAIN as nat)
}

/// Tells whether `c` is a configuration space image this library can
/// decode (`config_decodable`).
pub fn is_config_decodable(c: &[u8]) -> (b: bool)
    ensures
        b == config_decodable(c@),
{
    if c.len() != CONFIG_SPACE_LEN {
        return false;
    }
    let status = read_u16(c, 6);
    assert(((status & 0x10) != 0) == ((status / 0x10) % 2 == 1)) by (bit_vector);
    if status & 0x10 == 0 {
        return true;
    }
    let first: u8 = c[CAPABILITIES_POINTER_OFFSET];
    let mut off: u8 = first;
    let mut fuel: usize = MAX_CHAIN;
    while off != 0
        invariant
            c@.len() == CONFIG_SPACE_LEN,
            first == cap_pointer_of(c@),
            fuel <= MAX_CHAIN,
            chain_ends(c@, off, fuel as nat) == chain_ends(c@, first, MAX_CHAIN as nat),
        decreases fuel,
    {
        if fuel == 0 {
            return false;
        }
        off = c[off as usize + 1];
        fuel = fuel - 1;
    }
    true
}

/// Decodes the function whose configuration space `c` is mapped at
/// `start_address`.
pub fn parse_pci_device(c: &[u8], start_address: u64, bus: u8, slot: u8, function: u8) -> (r: Option<PciDevice>)
    requires
        config_decodable(c@),
    ensures
        r == device_at(c@, bus, slot, function, start_address),
{
    let basic = BasicDevice::from_config(c);
    if basic.vendor_id == 0xFFFF {
        return None;
    }
    let status = basic.status;
    let cap_pointer = if (status & (1u16 << 4u16)) != 0 {
        c[CAPABILITIES_POINTER_OFFSET]
    } else {
        0
    };
    let header_type_val = basic.header_type & 0x7F;
    let multifunc = (header_type_val >> 7u8) != 0;
    proof {
        assert(((status & (1u16 << 4u16)) != 0) == ((status / 0x10) % 2 == 1)) by (bit_vector);
        let h = basic.header_type;
        assert(h & 0x7F == h % 0x80) by (bit_vector);
        assert(((h & 0x7F) >> 7u8) == (h & 0x7F) / 0x80) by (bit_vector);
    }
    let header_type = if header_type_val == 0x0 {
        PciHeaderType::NORMAL(NormalDevice::parse(c, multifunc))
    } else if header_type_val == 0x1 {
        PciHeaderType::BRIDGE(BridgeDevice::parse(c, multifunc))
    } else {
        PciHeaderType::UNKNOWN(header_type_val)
    };
    let mut capabilities = None;
    if cap_pointer != 0 {
        capabilities = Some(PciCapabilities::parse(c, cap_pointer));
    }
    Some(PciDevice::new(bus, slot, function, basic, header_type, Some(start_address), capabilities))
}

/// The devices found among the first `n` slots of `mech`'s first bus, given
/// the configuration spaces of function 0 of each slot.
pub open spec fn devices_found(configs: Seq<Vec<u8>>, mech: EnhancedPciMechanism, n: nat) -> Seq<PciDevice>
    decreases n,
{
    if n == 0 {
        Seq::empty()
    } else {
        let slot = (n - 1) as u8;
        let earlier = devices_found(configs, mech, (n - 1) as nat);
        let addr = (mech.bacm + bdf_offset(mech.start_pci_host_bridge, slot, 0)) as u64;
        match device_at(configs[n - 1]@, mech.start_pci_host_bridge, slot, 0, addr) {
            Some(d) => earlier.push(d),
            None => earlier,
        }
    }
}

/// Slots per bus.
pub const SLOTS_PER_BUS: usize = 32;

impl EnhancedPciMechanism {
    /// The devices at function 0 of the 32 slots of the first bus, in slot
    /// order; `configs[i]` is the configuration space of slot `i`, read from
    /// `get_bdf_address(bacm, start_pci_host_bridge, i, 0)`.
    pub fn collect_devices(&self, configs: &Vec<Vec<u8>>) -> (r: Vec<PciDevice>)
        requires
            configs@.len() == SLOTS_PER_BUS,
            forall|i: int| 0 <= i < SLOTS_PER_BUS ==> config_decodable(#[trigger] configs@[i]@),
            self.bacm + bdf_offset(self.start_pci_host_bridge, 31, 0) <= u64::MAX,
        ensures
            r@ == devices_found(configs@, *self, SLOTS_PER_BUS as nat),
    {
        let mut collected: Vec<PciDevice> = Vec::new();
        let mut i: usize = 0;
        while i < SLOTS_PER_BUS
            invariant
                i <= SLOTS_PER_BUS,
                configs@.len() == SLOTS_PER_BUS,
                forall|k: int| 0 <= k < SLOTS_PER_BUS ==> config_decodable(#[trigger] configs@[k]@),
                self.bacm + bdf_offset(self.start_pci_host_bridge, 31, 0) <= u64::MAX,
                collected@ == devices_found(configs@, *self, i as nat),
            decreases SLOTS_PER_BUS - i,
        {
            proof {
                assert(bdf_offset(self.start_pci_host_bridge, i as u8, 0) <= bdf_offset(self.start_pci_host_bridge, 31, 0));
            }
            let start_address = get_bdf_address(self.bacm, self.start_pci_host_bridge, i as u8, 0);
            let pci = parse_pci_device(configs[i].as_slice(), start_address, self.start_pci_host_bridge, i as u8, 0u8);
            if pci.is_some() {
                let pci = pci.unwrap();
                collected.push(pci);
            }
            i = i + 1;
        }
        collected
    }
}

} // verus!
