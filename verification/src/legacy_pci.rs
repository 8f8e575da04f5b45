//! Decoding PCI functions read through the legacy configuration ports
//! `0xCF8`/`0xCFC`.
//!
//! A function's header is handed in as its first sixteen 32-bit registers:
//! `regs[k]` is the register at byte offset `4 * k`.
use vstd::prelude::*;
use crate::pci_config::PciDevice;

verus! {

/// The data port of the legacy configuration mechanism.
pub const PCI_CONFIG_DATA: u16 = 0xCFC;

/// The address port of the legacy configuration mechanism.
pub const PCI_CONFIG_ADDRESS: u16 = 0xCF8;

/// Registers of a type 0 header that are read: sixteen, up to offset `0x3C`.
pub const HEADER_REGISTERS: usize = 16;

/// The value written to the address port to read the register at `offset`
/// of function `func` of device `slot` on `bus`: the enable bit, then the
/// bus, device (five bits), function (three bits) and the offset rounded
/// down to a register.
pub open spec fn config_address_of(bus: u8, slot: u8, func: u8, offset: u8) -> int {
    0x8000_0000 + bus * 0x1_0000 + (slot % 32) * 0x800 + (func % 8) * 0x100 + (offset / 4) * 4
}

/// The address-port value that selects register `offset` of a function.
pub fn config_address(bus: u8, slot: u8, func: u8, offset: u8) -> (a: u32)
    ensures
        a == config_address_of(bus, slot, func, offset),
{
    let b = bus as u32;
    let s = slot as u32;
    let f = func as u32;
    let o = offset as u32;
    let a = ((b & 0xFF) << 16) | ((s & 0x1F) << 11) | ((f & 0x07) << 8) | (o & 0xFC) | 0x8000_0000;
    assert(a == 0x8000_0000 + b * 0x1_0000 + (s % 32) * 0x800 + (f % 8) * 0x100 + (o / 4) * 4)
        by (bit_vector)
        requires
            b < 256,
            s < 256,
            f < 256,
            o < 256,
            a == ((b & 0xFF) << 16) | ((s & 0x1F) << 11) | ((f & 0x07) << 8) | (o & 0xFC)
                | 0x8000_0000,
    ;
    a
}

/// A function answers at this address: its vendor and device register does
/// not read as all ones.
pub fn is_device_exist(id_register: u32) -> (b: bool)
    ensures
        b == (id_register != 0xFFFF_FFFF),
{
    id_register != 0xFFFF_FFFF
}

/// Tests bit 7 of the given register, the bit that marks a multi-function
/// device in the header-type byte. The scan hands it the register at offset
/// 0 of function 0 (vendor and device id), so it tests bit 7 of the vendor
/// id.
pub fn is_multi_func(id_register: u32) -> (b: bool)
    ensures
        b == (id_register % 256 >= 128),
{
    let b = (id_register & 0x80) != 0;
    assert(((id_register & 0x80) != 0) == (id_register % 256 >= 128)) by (bit_vector);
    b
}

/// A base address register as decoded by the legacy scan.
#[derive(Clone, Copy, Debug, PartialEq, Eq, Structural)]
pub struct LegacyBar {
    pub address: u64,
    pub is_port: bool,
}

/// The header-specific part of a legacy function: the six base address
/// registers of a type 0 header, or nothing for other header types.
#[derive(Debug)]
pub enum LegacyHeader {
    Normal(Vec<LegacyBar>),
    Unknown,
}

impl LegacyHeader {
    /// The decoded base address registers, if the header has them.
    pub open spec fn bars(&self) -> Option<Seq<LegacyBar>> {
        match self {
            LegacyHeader::Normal(v) => Some(v@),
            LegacyHeader::Unknown => None,
        }
    }
}

/// A PCI function found by the legacy scan.
#[derive(Debug)]
pub struct LegacyDevice {
    pub config: PciDevice,
    pub header: LegacyHeader,
}

/// Byte `k` of a register, counted from the least significant.
pub open spec fn reg_byte(r: u32, k: nat) -> u8 {
    ((r as int / vstd::arithmetic::power::pow(256, k)) % 256) as u8
}

/// The fixed header fields of a function whose first registers are `regs`.
pub open spec fn config_of(regs: Seq<u32>, bus: u8, slot: u8, func: u8) -> PciDevice {
    PciDevice {
        vendor_id: (regs[0] % 0x1_0000) as u16,
        device_id: (regs[0] / 0x1_0000) as u16,
        status: (regs[1] / 0x1_0000) as u16,
        command: (regs[1] % 0x1_0000) as u16,
        class: reg_byte(regs[2], 3),
        sub_class: reg_byte(regs[2], 2),
        bus,
        slot,
        function: func,
        revision: reg_byte(regs[2], 0),
        prog_if: reg_byte(regs[2], 1),
        bist: reg_byte(regs[3], 3),
        header_type: reg_byte(regs[3], 2),
        timer: reg_byte(regs[3], 1),
        cache_line_size: reg_byte(regs[3], 0),
    }
}

/// The base address register at byte offset `off`, and whether it is the
/// low half of a 64-bit memory address. A memory register gives its value
/// with the low three bits cleared, plus the next register shifted up by 32
/// when it is 64 bits wide; an I/O register gives its value with the low
/// three bits cleared.
pub open spec fn bar_at(regs: Seq<u32>, off: int) -> (LegacyBar, bool) {
    let bar = regs[off / 4];
    let base = bar - bar % 8;
    if bar % 2 == 0 {
        if bar % 8 == 4 {
            (LegacyBar { address: (regs[off / 4 + 1] * 0x1_0000_0000 + base) as u64, is_port: false }, true)
        } else {
            (LegacyBar { address: base as u64, is_port: false }, false)
        }
    } else {
        (LegacyBar { address: base as u64, is_port: true }, false)
    }
}

/// `count` base address registers from offset `off` on; a 64-bit register
/// also takes the register after it.
pub open spec fn bars_from(regs: Seq<u32>, off: int, count: nat) -> Seq<LegacyBar>
    decreases count,
{
    if count == 0 {
        Seq::empty()
    } else {
        let (b, long) = bar_at(regs, off);
        seq![b] + bars_from(regs, off + 4 + if long { 4int } else { 0int }, (count - 1) as nat)
    }
}

/// The base address registers of a type 0 header, none for other types.
pub open spec fn header_bars_of(regs: Seq<u32>) -> Option<Seq<LegacyBar>> {
    if reg_byte(regs[3], 2) == 0 {
        Some(bars_from(regs, 0x10, 6))
    } else {
        None
    }
}

/// `d` is the function described by the registers `regs` at that address.
pub open spec fn describes(d: LegacyDevice, regs: Seq<u32>, bus: u8, slot: u8, func: u8) -> bool {
    &&& d.config == config_of(regs, bus, slot, func)
    &&& d.header.bars() == header_bars_of(regs)
}

/// Decodes the base address register at byte offset `offset`.
fn bar_init(regs: &[u32], offset: usize) -> (r: (LegacyBar, bool))
    requires
        regs@.len() >= HEADER_REGISTERS,
        offset % 4 == 0,
        offset + 8 <= 4 * HEADER_REGISTERS,
    ensures
        r == bar_at(regs@, offset as int),
{
    let bar: u32 = regs[offset / 4];
    let base: u32 = bar & 0xFFFF_FFF8;
    assert(bar & 0xFFFF_FFF8 == bar - bar % 8) by (bit_vector);
    assert(((bar & 0x1) == 0) == (bar % 2 == 0)) by (bit_vector);
    assert(((bar & 0x7) == 4) == (bar % 8 == 4)) by (bit_vector);
    if (bar & 0x1) == 0 {
        let is_long = (bar & 0x7) == 0b100;
        if is_long {
            let high: u32 = regs[offset / 4 + 1];
            let low: u64 = base as u64 & 0xFFFF_FFFC;
            let address: u64 = ((high as u64) << 32) | low;
            assert(low == base) by (bit_vector)
                requires
                    low == (base as u64) & 0xFFFF_FFFC,
                    base == bar & 0xFFFF_FFF8,
            ;
            assert(address == high as u64 * 0x1_0000_0000 + base as u64) by (bit_vector)
                requires
                    address == ((high as u64) << 32) | low,
                    low == base as u64,
            ;
            (LegacyBar { address, is_port: false }, true)
        } else {
            (LegacyBar { address: base as u64, is_port: false }, false)
        }
    } else {
        (LegacyBar { address: base as u64, is_port: true }, false)
    }
}

/// Splits a register into its bytes, least significant first.
fn register_bytes(r: u32) -> (b: (u8, u8, u8, u8))
    ensures
        b.0 == reg_byte(r, 0),
        b.1 == reg_byte(r, 1),
        b.2 == reg_byte(r, 2),
        b.3 == reg_byte(r, 3),
{
    let b0 = (r & 0xFF) as u8;
    let b1 = ((r >> 8) & 0xFF) as u8;
    let b2 = ((r >> 16) & 0xFF) as u8;
    let b3 = (r >> 24) as u8;
    proof {
        vstd::arithmetic::power::lemma_pow0(256);
        vstd::arithmetic::power::lemma_pow1(256);
        assert(vstd::arithmetic::power::pow(256, 2) == 0x1_0000) by {
            vstd::arithmetic::power::lemma_pow_adds(256, 1, 1);
        }
        assert(vstd::arithmetic::power::pow(256, 3) == 0x100_0000) by {
            vstd::arithmetic::power::lemma_pow_adds(256, 2, 1);
        }
        assert(r & 0xFF == r % 256) by (bit_vector);
        assert((r >> 8) & 0xFF == (r / 0x100) % 256) by (bit_vector);
        assert((r >> 16) & 0xFF == (r / 0x1_0000) % 256) by (bit_vector);
        assert(r >> 24 == (r / 0x100_0000) % 256) by (bit_vector);
    }
    (b0, b1, b2, b3)
}

/// Decodes the function whose first sixteen registers are `regs`, found at
/// `bus`, `slot` and `func`. A function with header type 2 (a CardBus
/// bridge) is not supported and gives `None`; a type 0 header also has its
/// six base address registers decoded.
pub fn init_configuration(regs: &[u32], bus: u8, slot: u8, func: u8) -> (r: Option<LegacyDevice>)
    requires
        regs@.len() >= HEADER_REGISTERS,
    ensures
        r is None <==> reg_byte(regs@[3], 2) == 2,
        r is Some ==> describes(r->0, regs@, bus, slot, func),
{
    let ids = regs[0];
    let device_id: u16 = (ids >> 16) as u16;
    let vendor_id: u16 = (ids & 0xFFFF) as u16;
    assert(ids >> 16 == ids / 0x1_0000) by (bit_vector);
    assert(ids & 0xFFFF == ids % 0x1_0000) by (bit_vector);
    let register_1 = regs[1];
    let status: u16 = (register_1 >> 16) as u16;
    let command: u16 = (register_1 & 0xFFFF) as u16;
    assert(register_1 >> 16 == register_1 / 0x1_0000) by (bit_vector);
    assert(register_1 & 0xFFFF == register_1 % 0x1_0000) by (bit_vector);
    let (revision, prog_if, sub, class) = register_bytes(regs[2]);
    let (cache_line_size, timer, header_type, bist) = register_bytes(regs[3]);
    if header_type == 2 {
        return None;
    }
    let header = if header_type == 0 {
        let mut bars: Vec<LegacyBar> = Vec::new();
        let mut start_offset: usize = 0x10;
        let mut i: usize = 0;
        while i < 6
            invariant
                regs@.len() >= HEADER_REGISTERS,
                i <= 6,
                start_offset % 4 == 0,
                0x10 <= start_offset <= 0x10 + 4 * i,
                bars@ + bars_from(regs@, start_offset + 4 * i, (6 - i) as nat) == bars_from(
                    regs@,
                    0x10,
                    6,
                ),
            decreases 6 - i,
        {
            let offset = start_offset + 4 * i;
            let (bar, is_long) = bar_init(regs, offset);
            proof {
                assert(bars_from(regs@, offset as int, (6 - i) as nat) == seq![bar] + bars_from(
                    regs@,
                    offset + 4 + if is_long { 4int } else { 0int },
                    (6 - i - 1) as nat,
                ));
                assert(bars@.push(bar) + bars_from(
                    regs@,
                    offset + 4 + if is_long { 4int } else { 0int },
                    (6 - i - 1) as nat,
                ) == bars@ + (seq![bar] + bars_from(
                    regs@,
                    offset + 4 + if is_long { 4int } else { 0int },
                    (6 - i - 1) as nat,
                )));
            }
            if is_long {
                start_offset = start_offset + 4;
            }
            bars.push(bar);
            i = i + 1;
        }
        proof {
            assert(bars_from(regs@, start_offset + 24, 0) == Seq::<LegacyBar>::empty());
            assert(bars@ + Seq::<LegacyBar>::empty() == bars@);
        }
        LegacyHeader::Normal(bars)
    } else {
        LegacyHeader::Unknown
    };
    let config = PciDevice::new(
        vendor_id,
        device_id,
        status,
        command,
        class,
        sub,
        bus,
        slot,
        func,
        revision,
        prog_if,
        bist,
        header_type,
        timer,
        cache_line_size,
    );
    Some(LegacyDevice { config, header })
}

/// Buses the legacy scan visits: `0` to `LAST_SCANNED_BUS`.
pub const LAST_SCANNED_BUS: usize = 10;

/// Device slots per bus.
pub const SLOTS: usize = 32;

/// Functions per device.
pub const FUNCTIONS: usize = 8;

/// Functions probed on a multi-function device: `0` to `6`.
pub const PROBED_FUNCTIONS: usize = 7;

/// Number of header images a scan is handed: one per function of every
/// slot of the scanned buses.
pub const SCANNED_HEADERS: usize = 2816;

/// Where the header of function `func` of slot `s` (counted over all
/// scanned buses, `bus * 32 + slot`) sits among the scanned headers.
pub open spec fn header_index(s: int, func: int) -> int {
    s * 8 + func
}

/// The functions of slot `s` that the scan keeps, each as its header index
/// and function number, probing functions `0` to `n - 1` of a
/// multi-function device.
pub open spec fn kept_functions(space: Seq<Vec<u32>>, s: int, n: nat) -> Seq<(int, u8)>
    decreases n,
{
    if n == 0 {
        Seq::empty()
    } else {
        let f = n - 1;
        let regs = space[header_index(s, f)]@;
        let prev = kept_functions(space, s, (n - 1) as nat);
        if regs[0] != 0xFFFF_FFFF && reg_byte(regs[3], 2) != 2 {
            prev.push((header_index(s, f), f as u8))
        } else {
            prev
        }
    }
}

/// The functions of slot `s` that the scan keeps: none when function 0
/// does not answer, function 0 alone unless bit 7 of its first register is
/// set, and otherwise each of functions 0 to 6 that answers. Functions
/// with header type 2 are left out.
pub open spec fn slot_functions(space: Seq<Vec<u32>>, s: int) -> Seq<(int, u8)> {
    let r0 = space[header_index(s, 0)]@[0];
    if r0 == 0xFFFF_FFFF {
        Seq::empty()
    } else if r0 % 256 < 128 {
        if reg_byte(space[header_index(s, 0)]@[3], 2) != 2 {
            seq![(header_index(s, 0), 0u8)]
        } else {
            Seq::empty()
        }
    } else {
        kept_functions(space, s, PROBED_FUNCTIONS as nat)
    }
}

/// The functions found in the first `n` slots, in scan order.
pub open spec fn scanned(space: Seq<Vec<u32>>, n: nat) -> Seq<(int, u8)>
    decreases n,
{
    if n == 0 {
        Seq::empty()
    } else {
        scanned(space, (n - 1) as nat) + slot_functions(space, n - 1)
    }
}

/// Every header image in `space` has the registers a decode reads.
pub open spec fn headers_complete(space: Seq<Vec<u32>>) -> bool {
    &&& space.len() == SCANNED_HEADERS
    &&& forall|k: int| 0 <= k < space.len() ==> #[trigger] space[k]@.len() >= HEADER_REGISTERS
}

/// The devices in `found` are those listed in `targets`, in order, each
/// decoded from its header image.
pub open spec fn found_devices(found: Seq<LegacyDevice>, space: Seq<Vec<u32>>, targets: Seq<(int, u8)>) -> bool {
    &&& found.len() == targets.len()
    &&& forall|k: int|
        #![trigger found[k]]
        0 <= k < found.len() ==> {
            let idx = targets[k].0;
            let s = idx / 8;
            describes(found[k], space[idx]@, (s / 32) as u8, (s % 32) as u8, targets[k].1)
        }
}

/// Decodes the function at header index `idx` and appends it to `devices`
/// unless its header type is 2.
fn push_function(devices: &mut Vec<LegacyDevice>, space: &Vec<Vec<u32>>, s: usize, func: usize)
    requires
        headers_complete(space@),
        s < SLOTS * (LAST_SCANNED_BUS + 1),
        func < FUNCTIONS,
    ensures
        reg_byte(space@[header_index(s as int, func as int)]@[3], 2) == 2 ==> final(devices)@ == old(
            devices,
        )@,
        reg_byte(space@[header_index(s as int, func as int)]@[3], 2) != 2 ==> {
            &&& final(devices)@.len() == old(devices)@.len() + 1
            &&& final(devices)@.drop_last() == old(devices)@
            &&& describes(
                final(devices)@.last(),
                space@[header_index(s as int, func as int)]@,
                (s / 32) as u8,
                (s % 32) as u8,
                func as u8,
            )
        },
{
    let idx = s * 8 + func;
    let bus = (s / 32) as u8;
    let slot = (s % 32) as u8;
    assert(space@[idx as int]@.len() >= HEADER_REGISTERS);
    match init_configuration(space[idx].as_slice(), bus, slot, func as u8) {
        Some(d) => {
            devices.push(d);
            proof {
                assert(devices@.drop_last() == old(devices)@);
            }
        },
        None => {},
    }
}

/// Scans buses 0 to 10 for functions, given the header image of every
/// function there: `space[(bus * 32 + slot) * 8 + func]` holds the first
/// sixteen registers of that function (all ones where nothing answers).
pub fn scan_pci(space: &Vec<Vec<u32>>) -> (devices: Vec<LegacyDevice>)
    requires
        headers_complete(space@),
    ensures
        found_devices(devices@, space@, scanned(space@, (SLOTS * (LAST_SCANNED_BUS + 1)) as nat)),
{
    let mut devices: Vec<LegacyDevice> = Vec::new();
    let mut s: usize = 0;
    while s < SLOTS * (LAST_SCANNED_BUS + 1)
        invariant
            headers_complete(space@),
            s <= SLOTS * (LAST_SCANNED_BUS + 1),
            found_devices(devices@, space@, scanned(space@, s as nat)),
        decreases SLOTS * (LAST_SCANNED_BUS + 1) - s,
    {
        let ghost before = devices@;
        let ghost prefix = scanned(space@, s as nat);
        let r0: u32 = space[s * 8][0];
        assert(space@[header_index(s as int, 0)]@.len() >= HEADER_REGISTERS);
        if !is_device_exist(r0) {
            proof {
                assert(scanned(space@, (s + 1) as nat) == prefix + Seq::<(int, u8)>::empty());
                assert(prefix + Seq::<(int, u8)>::empty() == prefix);
            }
        } else if !is_multi_func(r0) {
            push_function(&mut devices, space, s, 0);
            proof {
                let t = scanned(space@, (s + 1) as nat);
                if reg_byte(space@[header_index(s as int, 0)]@[3], 2) != 2 {
                    assert(t == prefix.push((header_index(s as int, 0), 0u8)));
                    assert forall|k: int| #![trigger devices@[k]] 0 <= k < devices@.len() implies {
                        let idx = t[k].0;
                        let sl = idx / 8;
                        describes(devices@[k], space@[idx]@, (sl / 32) as u8, (sl % 32) as u8, t[k].1)
                    } by {
                        if k < before.len() {
                            assert(devices@[k] == before[k]);
                            assert(t[k] == prefix[k]);
                        }
                    }
                } else {
                    assert(t == prefix + Seq::<(int, u8)>::empty());
                    assert(prefix + Seq::<(int, u8)>::empty() == prefix);
                }
            }
        } else {
            let mut func: usize = 0;
            while func < PROBED_FUNCTIONS
                invariant
                    headers_complete(space@),
                    s < SLOTS * (LAST_SCANNED_BUS + 1),
                    func <= PROBED_FUNCTIONS,
                    prefix == scanned(space@, s as nat),
                    found_devices(devices@, space@, prefix + kept_functions(space@, s as int, func as nat)),
                decreases PROBED_FUNCTIONS - func,
            {
                let ghost mid = devices@;
                let ghost sofar = prefix + kept_functions(space@, s as int, func as nat);
                let idx = s * 8 + func;
                assert(space@[idx as int]@.len() >= HEADER_REGISTERS);
                if is_device_exist(space[idx][0]) {
                    push_function(&mut devices, space, s, func);
                    proof {
                        let t = prefix + kept_functions(space@, s as int, (func + 1) as nat);
                        if reg_byte(space@[header_index(s as int, func as int)]@[3], 2) != 2 {
                            assert(t == sofar.push((header_index(s as int, func as int), func as u8)));
                            assert forall|k: int| #![trigger devices@[k]] 0 <= k < devices@.len() implies {
                                let idx = t[k].0;
                                let sl = idx / 8;
                                describes(devices@[k], space@[idx]@, (sl / 32) as u8, (sl % 32) as u8, t[k].1)
                            } by {
                                if k < mid.len() {
                                    assert(devices@[k] == mid[k]);
                                    assert(t[k] == sofar[k]);
                                }
                            }
                        } else {
                            assert(t == sofar);
                        }
                    }
                } else {
                    proof {
                        assert(prefix + kept_functions(space@, s as int, (func + 1) as nat) == sofar);
                    }
                }
                func = func + 1;
            }
            proof {
                assert(scanned(space@, (s + 1) as nat) == prefix + kept_functions(
                    space@,
                    s as int,
                    PROBED_FUNCTIONS as nat,
                ));
            }
        }
        s = s + 1;
    }
    devices
}

} // verus!
