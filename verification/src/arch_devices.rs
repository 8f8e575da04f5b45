//! The architecture's entry points for probing PCI functions; on x86_64 they
//! go through the legacy configuration ports.
use vstd::prelude::*;
use crate::legacy_pci::{self, LegacyDevice, describes, reg_byte, HEADER_REGISTERS};

verus! {

/// A function answers: its vendor and device register is not all ones.
pub fn is_device_exist(id_register: u32) -> (b: bool)
    ensures
        b == (id_register != 0xFFFF_FFFF),
{
    legacy_pci::is_device_exist(id_register)
}

/// Decodes the function whose first sixteen registers are `regs`; `None`
/// for header type 2.
pub fn init_configuration(regs: &[u32], bus: u8, slot: u8, func: u8) -> (r: Option<LegacyDevice>)
    requires
        regs@.len() >= HEADER_REGISTERS,
    ensures
        r is None <==> reg_byte(regs@[3], 2) == 2,
        r is Some ==> describes(r->0, regs@, bus, slot, func),
{
    legacy_pci::init_configuration(regs, bus, slot, func)
}

/// Bit 7 of the given register, the multi-function test of the legacy
/// scan.
pub fn is_milti_func(id_register: u32) -> (b: bool)
    ensures
        b == (id_register % 256 >= 128),
{
    legacy_pci::is_multi_func(id_register)
}

} // verus!
