//! The record of a PCI function's configuration header, as the port-based
//! configuration mechanism reads it.
use vstd::prelude::*;
use crate::text::{describe_device, device_summary};

verus! {

/// The fixed fields of a PCI function's configuration header and where the
/// function sits on the bus.
#[derive(Clone, Copy, Debug, PartialEq, Eq, Structural)]
pub struct PciDevice {
    pub vendor_id: u16,
    pub device_id: u16,
    pub status: u16,
    pub command: u16,
    pub class: u8,
    pub sub_class: u8,
    pub bus: u8,
    pub slot: u8,
    pub function: u8,
    pub revision: u8,
    pub prog_if: u8,
    pub bist: u8,
    pub header_type: u8,
    pub timer: u8,
    pub cache_line_size: u8,
}

impl PciDevice {
    /// A record holding the given fields.
    pub fn new(
        vendor_id: u16,
        device_id: u16,
        status: u16,
        command: u16,
        class: u8,
        sub_class: u8,
        bus: u8,
        slot: u8,
        function: u8,
        revision: u8,
        prog_if: u8,
        bist: u8,
        header_type: u8,
        timer: u8,
        cache_line_size: u8,
    ) -> (d: Self)
        ensures
            d == (PciDevice {
                vendor_id,
                device_id,
                status,
                command,
                class,
                sub_class,
                bus,
                slot,
                function,
                revision,
                prog_if,
                bist,
                header_type,
                timer,
                cache_line_size,
            }),
    {
        PciDevice {
            vendor_id,
            device_id,
            status,
            command,
            class,
            sub_class,
            bus,
            slot,
            function,
            revision,
            prog_if,
            bist,
            header_type,
            timer,
            cache_line_size,
        }
    }

    /// The record's one-line description: its vendor and device IDs.
    pub fn summary(&self) -> (s: String)
        ensures
            s@ == device_summary(self.vendor_id, self.device_id),
    {
        describe_device(self.vendor_id, self.device_id)
    }
}

} // verus!
