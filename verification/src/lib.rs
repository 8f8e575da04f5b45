//! Verified core logic of a small x86_64 kernel: memory allocators, the log
//! ring buffer, ACPI and PCI structure decoding, framebuffer arithmetic and
//! the interrupt vector pool.
use vstd::prelude::*;

pub mod acpi;
pub mod addresses;
pub mod arch_devices;
pub mod bios_info;
pub mod boot_memory;
pub mod buddy;
pub mod buddy_tree;
pub mod bump;
pub mod display;
pub mod frame_allocator;
pub mod framebuffer;
pub mod interrupts;
pub mod keyboard;
pub mod math;
pub mod mmio;
pub mod le_bytes;
pub mod legacy_pci;
pub mod logging;
pub mod page_allocator;
pub mod pci;
pub mod pci_config;
pub mod ring_buffer;
pub mod slab;
pub mod text;
pub mod uart;
pub mod x86_addresses;
