//! ACPI system description tables.
pub mod header;
pub mod madt;
pub mod mcfg;
pub mod rsdp;
pub mod tables;
pub mod xsdt;
