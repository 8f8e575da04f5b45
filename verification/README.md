# tiny_kernel

The core of a small x86_64 kernel, written in Verus: its allocators, log
queue, firmware table and PCI decoding, framebuffer drawing and interrupt
vector pool, each with a contract proved by the verifier.

- `src/` is the verified library. Memory: `bump` (early kernel allocator),
  `buddy` and `buddy_tree` (physical page allocator), `page_allocator`,
  `slab` (object caches), `boot_memory` (memory map hand-over), `mmio`
  (device memory mappings), `frame_allocator`. Logging: `ring_buffer`,
  `logging`. Firmware and buses: `acpi`, `pci`, `legacy_pci`, `pci_config`,
  `arch_devices`. Screen: `framebuffer`, `display`. Interrupts:
  `interrupts`. Addresses: `addresses`, `x86_addresses`.
- `app/` is the kernel around it: the boot protocol, port and memory-mapped
  I/O, descriptor tables, interrupt entry stubs and the global state. It
  hands the library plain values (register images, table bytes, memory map
  entries) and performs the register writes the library computes.
- `tests/` run the library on concrete inputs.
