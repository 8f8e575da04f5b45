use tiny_kernel::arch_devices;
use tiny_kernel::display::DisplayWriter;
use tiny_kernel::uart::{initialization_finish, initialization_writes, PortWrite};
use tiny_kernel::framebuffer::{Color, Framebuffer, PixelFormat};
use tiny_kernel::interrupts::{ApicDriver, InterruptVectorAllocator, RegisterWrite, TimerOptions, VECTOR_BASE, VECTOR_POOL_SIZE};
use tiny_kernel::legacy_pci::{config_address, init_configuration, is_device_exist, is_multi_func, scan_pci, LegacyBar, LegacyHeader};
use tiny_kernel::pci::{get_bdf_address, is_config_decodable, parse_pci_device, Bar, BasicDevice, EnhancedPciMechanism, MsiCapability, PciCapabilities, PciHeaderType};
use tiny_kernel::pci_config::PciDevice as ConfigRecord;

fn put16(c: &mut [u8], at: usize, v: u16) {
    c[at..at + 2].copy_from_slice(&v.to_le_bytes());
}

fn put32(c: &mut [u8], at: usize, v: u32) {
    c[at..at + 4].copy_from_slice(&v.to_le_bytes());
}

fn network_card_config() -> Vec<u8> {
    let mut c = vec![0u8; 4096];
    put16(&mut c, 0, 0x8086);
    put16(&mut c, 2, 0x100E);
    put16(&mut c, 4, 0x0407);
    put16(&mut c, 6, 0x0010);
    c[8] = 2;
    c[11] = 2;
    c[12] = 0x10;
    c[14] = 0x80;
    put32(&mut c, 0x10, 0xFEBC_0000);
    put32(&mut c, 0x14, 0xC001);
    put32(&mut c, 0x18, 0xE000_000C);
    put32(&mut c, 0x1C, 0x1);
    put16(&mut c, 0x2C, 0x8086);
    put16(&mut c, 0x2E, 0x0001);
    c[0x34] = 0x40;
    c[0x40] = 0x01;
    c[0x41] = 0x50;
    c[0x50] = 0x05;
    c[0x51] = 0x00;
    c
}

#[test]
fn bdf_address_packs_bus_device_function() {
    assert_eq!(get_bdf_address(0xE000_0000, 1, 2, 3), 0xE011_3000);
    assert_eq!(get_bdf_address(0, 0, 0x3F, 0xF), 0xF_F000);
}

#[test]
fn basic_header_fields() {
    let c = network_card_config();
    let b = BasicDevice::from_config(&c);
    assert_eq!(b.vendor_id, 0x8086);
    assert_eq!(b.device_id, 0x100E);
    assert_eq!(b.command, 0x0407);
    assert_eq!(b.class, 2);
    assert_eq!(b.header_type, 0x80);
}

#[test]
fn parse_pci_device_decodes_bars_and_msi() {
    let c = network_card_config();
    let d = parse_pci_device(&c, 0xE001_8000, 0, 3, 0).unwrap();
    assert_eq!(d.slot, 3);
    assert_eq!(d.config_address, Some(0xE001_8000));
    assert!(d.is_enabled());
    assert!(d.support_capabilities());
    assert!(d.msi_enabled());
    assert_eq!(d.capabilities.as_ref().unwrap().msi, Some(0x50));
    match &d.header_type {
        PciHeaderType::NORMAL(n) => {
            assert!(!n.multifunc);
            assert!(matches!(n.bars[0], Bar::Memory32(0xFEBC_0000)));
            assert!(matches!(n.bars[1], Bar::Io(0xC000)));
            assert!(matches!(n.bars[2], Bar::Memory64(0x1_E000_0000)));
            assert!(matches!(n.bars[3], Bar::Memory32(0)));
            assert!(!n.bars[3].is_usable());
            assert!(n.bars[2].is_usable());
            assert_eq!(n.sub_system_vendor_id, 0x8086);
        },
        _ => panic!("expected a type 0 header"),
    }
}

#[test]
fn parse_pci_device_absent_function() {
    let mut c = vec![0u8; 4096];
    put16(&mut c, 0, 0xFFFF);
    assert!(parse_pci_device(&c, 0, 0, 0, 0).is_none());
}

#[test]
fn capabilities_and_msi_helpers() {
    let c = network_card_config();
    let caps = PciCapabilities::parse(&c, 0x40);
    assert_eq!(caps.msi, Some(0x50));
    assert_eq!(caps.power_management, None);
    assert!(PciCapabilities::empty().msi.is_none());
    let msi = MsiCapability { cap_id: 5, next_ptr: 0, message_control: 0x0040, message_address_low: 0 };
    assert!(msi.is_64bit());
    assert_eq!(msi.message_data_offset(), 0xC);
    let msi32 = MsiCapability { cap_id: 5, next_ptr: 0, message_control: 0, message_address_low: 0 };
    assert!(!msi32.is_64bit());
    assert_eq!(msi32.message_data_offset(), 0x8);
    assert_eq!(MsiCapability::create_msi_message_data(0x41), 0x141);
}

#[test]
fn write_vn_stores_message_data_at_the_right_register() {
    let msi = MsiCapability { cap_id: 5, next_ptr: 0, message_control: 0x0040, message_address_low: 0 };
    let mut regs = [0xAAu8; 16];
    msi.write_vn(&mut regs, 0x41);
    assert_eq!(&regs[0xC..0xE], &[0x41, 0x01]);
    assert_eq!(&regs[0x8..0xA], &[0xAA, 0xAA]);
    let msi32 = MsiCapability { cap_id: 5, next_ptr: 0, message_control: 0, message_address_low: 0 };
    let mut regs32 = [0u8; 14];
    msi32.write_vn(&mut regs32, 0x30);
    assert_eq!(&regs32[0x8..0xA], &[0x30, 0x01]);
    assert_eq!(&regs32[0xC..0xE], &[0, 0]);
}

#[test]
fn collect_devices_finds_present_slots() {
    let mech = EnhancedPciMechanism::new(0xE000_0000, 0, 2, 5, 0);
    let mut configs = Vec::new();
    for slot in 0..32 {
        if slot == 4 {
            configs.push(network_card_config());
        } else {
            let mut c = vec![0u8; 4096];
            put16(&mut c, 0, 0xFFFF);
            configs.push(c);
        }
    }
    let found = mech.collect_devices(&configs);
    assert_eq!(found.len(), 1);
    assert_eq!(found[0].bus, 2);
    assert_eq!(found[0].slot, 4);
    assert_eq!(found[0].config_address, Some(0xE020_0000 + 4 * 0x8000));
}

#[test]
fn legacy_config_address_layout() {
    assert_eq!(config_address(1, 2, 3, 0x10), 0x8001_1310);
    assert_eq!(config_address(0, 0x21, 0x9, 0x13), 0x8000_0910);
}

#[test]
fn legacy_presence_and_multifunction_bits() {
    assert!(!is_device_exist(0xFFFF_FFFF));
    assert!(is_device_exist(0x100E_8086));
    assert!(is_multi_func(0x100E_8086));
    assert!(!is_multi_func(0x100E_1022));
    assert!(arch_devices::is_device_exist(0));
    assert!(!arch_devices::is_milti_func(0x7F));
}

fn legacy_regs() -> Vec<u32> {
    let mut r = vec![0u32; 16];
    r[0] = 0x100E_8086;
    r[1] = 0x0010_0407;
    r[2] = 0x0200_0002;
    r[3] = 0x0000_0010;
    r[4] = 0xFEBC_0000;
    r[5] = 0xC001;
    r[6] = 0xE000_000C;
    r[7] = 0x1;
    r
}

#[test]
fn legacy_init_configuration_decodes_header_and_bars() {
    let d = init_configuration(&legacy_regs(), 0, 5, 1).unwrap();
    assert_eq!(
        d.config,
        ConfigRecord::new(0x8086, 0x100E, 0x0010, 0x0407, 2, 0, 0, 5, 1, 2, 0, 0, 0, 0, 0x10)
    );
    match d.header {
        LegacyHeader::Normal(bars) => {
            assert_eq!(
                bars,
                vec![
                    LegacyBar { address: 0xFEBC_0000, is_port: false },
                    LegacyBar { address: 0xC000, is_port: true },
                    LegacyBar { address: 0x1_E000_0008, is_port: false },
                    LegacyBar { address: 0, is_port: false },
                    LegacyBar { address: 0, is_port: false },
                    LegacyBar { address: 0, is_port: false },
                ]
            );
        },
        LegacyHeader::Unknown => panic!("expected bars"),
    }
}

#[test]
fn legacy_other_header_types() {
    let mut r = legacy_regs();
    r[3] = 0x0002_0000;
    assert!(init_configuration(&r, 0, 0, 0).is_none());
    assert!(arch_devices::init_configuration(&r, 0, 0, 0).is_none());
    r[3] = 0x0001_0000;
    let d = init_configuration(&r, 0, 0, 0).unwrap();
    assert!(matches!(d.header, LegacyHeader::Unknown));
    assert_eq!(d.config.header_type, 1);
}

#[test]
fn legacy_scan_visits_functions_in_order() {
    let mut space = vec![vec![0xFFFF_FFFFu32; 16]; 2816];
    let mut single = legacy_regs();
    single[0] = 0x2000_1022;
    space[8] = single;
    let mut multi = legacy_regs();
    multi[0] = 0x1234_1086;
    space[32 * 8] = multi.clone();
    space[32 * 8 + 2] = multi.clone();
    space[32 * 8 + 7] = multi.clone();
    let mut cardbus = multi.clone();
    cardbus[3] = 0x0002_0000;
    space[32 * 8 + 3] = cardbus;
    let found = scan_pci(&space);
    let places: Vec<(u8, u8, u8)> = found.iter().map(|d| (d.config.bus, d.config.slot, d.config.function)).collect();
    assert_eq!(places, vec![(0, 1, 0), (1, 0, 0), (1, 0, 2)]);
    assert_eq!(found[0].config.vendor_id, 0x1022);
}

fn bgra_framebuffer() -> Framebuffer {
    Framebuffer::new(0, 4, 3, 16, 8, 8, 8, 16, 8, 0, 4)
}

#[test]
fn colors_and_pixel_formats() {
    let c = Color::from_hex_rgb(0xFFA500);
    assert_eq!(c, Color { r: 0xFF, g: 0xA5, b: 0x00 });
    assert_eq!(Color::from_hex_rgb(0xAB12_3456), Color { r: 0x12, g: 0x34, b: 0x56 });
    assert_eq!(bgra_framebuffer().pixel_format(), PixelFormat::BGRA);
    assert_eq!(Framebuffer::new(0, 1, 1, 4, 8, 8, 8, 0, 8, 16, 4).pixel_format(), PixelFormat::RGBA);
    assert_eq!(Framebuffer::new(0, 1, 1, 3, 8, 8, 8, 16, 8, 0, 3).pixel_format(), PixelFormat::UNKNOWN);
    assert_eq!(Framebuffer::new(0, 1, 1, 4, 8, 8, 8, 1, 2, 3, 4).pixel_format(), PixelFormat::UNKNOWN);
}

#[test]
fn convert_color_packs_channels() {
    let fb = bgra_framebuffer();
    assert_eq!(fb.convert_color(Color { r: 0x12, g: 0x34, b: 0x56 }), 0x12_3456);
    let rgb565 = Framebuffer::new(0, 1, 1, 2, 5, 6, 5, 11, 5, 0, 2);
    assert_eq!(rgb565.convert_color(Color { r: 0xFF, g: 0xFF, b: 0xFF }), 0xFFFF);
    assert_eq!(rgb565.convert_color(Color { r: 0x80, g: 0x40, b: 0x08 }), 0x8201);
}

#[test]
fn write_pixel_sets_only_that_pixel() {
    let fb = bgra_framebuffer();
    let mut px = vec![0xEEu8; 48];
    fb.write_pixel(&mut px, Color { r: 0x12, g: 0x34, b: 0x56 }, 1, 2);
    assert_eq!(&px[36..40], &[0x56, 0x34, 0x12, 0x00]);
    assert!(px[..36].iter().all(|&b| b == 0xEE));
    assert!(px[40..].iter().all(|&b| b == 0xEE));
    let before = px.clone();
    fb.write_pixel(&mut px, Color { r: 1, g: 1, b: 1 }, 4, 0);
    fb.write_pixel(&mut px, Color { r: 1, g: 1, b: 1 }, 0, 3);
    assert_eq!(px, before);
}

#[test]
fn write_pixel_three_bytes_per_pixel() {
    let fb = Framebuffer::new(0, 2, 1, 6, 8, 8, 8, 16, 8, 0, 3);
    let mut px = vec![0u8; 6];
    fb.write_pixel(&mut px, Color { r: 0xAA, g: 0xBB, b: 0xCC }, 1, 0);
    assert_eq!(px, vec![0, 0, 0, 0xCC, 0xBB, 0xAA]);
}

#[test]
fn fill_rect_is_clipped_to_the_framebuffer() {
    let fb = bgra_framebuffer();
    let mut px = vec![0u8; 48];
    fb.fill_rect(&mut px, Color { r: 0, g: 0, b: 0xFF }, 1, 1, 10, 1);
    for (i, b) in px.iter().enumerate() {
        let expected = if (20..32).contains(&i) && i % 4 == 0 { 0xFF } else { 0 };
        assert_eq!(*b, expected, "byte {}", i);
    }
    let before = px.clone();
    fb.fill_rect(&mut px, Color { r: 9, g: 9, b: 9 }, 4, 0, 2, 2);
    assert_eq!(px, before);
}

fn test_font() -> Vec<u8> {
    let mut font = vec![0u8; 1024];
    font[65 * 8] = 0x01;
    font[65 * 8 + 7] = 0x80;
    font[66 * 8 + 3] = 0xFF;
    font
}

fn pixel(px: &[u8], fb: &Framebuffer, x: usize, y: usize) -> [u8; 4] {
    let i = y * fb.pitch as usize + x * fb.bpp as usize;
    [px[i], px[i + 1], px[i + 2], px[i + 3]]
}

#[test]
fn display_writer_geometry() {
    let fb = Framebuffer::new(0, 16, 24, 64, 8, 8, 8, 16, 8, 0, 4);
    let w = DisplayWriter::new(&fb, 1, Color { r: 255, g: 255, b: 255 }, Color { r: 0, g: 0, b: 0 }, 8);
    assert_eq!(w.max_row, 2);
    assert_eq!(w.max_col, 1);
    assert_eq!(w.cur_row, 1);
    assert_eq!(w.cur_col, 1);
}

#[test]
fn display_writer_draws_glyph_over_background() {
    let fb = Framebuffer::new(0, 16, 16, 64, 8, 8, 8, 16, 8, 0, 4);
    let white = Color { r: 255, g: 255, b: 255 };
    let black = Color { r: 0, g: 0, b: 0 };
    let mut w = DisplayWriter::new(&fb, 0, white, black, 8);
    let mut px = vec![0xEEu8; 16 * 64];
    let font = test_font();
    w.write_symbol(&mut px, &font, 'A');
    assert_eq!(pixel(&px, &fb, 0, 0), [0xFF, 0xFF, 0xFF, 0]);
    assert_eq!(pixel(&px, &fb, 7, 7), [0xFF, 0xFF, 0xFF, 0]);
    assert_eq!(pixel(&px, &fb, 1, 0), [0, 0, 0, 0]);
    assert_eq!(pixel(&px, &fb, 8, 0), [0xEE; 4]);
    assert_eq!(pixel(&px, &fb, 0, 8), [0xEE; 4]);
    assert_eq!((w.cur_row, w.cur_col), (0, 1));
}

#[test]
fn display_writer_control_characters() {
    let fb = Framebuffer::new(0, 16, 16, 64, 8, 8, 8, 16, 8, 0, 4);
    let mut w = DisplayWriter::new(&fb, 0, Color { r: 1, g: 2, b: 3 }, Color { r: 0, g: 0, b: 0 }, 8);
    let mut px = vec![0u8; 16 * 64];
    let font = test_font();
    w.write_symbol(&mut px, &font, 'A');
    w.write_symbol(&mut px, &font, '\r');
    assert_eq!((w.cur_row, w.cur_col), (0, 0));
    w.write_symbol(&mut px, &font, '\n');
    assert_eq!((w.cur_row, w.cur_col), (1, 0));
    let before = px.clone();
    w.write_symbol(&mut px, &font, '\u{e9}');
    assert_eq!((w.cur_row, w.cur_col), (1, 0));
    assert_eq!(px, before);
}

#[test]
fn display_writer_string_wraps_after_last_column() {
    let fb = Framebuffer::new(0, 16, 16, 64, 8, 8, 8, 16, 8, 0, 4);
    let mut w = DisplayWriter::new(&fb, 0, Color { r: 255, g: 255, b: 255 }, Color { r: 0, g: 0, b: 0 }, 8);
    let mut px = vec![0x11u8; 16 * 64];
    let font = test_font();
    w.write_string(&mut px, &font, "A B");
    assert_eq!((w.cur_row, w.cur_col), (1, 0));
    // the space filled the second cell with the background colour
    assert_eq!(pixel(&px, &fb, 12, 4), [0, 0, 0, 0]);
}

#[test]
fn vector_allocator_hands_out_lowest_free_vector_once() {
    let mut a: InterruptVectorAllocator<u32> = InterruptVectorAllocator::default();
    assert_eq!(a.used.len(), VECTOR_POOL_SIZE);
    assert_eq!(a.set_and_get_free_vector(false, 7), None);
    assert!(a.used.iter().all(|s| s.is_none()));
    assert_eq!(a.set_and_get_free_vector(true, 7), Some(VECTOR_BASE));
    assert_eq!(a.set_and_get_free_vector(true, 8), Some(0x33));
    assert_eq!(a.used[0], Some(7));
    assert_eq!(a.used[1], Some(8));
    assert_eq!(a.handler_for(0x33), Some(8));
    assert_eq!(a.handler_for(0x10), Some(7));
    assert_eq!(a.handler_for(0x40), None);
    a.used[0] = None;
    assert_eq!(a.set_and_get_free_vector(true, 9), Some(0x32));
}

#[test]
fn vector_allocator_full_pool() {
    let mut a: InterruptVectorAllocator<u32> = InterruptVectorAllocator::default();
    for i in 0..VECTOR_POOL_SIZE {
        assert_eq!(a.set_and_get_free_vector(true, i as u32), Some(VECTOR_BASE + i as u8));
    }
    assert_eq!(a.set_and_get_free_vector(true, 1000), None);
}

#[test]
fn timer_options_mask_their_fields() {
    let t = TimerOptions::new(1, 1, 0x40, 0b101);
    assert_eq!(t.get_timer_mode(), 0b01);
    assert_eq!(t.get_mask(), 1);
    assert_eq!(t.get_vector(), 0x40);
    assert_eq!(t.get_delivery_status(), 1);
    let u = TimerOptions::new(2, 3, 0, 0);
    assert_eq!(u.get_mask(), 0);
    assert_eq!(u.get_delivery_status(), 1);
}

#[test]
fn apic_driver_register_writes() {
    let apic = ApicDriver::new(0xFEE0_0000);
    let t = TimerOptions::new(1, 1, 0x40, 0b01);
    assert_eq!(apic.setup_timer(&t), RegisterWrite { address: 0xFEE0_0320, value: 0x3_1040 });
    assert_eq!(apic.send_eoi(), RegisterWrite { address: 0xFEE0_00B0, value: 0 });
    assert_eq!(apic.enable(0x0F), RegisterWrite { address: 0xFEE0_00F0, value: 0x10F });
}

#[test]
fn config_decodable_needs_whole_space_and_ending_list() {
    assert!(is_config_decodable(&network_card_config()));
    assert!(!is_config_decodable(&network_card_config()[..256]));
    let mut looping = network_card_config();
    looping[0x51] = 0x40;
    assert!(!is_config_decodable(&looping));
    let mut no_list = looping.clone();
    put16(&mut no_list, 6, 0);
    assert!(is_config_decodable(&no_list));
}

#[test]
fn device_descriptions_give_ids_in_decimal() {
    assert_eq!(tiny_kernel::text::describe_device(0x8086, 0), "PciDevice { vendor_id: 32902, device_id: 0 }");
    let record = ConfigRecord::new(0x10EC, 0x8139, 0, 0, 2, 0, 0, 3, 0, 0x10, 0, 0, 0, 0, 0);
    assert_eq!(record.summary(), "PciDevice { vendor_id: 4332, device_id: 33081 }");
    let c = network_card_config();
    let device = parse_pci_device(&c, 0xE000_0000, 0, 3, 0).unwrap();
    assert_eq!(device.to_string(), "PciDevice { vendor_id: 32902, device_id: 4110 }");
}

#[test]
fn display_writer_string_in_two_parts_matches_whole() {
    let fb = Framebuffer::new(0, 16, 16, 64, 8, 8, 8, 16, 8, 0, 4);
    let white = Color { r: 255, g: 255, b: 255 };
    let black = Color { r: 0, g: 0, b: 0 };
    let font = test_font();
    let mut whole = DisplayWriter::new(&fb, 0, white, black, 8);
    let mut px_whole = vec![0x11u8; 16 * 64];
    whole.write_string(&mut px_whole, &font, "A B");
    let mut parts = DisplayWriter::new(&fb, 0, white, black, 8);
    let mut px_parts = vec![0x11u8; 16 * 64];
    parts.write_string(&mut px_parts, &font, "A ");
    parts.write_string(&mut px_parts, &font, "B");
    assert_eq!(px_whole, px_parts);
    assert_eq!((whole.cur_row, whole.cur_col), (parts.cur_row, parts.cur_col));
}

#[test]
fn uart_setup_writes_and_loopback_decision() {
    let w = initialization_writes(0x3F8);
    let pairs: Vec<(u16, u8)> = w.iter().map(|x| (x.port, x.value)).collect();
    assert_eq!(
        pairs,
        vec![(0x3FA, 0x00), (0x3FB, 0x80), (0x3F8, 0x03), (0x3F9, 0x00), (0x3FB, 0x03), (0x3FA, 0xC7), (0x3FC, 0x0B), (0x3F8, 0xB2)]
    );
    assert_eq!(initialization_finish(0x3F8, 0xB2), Some(PortWrite { port: 0x3FC, value: 0x0F }));
    assert_eq!(initialization_finish(0x3F8, 0xFF), None);
}

#[test]
fn symbol_fit_check_matches_cursor_limits() {
    let fb = Framebuffer::new(0, 16, 16, 64, 8, 8, 8, 16, 8, 0, 4);
    let w = DisplayWriter::new(&fb, 0, Color { r: 255, g: 255, b: 255 }, Color { r: 0, g: 0, b: 0 }, 8);
    assert!(w.symbol_fits_check(1024, 'A'));
    assert!(!w.symbol_fits_check(8, 'A'));
    assert!(w.symbol_fits_check(0, '\u{e9}'));
    assert!(w.symbol_fits_check(0, '\n'));
}
