use neo_re::host::{line_a_request, LineARequest};
use neo_re::firmware::FirmwareRuntime;
use neo_re::keyboard::MatrixKey;
use neo_re::memory::{
    gpio_keyboard_row_mask, gpio_keyboard_row_select, packed_timebase, stock_applet_files, timer_due,
    EmuMemory, MemoryError, MmioAccess, CPU_HZ, STOCK_APPLET_BASE,
};

// The small ROM image the emulator normally boots is not shipped with the
// sources; these tests use a stand-in of the same shape (reset vectors
// followed by code space), which is all the memory map looks at.
fn small_rom() -> FirmwareRuntime {
    let mut image = vec![0u8; 0x1_0000];
    image[0..4].copy_from_slice(&0x0000_7ffcu32.to_be_bytes());
    image[4..8].copy_from_slice(&0x0040_0100u32.to_be_bytes());
    FirmwareRuntime::from_image(image)
}

fn load(firmware: &FirmwareRuntime) -> EmuMemory {
    EmuMemory::load_small_rom(firmware, &Vec::new(), &Vec::new()).expect("small ROM fits")
}

fn neo_system_image() -> FirmwareRuntime {
    let mut image = vec![0u8; 0x2000];
    image[6..24].copy_from_slice(b"System 3 Neo      ");
    image[0x100..0x104].copy_from_slice(&[0xc0, 0xff, 0xee, 0xad]);
    image[0x800..0x804].copy_from_slice(&[0xc0, 0xff, 0xee, 0xad]);
    FirmwareRuntime::from_image(image)
}

fn applet_image(name: &str, id: u16, entry_offset: u32, length: u32) -> Vec<u8> {
    let mut image = vec![0u8; length as usize];
    image[0..4].copy_from_slice(&[0xc0, 0xff, 0xee, 0xad]);
    image[4..8].copy_from_slice(&length.to_be_bytes());
    image[0x14..0x16].copy_from_slice(&id.to_be_bytes());
    image[0x18..0x18 + name.len()].copy_from_slice(name.as_bytes());
    image[0x84..0x88].copy_from_slice(&entry_offset.to_be_bytes());
    image
}

fn contains_bytes(haystack: &[u8], needle: &[u8]) -> bool {
    haystack.windows(needle.len()).any(|window| window == needle)
}

#[test]
fn sign_extended_mmio_aliases_share_register_state() {
    let mut memory = load(&small_rom());

    assert_eq!(memory.set_byte(0xffff_f429, 0x5a), Some(()));

    assert_eq!(memory.get_byte(0x0000_f429), Some(0x5a));
}

#[test]
fn lcd_controller_command_and_data_ports_are_mapped() {
    let mut memory = load(&small_rom());

    assert_eq!(memory.set_byte(0x0100_8000, 0xb0), Some(()));
    assert_eq!(memory.set_byte(0x0100_8001, 0xff), Some(()));
    assert_eq!(memory.set_byte(0x0100_0000, 0xa3), Some(()));
    assert_eq!(memory.set_byte(0x0100_0001, 0x55), Some(()));

    assert_eq!(memory.get_byte(0x0100_8000), Some(0x00));
    assert_eq!(memory.get_byte(0x0100_8001), Some(0x00));
    assert_eq!(memory.get_byte(0x0100_0000), Some(0x00));
    assert_eq!(memory.get_byte(0x0100_0001), Some(0x00));
}

#[test]
fn lcd_port_0x01008000_maps_to_left_half() {
    let mut memory = load(&small_rom());

    assert_eq!(memory.set_byte(0x0100_8000, 0xb0), Some(()));
    assert_eq!(memory.set_byte(0x0100_8001, 0x01), Some(()));

    let snapshot = memory.lcd_snapshot();
    assert!(snapshot.pixels[0]);
    assert!(!snapshot.pixels[132]);
}

#[test]
fn keyboard_input_defaults_to_no_pressed_key() {
    let mut memory = load(&small_rom());

    assert_eq!(memory.get_byte(0xffff_f419), Some(0xff));
}

#[test]
fn gpio_row_select_exposes_nonzero_row_letter_keys() {
    let mut memory = load(&small_rom());
    let cases = [
        (0x3c, 0xf440, 0x20, 0xf7), // Q row 0x0c, col 3
        (0x3b, 0xf440, 0x40, 0xf7), // W row 0x0b, col 3
        (0x3a, 0xf440, 0x80, 0xf7), // E row 0x0a, col 3
        (0x3d, 0xf440, 0x10, 0xf7), // R row 0x0d, col 3
        (0x0d, 0xf440, 0x10, 0xfe), // T row 0x0d, col 0
    ];

    for (key, row_addr, row_value, expected_input) in cases {
        memory.press_key(MatrixKey::new(key));
        assert_eq!(memory.set_byte(row_addr, row_value), Some(()));
        assert_eq!(memory.get_byte(0xffff_f419), Some(expected_input));
        memory.release_key(MatrixKey::new(key));
    }
}

#[test]
fn timer_counter_follows_prescaled_32768_hz_clock() {
    let mut memory = load(&small_rom());

    memory.advance_cpu_cycles(CPU_HZ as usize);

    assert_eq!(memory.get_word(0xffff_f608), Some(992));
    assert_eq!(memory.get_word(0xffff_f608), Some(992));
}

#[test]
fn full_system_loads_exported_custom_applets() {
    let firmware = neo_system_image();
    let stock = vec![Some(applet_image("Calculator", 0xa001, 0x94, 0x200))];
    let extras = vec![
        Some(applet_image("Alpha USB", 0xa130, 0x94, 0x300)),
        Some(applet_image("Forth Mini", 0xa131, 0xa0, 0x200)),
        Some(applet_image("Basic Writer", 0xa132, 0x94, 0x180)),
        None,
    ];
    let memory = EmuMemory::load_small_rom(&firmware, &stock, &extras).expect("system image fits");
    let bytes = memory.bytes();
    let applet_start = u32::from_be_bytes(bytes[0x0e8a..0x0e8e].try_into().unwrap()) as usize;
    let applet_end = u32::from_be_bytes(bytes[0x0e8e..0x0e92].try_into().unwrap()) as usize;

    assert!(applet_start >= STOCK_APPLET_BASE);
    assert!(applet_end > applet_start);
    let applet_storage = &bytes[applet_start..applet_end];
    assert!(contains_bytes(applet_storage, b"Alpha USB"));
    assert!(contains_bytes(applet_storage, b"Forth Mini"));
    assert!(contains_bytes(applet_storage, b"Basic Writer"));

    let validation = memory.applet_memory_validation();
    assert!(validation.valid);
    assert_eq!(validation.start as usize, applet_start);
    assert_eq!(validation.end as usize, applet_end);
    assert!(validation.alpha_usb_native.is_some());
    assert!(validation.forth_mini.is_some());
    assert!(validation.basic_writer.is_some());
}

#[test]
fn system_image_records_its_last_package_and_keyboard_stack() {
    let memory = EmuMemory::load_small_rom(&neo_system_image(), &Vec::new(), &Vec::new()).unwrap();
    let bytes = memory.bytes();
    assert_eq!(u32::from_be_bytes(bytes[0x0e0a..0x0e0e].try_into().unwrap()), 0x0041_0800);
    assert_eq!(u32::from_be_bytes(bytes[0x7dd8..0x7ddc].try_into().unwrap()), 0x0000_0830);
    assert_eq!(&bytes[0x0041_0006..0x0041_0018], b"System 3 Neo      ");
    // no applet was loaded, so the applet area's bounds stay unwritten
    assert_eq!(&bytes[0x0e8a..0x0e92], &[0u8; 8]);
}

#[test]
fn small_rom_is_mirrored_at_the_rom_base() {
    let memory = load(&small_rom());
    assert_eq!(memory.peek_long(0), Some(0x0000_7ffc));
    assert_eq!(memory.peek_long(0x0040_0004), Some(0x0040_0100));
}

#[test]
fn oversized_images_are_refused() {
    let firmware = FirmwareRuntime::from_image(vec![0u8; 0x0040_0001]);
    let error = EmuMemory::load_small_rom(&firmware, &Vec::new(), &Vec::new()).unwrap_err();
    assert_eq!(error, MemoryError::ImageTooLarge);
    assert_eq!(error.message(), "firmware image does not fit emulator memory");
}

#[test]
fn stock_applets_named_like_an_extra_applet_are_left_out() {
    let firmware = neo_system_image();
    let stock = vec![
        Some(applet_image("Alpha USB", 0xa130, 0x94, 0x400)),
        Some(applet_image("Calculator", 0xa001, 0x94, 0x200)),
    ];
    let extras = vec![Some(applet_image("Alpha USB", 0xa130, 0x94, 0x300))];
    let memory = EmuMemory::load_small_rom(&firmware, &stock, &extras).unwrap();
    let calculator = memory.find_applet_launch_info("Calculator").unwrap();
    let alpha = memory.find_applet_launch_info("Alpha USB").unwrap();
    assert_eq!(calculator.slot, 1);
    assert_eq!(calculator.base as usize, STOCK_APPLET_BASE);
    assert_eq!(alpha.slot, 2);
    assert_eq!(alpha.base as usize, STOCK_APPLET_BASE + 0x200);
    assert_eq!(alpha.entry, alpha.base + 0x94);
    assert_eq!(alpha.id, 0xa130);
    assert_eq!(memory.find_applet_entry("Snake"), None);
}

#[test]
fn stock_applet_files_keep_a_named_os3kapp_files_in_name_order() {
    let names = vec![
        "AlphaWord.os3kapp".to_string(),
        "AFonts.os3kapp".to_string(),
        "Calculator.os3kapp".to_string(),
        "A-Beam.os3kapp".to_string(),
        "Alarm.txt".to_string(),
    ];
    assert_eq!(
        stock_applet_files(&names),
        vec!["A-Beam.os3kapp".to_string(), "AlphaWord.os3kapp".to_string()]
    );
}

#[test]
fn word_writes_to_applet_bounds_are_ignored_once_the_area_is_known() {
    let firmware = neo_system_image();
    let extras = vec![Some(applet_image("Alpha USB", 0xa130, 0x94, 0x300))];
    let mut memory = EmuMemory::load_small_rom(&firmware, &Vec::new(), &extras).unwrap();
    memory.drain_mmio_accesses();
    let before = memory.peek_word(0x0e8e);
    assert_eq!(memory.set_word(0x0e8e, 0x1234), Some(()));
    assert_eq!(memory.peek_word(0x0e8e), before);
    assert_eq!(
        memory.drain_mmio_accesses(),
        vec![MmioAccess::IgnoredStorageBoundWrite16 { address: 0x0e8e, value: 0x1234 }]
    );
}

#[test]
fn deferred_timer_completes_when_due() {
    let mut memory = load(&small_rom());
    let record = 0x5d3c;
    assert_eq!(memory.set_byte(record, 1), Some(()));
    assert_eq!(memory.set_word(record + 2, 0), Some(()));
    assert_eq!(memory.set_word(record + 6, 0x0000), Some(()));
    assert_eq!(memory.set_word(record + 8, 0x2000), Some(()));
    memory.service_deferred_timers();
    assert_eq!(memory.peek_byte(record), Some(0));
    assert_eq!(memory.peek_byte(0x2000), Some(0xff));
}

#[test]
fn clock_registers_follow_the_tick_register() {
    let mut memory = load(&small_rom());
    for _ in 0..3725 {
        assert_eq!(memory.get_word(0xffff_fb1a), Some(0));
    }
    // 3725 s is 1 h 2 min 5 s
    assert_eq!(memory.get_word(0xffff_fb00), Some(0x0102));
    assert_eq!(memory.get_word(0xffff_fb02), Some(0x0005));
    assert_eq!(packed_timebase(3725), 0x0102_0005);
}

#[test]
fn gpio_ports_select_rows_by_bit() {
    assert_eq!(gpio_keyboard_row_select(0xf410, 0x80), Some(0x0001));
    assert_eq!(gpio_keyboard_row_select(0xf410, 0x01), Some(0x0080));
    assert_eq!(gpio_keyboard_row_select(0xf408, 0x20), Some(0x0200));
    assert_eq!(gpio_keyboard_row_select(0xf440, 0x84), Some(0x8400));
    assert_eq!(gpio_keyboard_row_select(0xf411, 0xff), None);
    assert_eq!(gpio_keyboard_row_mask(0xf440), 0xfc00);
}

#[test]
fn timer_deadlines_are_due_within_half_the_counter_range() {
    assert!(timer_due(10, 10));
    assert!(timer_due(5, 0xfff0));
    assert!(!timer_due(0, 0x8000));
    assert!(!timer_due(9, 10));
}

fn put_long(memory: &mut EmuMemory, addr: u32, value: u32) {
    let bytes = value.to_be_bytes();
    for (k, byte) in bytes.iter().enumerate() {
        assert_eq!(memory.set_byte(addr + k as u32, *byte), Some(()));
    }
}

#[test]
fn line_a_requests_read_their_arguments_from_the_stack() {
    let mut memory = load(&small_rom());
    let sp = 0x2000;
    put_long(&mut memory, sp + 4, 0x3000);
    put_long(&mut memory, sp + 8, 7);
    put_long(&mut memory, sp + 12, 40);
    for (k, byte) in b"Hi\0".iter().enumerate() {
        assert_eq!(memory.set_byte(0x3000 + k as u32, *byte), Some(()));
    }
    assert_eq!(line_a_request(&mut memory, 0xA014, sp), LineARequest::AppendText(b"Hi".to_vec()));
    assert_eq!(
        line_a_request(&mut memory, 0xA004, sp),
        LineARequest::SetTextRegion { row: 0x3000, col: 7, width: 40 }
    );
    assert_eq!(line_a_request(&mut memory, 0xA008, sp), LineARequest::ReadCursor { row_ptr: 0x3000, col_ptr: 7 });
    put_long(&mut memory, sp + 4, 0x1234_5641);
    assert_eq!(line_a_request(&mut memory, 0xA010, sp), LineARequest::AppendChar(0x41));
    assert_eq!(line_a_request(&mut memory, 0xA000, sp), LineARequest::ClearScreen);
    assert_eq!(line_a_request(&mut memory, 0xA25C, sp), LineARequest::Yield);
}
