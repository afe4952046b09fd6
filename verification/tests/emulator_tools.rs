use neo_re::cli_app::{App, ConnectStep, Screen};
use neo_re::usb_mode::NeoMode;
use neo_re::alphaword::{
    alphaword_file_records, alphaword_marker_offsets, backing_alphaword_slot, effective_alphaword_capacity,
    max_alphaword_slot_used, validate_alphaword_export_records, ExportCheckError,
};
use neo_re::device_backup::{applet_dump_file_name, build_backup_manifest, slot_file_base};
use neo_re::key_names::{matrix_code_for_key_name, KeyNameError};
use neo_re::lcd::LcdSnapshot;
use neo_re::lcd_tools::{
    lcd_diff_pixels_in_rect, lcd_hash, lcd_lit_pixels_in_rect, lcd_pbm_text, lcd_visible_lit_pixels, render_lcd_ascii,
};
use neo_re::memory::{AppletMemoryValidation, EmuMemory};
use neo_re::firmware::FirmwareRuntime;
use neo_re::protocol::{FileEntry, SmartAppletRecord};
use neo_re::recovery_seed::{RecoverySeed, RecoverySeedRange};
use neo_re::session::{
    applet_memory_status, debug_word_addresses, exception_handler, format_exception, periodic_service_due,
    status_text, validation_entry_stack, wakes_after_firmware_stop,
};

fn picture(width: usize, height: usize, lit: &[(usize, usize)]) -> LcdSnapshot {
    let mut pixels = vec![false; width * height];
    for &(x, y) in lit {
        pixels[y * width + x] = true;
    }
    LcdSnapshot { width, height, pixels }
}

#[test]
fn visible_pixels_ignore_the_hidden_part_of_the_lcd() {
    let snapshot = picture(320, 128, &[(0, 0), (263, 63), (264, 0), (0, 64)]);
    assert_eq!(lcd_visible_lit_pixels(&snapshot), 2);
}

#[test]
fn lit_pixels_are_counted_in_a_clipped_rectangle() {
    let snapshot = picture(10, 4, &[(1, 1), (2, 1), (9, 3), (0, 0)]);
    assert_eq!(lcd_lit_pixels_in_rect(&snapshot, 1, 1, 2, 1), 2);
    assert_eq!(lcd_lit_pixels_in_rect(&snapshot, 8, 2, 100, 100), 1);
    assert_eq!(lcd_lit_pixels_in_rect(&snapshot, 0, 0, 0, 0), 0);
}

#[test]
fn differing_pixels_are_counted_where_both_pictures_reach() {
    let before = picture(10, 4, &[(1, 1), (5, 2)]);
    let after = picture(8, 4, &[(1, 1), (2, 2)]);
    assert_eq!(lcd_diff_pixels_in_rect(&before, &after, 0, 0, 100, 100), 2);
    assert_eq!(lcd_diff_pixels_in_rect(&before, &after, 0, 0, 2, 2), 0);
}

#[test]
fn lcd_hash_follows_fnv_over_pixels() {
    let empty = LcdSnapshot { width: 0, height: 0, pixels: Vec::new() };
    assert_eq!(lcd_hash(&empty), 0xcbf2_9ce4_8422_2325);
    let one = LcdSnapshot { width: 1, height: 1, pixels: vec![true] };
    assert_eq!(lcd_hash(&one), (0xcbf2_9ce4_8422_2325u64 ^ 1).wrapping_mul(0x0000_0100_0000_01b3));
}

#[test]
fn ascii_rendering_marks_lit_blocks() {
    let snapshot = picture(4, 4, &[(0, 0), (3, 3)]);
    assert_eq!(render_lcd_ascii(&snapshot, 2, 2), "# \n #\n");
    assert_eq!(render_lcd_ascii(&snapshot, 3, 3), "# \n #\n");
    assert_eq!(render_lcd_ascii(&snapshot, 1, 4), "#  #\n");
}

fn alphaword_memory() -> Vec<u8> {
    let mut bytes = vec![0u8; 0x3000];
    // File 2's record: name text at 0x1100, record at 0x10ea
    let name = 0x1100;
    let record = name - 0x16;
    bytes[name..name + 6].copy_from_slice(b"File 2");
    bytes[record + 0x27] = 2;
    bytes[record + 0x29] = 0x2c;
    bytes[record + 0x2a..record + 0x2e].copy_from_slice(&0x2800u32.to_be_bytes());
    bytes[record + 0x2e..record + 0x32].copy_from_slice(&5u32.to_be_bytes());
    bytes[record + 0x32..record + 0x36].copy_from_slice(&5u32.to_be_bytes());
    bytes[record + 0x36..record + 0x3a].copy_from_slice(&512u32.to_be_bytes());
    bytes[record + 0x3a..record + 0x3e].copy_from_slice(&512u32.to_be_bytes());
    bytes[0x2800..0x2805].copy_from_slice(b"hello");
    // a "File 9" text is no record
    bytes[0x1200..0x1206].copy_from_slice(b"File 9");
    bytes
}

#[test]
fn alphaword_records_are_found_by_their_name_text() {
    let bytes = alphaword_memory();
    let records = alphaword_file_records(&bytes);
    assert_eq!(records.len(), 1);
    let record = &records[0];
    assert_eq!(record.slot, 2);
    assert_eq!(record.record, 0x10ea);
    assert_eq!(record.pointer, 0x2800);
    assert_eq!((record.len_a, record.len_b, record.cap_a, record.cap_b), (5, 5, 512, 512));
    assert_eq!(record.record_bytes.len(), 0x40);
    assert_eq!(&record.buffer_sample[..5], b"hello");
    assert_eq!(record.buffer_sample.len(), 64);
    assert_eq!(max_alphaword_slot_used(&records, 2), 5);
    assert_eq!(max_alphaword_slot_used(&records, 3), 0);
    assert_eq!(alphaword_marker_offsets(&bytes, 2, b"ell"), vec!["0x00002800".to_string()]);
    assert!(alphaword_marker_offsets(&bytes, 2, b"xyz").is_empty());
}

#[test]
fn alphaword_capacity_is_the_largest_plausible_size() {
    assert_eq!(effective_alphaword_capacity(5, 5, 512, 1024), Some(1024));
    assert_eq!(effective_alphaword_capacity(5, 5, 10, 5000), None);
    assert_eq!(effective_alphaword_capacity(100, 5, 10, 5000), Some(100));
    assert_eq!(backing_alphaword_slot(1), 8);
    assert_eq!(backing_alphaword_slot(5), 4);
}

#[test]
fn export_check_reports_moved_and_vanished_records() {
    let before_bytes = alphaword_memory();
    let before = alphaword_file_records(&before_bytes);
    assert_eq!(
        validate_alphaword_export_records(&before, &before_bytes, 2, b"hello"),
        Ok(vec!["0x00002800".to_string()])
    );
    let mut moved = before_bytes.clone();
    moved[0x10ea + 0x2a..0x10ea + 0x2e].copy_from_slice(&0x2900u32.to_be_bytes());
    let error = validate_alphaword_export_records(&before, &moved, 2, b"hello").unwrap_err();
    assert!(matches!(error, ExportCheckError::DescriptorMoved { after_pointer: 0x2900, .. }));
    assert_eq!(
        error.message(),
        "AlphaWord File 2 descriptor at 0x10ea changed pointer/capacity: before ptr=0x00002800 caps=512/512 after ptr=0x00002900 caps=512/512"
    );
    let gone = vec![0u8; 0x3000];
    let error = validate_alphaword_export_records(&before, &gone, 2, b"hello").unwrap_err();
    assert_eq!(error.message(), "AlphaWord File 2 descriptor at 0x10ea disappeared");
}

#[test]
fn key_names_map_to_matrix_codes() {
    assert_eq!(matrix_code_for_key_name("Enter"), Ok(0x69));
    assert_eq!(matrix_code_for_key_name("file-8"), Ok(0x42));
    assert_eq!(matrix_code_for_key_name("0x2C"), Ok(0x2c));
    assert_eq!(matrix_code_for_key_name("0x100"), Err(KeyNameError::InvalidCode("0x100".to_string())));
    assert_eq!(matrix_code_for_key_name("Hyper"), Err(KeyNameError::Unknown("hyper".to_string())));
}

#[test]
fn device_backup_names_and_manifest() {
    assert_eq!(slot_file_base(3, "My Notes!"), "slot-03-My_Notes");
    assert_eq!(slot_file_base(12, ""), "slot-12-untitled");
    assert_eq!(applet_dump_file_name(0xa130), "A130.os3kapp");
    let files = vec![FileEntry { slot: 1, name: "Notes".to_string(), attribute_bytes: 42 }];
    let applets = vec![SmartAppletRecord {
        applet_id: 0xa130,
        version: "1.0".to_string(),
        name: "Alpha USB".to_string(),
        file_size: 4096,
        applet_class: 1,
    }];
    assert_eq!(
        build_backup_manifest(&files, &applets),
        "AlphaSmart NEO full backup\nfiles=1\napplets=1\n\nAlphaWord slots:\n- slot=1 name=Notes file_length=42\n\nSmartApplets:\n- applet_id=0xa130 version=1.0 name=Alpha USB file_size=4096 class=0x01"
    );
}

#[test]
fn session_decisions() {
    assert!(wakes_after_firmware_stop(true, 0x0042_6756));
    assert!(!wakes_after_firmware_stop(false, 0x0042_6756));
    assert!(periodic_service_due(1024));
    assert!(!periodic_service_due(1000));
    assert_eq!(exception_handler(10, Some(0x0040_1000)), Some(0x0040_1000));
    assert_eq!(exception_handler(10, Some(0)), None);
    assert_eq!(exception_handler(4, Some(0x0040_1000)), None);
    assert_eq!(format_exception(3, 0x0040_0102), "address error vector=3 at 0x00400102");
    assert_eq!(format_exception(42, 1), "exception vector=42 at 0x00000001");
    assert_eq!(status_text(&None, true), "stopped");
    assert_eq!(status_text(&Some("bus error".to_string()), true), "bus error");
    let validation = AppletMemoryValidation {
        count: 3,
        start: 0,
        end: 0,
        alpha_usb_native: None,
        forth_mini: None,
        basic_writer: None,
        valid: false,
    };
    assert_eq!(applet_memory_status(&validation), "Check - 3 applets");
    assert_eq!(validation_entry_stack(0x19, 7)[2], (0x0007_fb08, 7));
    let addrs = debug_word_addresses(0xffff_fffc, [0, 0, 0x100, 0, 0, 0, 0]);
    assert_eq!(addrs.len(), 28 + 12 + 28);
    assert_eq!(addrs[28], 0xffff_fffc);
    assert_eq!(addrs[29], 0xffff_ffff);
    assert_eq!(addrs[40], 0x100);
    assert_eq!(addrs[46], 0x144);
}

#[test]
fn seed_ranges_are_put_back_into_memory() {
    let firmware = FirmwareRuntime::from_image(vec![0u8; 0x100]);
    let mut memory = EmuMemory::load_small_rom(&firmware, &Vec::new(), &Vec::new()).unwrap();
    let seed = RecoverySeed { ranges: vec![(RecoverySeedRange { start: 0x2000, len: 3 }, vec![1, 2, 3])] };
    seed.apply(&mut memory);
    assert_eq!(memory.peek_byte(0x2001), Some(2));
    assert_eq!(memory.peek_byte(0x2003), Some(0));
}

#[test]
fn terminal_tool_follows_the_connection_and_selection() {
    let mut app = App::new();
    assert_eq!(app.screen, Screen::Waiting);
    assert_eq!(app.on_mode(NeoMode::Missing), ConnectStep::Wait);
    assert_eq!(app.status, "Connect the NEO with USB. It should appear as HID keyboard mode first.");
    assert_eq!(app.on_mode(NeoMode::Hid), ConnectStep::SwitchThenOpen);
    assert_eq!(app.on_mode(NeoMode::Direct), ConnectStep::Open);
    app.on_connected();
    assert_eq!(app.screen, Screen::MainMenu);
    let files = vec![
        FileEntry { slot: 1, name: "One".to_string(), attribute_bytes: 1 },
        FileEntry { slot: 2, name: "Two".to_string(), attribute_bytes: 2 },
    ];
    app.on_files(files.clone());
    assert_eq!(app.screen, Screen::Files);
    assert_eq!(app.backup_targets(), vec![files[0].clone()]);
    app.file_selected = 2;
    assert_eq!(app.backup_targets(), files);
    app.set_error("boom".to_string());
    assert_eq!(app.error.as_deref(), Some("boom"));
    assert_eq!(app.status, "boom");
}

#[test]
fn pbm_text_lists_pixels_row_by_row() {
    let snapshot = picture(3, 2, &[(0, 0), (2, 1)]);
    assert_eq!(lcd_pbm_text(&snapshot), "P1\n3 2\n1 0 0\n0 0 1\n");
}
