use neo_re::keyboard::{matrix_cells, matrix_key_for_char, matrix_key_for_code, matrix_key_label, Keyboard, MatrixKey};

#[test]
fn known_small_rom_password_keys_match_firmware_table() {
    assert_eq!(matrix_key_for_char('e').map(MatrixKey::code), Some(0x3a));
    assert_eq!(matrix_key_for_char('r').map(MatrixKey::code), Some(0x3d));
    assert_eq!(matrix_key_for_char('n').map(MatrixKey::code), Some(0x7f));
    assert_eq!(matrix_key_for_char('i').map(MatrixKey::code), Some(0x30));
}

#[test]
fn firmware_char_map_is_consistent() {
    let cells = matrix_cells();
    assert_eq!(cells.len(), 80, "firmware-derived matrix currently exposes 80 physical keys");
    for cell in &cells {
        assert!(cell.logical < 0x51, "logical code 0x{:02x} must be in HID usage table", cell.logical);
    }
}

#[test]
fn char_lookup_falls_back_to_candidate_firmware_labels_when_available() {
    assert_eq!(matrix_key_for_char('e').map(MatrixKey::code), Some(0x3a));
    assert_eq!(matrix_key_for_char('d').map(MatrixKey::code), Some(0x2a));
    assert_eq!(matrix_key_for_char('b').map(MatrixKey::code), Some(0x7d));
    assert_eq!(matrix_key_for_char('`').map(MatrixKey::code), Some(0x4c));
    assert_eq!(matrix_key_for_char(' ').map(MatrixKey::code), Some(0x79));
    assert_eq!(matrix_key_for_char('/').map(MatrixKey::code), Some(0x73));
}

#[test]
fn special_key_labels_use_firmware_hid_bridge() {
    assert_eq!(matrix_key_label(0x69), "Enter");
    assert_eq!(matrix_key_label(0x15), "Down");
    assert_eq!(matrix_key_label(0x77), "Up");
    assert_eq!(matrix_key_label(0x75), "Left");
    assert_eq!(matrix_key_label(0x76), "Right");
    assert_eq!(matrix_key_label(0x46), "Applets");
    assert_eq!(matrix_key_label(0x47), "Send");
}

#[test]
fn matrix_cells_is_derived_from_firmware_keyboard_map() {
    let cells = matrix_cells();
    assert!(cells.iter().any(|cell| cell.row == 0x0f && cell.col == 4 && cell.raw.code() == 0x4f));
    assert!(cells.iter().any(|cell| cell.raw.code() == 0x7f));
}

#[test]
fn matrix_key_for_code_only_accepts_non_empty_matrix_slots() {
    assert_eq!(matrix_key_for_code(0x3a).map(MatrixKey::code), Some(0x3a));
    assert_eq!(matrix_key_for_code(0x00).map(MatrixKey::code), Some(0x00));
    assert_eq!(matrix_key_for_code(0x08), None);
}

#[test]
fn small_rom_entry_chord_is_visible_during_boot_gate_only() {
    let mut keyboard = Keyboard::default();
    keyboard.select_row(0x00);
    keyboard.hold_small_rom_entry_chord();

    for _ in 0..4 {
        assert_ne!(keyboard.read_matrix_input(), 0xff);
    }
    assert_eq!(keyboard.read_matrix_input(), 0xff);
}

#[test]
fn all_row_text_tap_is_visible_independent_of_selected_row() {
    let mut keyboard = Keyboard::default();
    keyboard.select_row(0x00);
    keyboard.tap_all_rows(MatrixKey::new(0x3a));

    assert_eq!(keyboard.read_matrix_input(), 0xf7);
}

#[test]
fn tap_appended_after_expired_boot_chord_becomes_visible() {
    let mut keyboard = Keyboard::default();
    keyboard.hold_keys_all_rows(&[MatrixKey::new(0x0e), MatrixKey::new(0x0c)], 1);
    assert_eq!(keyboard.read_matrix_input(), 0xfe);
    assert_eq!(keyboard.read_matrix_input(), 0xff);

    keyboard.tap(MatrixKey::new(0x15));
    keyboard.select_row(0x05);

    assert_eq!(keyboard.read_matrix_input(), 0xfd);
}

#[test]
fn held_key_is_active_low_only_on_selected_row() {
    let mut keyboard = Keyboard::default();
    keyboard.press(MatrixKey::new(0x3a));

    keyboard.select_row(0x0d);
    assert_eq!(keyboard.read_matrix_input(), 0xff);

    keyboard.select_row(0x0a);
    assert_eq!(keyboard.read_matrix_input(), 0xf7);
}

#[test]
fn held_keys_are_visible_on_any_selected_row() {
    let mut keyboard = Keyboard::default();
    keyboard.press(MatrixKey::new(0x14));
    keyboard.press(MatrixKey::new(0x2c));

    keyboard.select_rows((1 << 0x04) | (1 << 0x0c));
    let value = keyboard.read_matrix_input();

    assert_eq!(value & 0x02, 0x00);
    assert_eq!(value & 0x04, 0x00);
}

#[test]
fn released_key_no_longer_shows() {
    let mut keyboard = Keyboard::default();
    keyboard.press(MatrixKey::new(0x3a));
    keyboard.press(MatrixKey::new(0x3a));
    keyboard.select_row(0x0a);
    assert_eq!(keyboard.read_matrix_input(), 0xf7);
    keyboard.release(MatrixKey::new(0x3a));
    assert_eq!(keyboard.read_matrix_input(), 0xff);
}

#[test]
fn labels_fall_back_to_characters_and_codes() {
    assert_eq!(matrix_key_label(0x3a), "e");
    assert_eq!(matrix_key_label(0x08), "0x08");
    assert_eq!(matrix_key_for_char('E').map(MatrixKey::code), Some(0x3a));
    assert_eq!(matrix_key_for_char('€'), None);
}
