use neo_re::lcd::{Lcd, LCD_WIDTH};

#[test]
fn data_write_sets_vertical_pixels_and_advances_column() {
    let mut lcd = Lcd::new();

    lcd.write_command(0, 0xb1);
    lcd.write_command(0, 0x11);
    lcd.write_command(0, 0x02);
    lcd.write_data(0, 0b0000_0101);

    let snapshot = lcd.snapshot();
    let x = 0x12;
    assert!(snapshot.pixels[8 * LCD_WIDTH + x]);
    assert!(!snapshot.pixels[9 * LCD_WIDTH + x]);
    assert!(snapshot.pixels[10 * LCD_WIDTH + x]);
}

#[test]
fn right_controller_maps_to_right_half() {
    let mut lcd = Lcd::new();

    lcd.write_command(1, 0xb0);
    lcd.write_data(1, 0x01);

    let snapshot = lcd.snapshot();
    assert!(snapshot.pixels[132]);
    assert!(!snapshot.pixels[0]);
}

#[test]
fn reverse_display_command_inverts_visible_pixels() {
    let mut lcd = Lcd::new();

    lcd.write_command(0, 0xa7);
    lcd.write_command(0, 0xb0);
    lcd.write_data(0, 0x00);

    let snapshot = lcd.snapshot();
    assert!(snapshot.pixels[0]);
}

#[test]
fn display_start_line_command_does_not_reset_column() {
    let mut lcd = Lcd::new();

    lcd.write_command(0, 0xb0);
    lcd.write_command(0, 0x10);
    lcd.write_command(0, 0x05);
    lcd.write_command(0, 0x40);
    lcd.write_data(0, 0x01);

    let snapshot = lcd.snapshot();
    assert!(!snapshot.pixels[0]);
    assert!(snapshot.pixels[5]);
}

#[test]
fn data_read_returns_framebuffer_byte_and_advances_column() {
    let mut lcd = Lcd::new();

    lcd.write_command(0, 0xb0);
    lcd.write_command(0, 0x03);
    lcd.write_data(0, 0x5a);
    lcd.write_command(0, 0x03);

    assert_eq!(lcd.read_data(0), 0x5a);
    lcd.write_data(0, 0x33);

    let snapshot = lcd.snapshot();
    assert!(snapshot.pixels[LCD_WIDTH + 3]);
    assert!(snapshot.pixels[4]);
}

#[test]
fn read_modify_write_read_does_not_advance_column_until_write() {
    let mut lcd = Lcd::new();

    lcd.write_command(0, 0xb0);
    lcd.write_command(0, 0x04);
    lcd.write_data(0, 0x5a);
    lcd.write_command(0, 0x04);
    lcd.write_command(0, 0xe0);

    assert_eq!(lcd.read_data(0), 0x5a);
    lcd.write_data(0, 0x00);

    let snapshot = lcd.snapshot();
    assert!(!snapshot.pixels[4]);
}

#[test]
fn end_of_read_modify_write_restores_column() {
    let mut lcd = Lcd::new();
    lcd.write_command(0, 0xb0);
    lcd.write_command(0, 0x07);
    lcd.write_command(0, 0xe0);
    lcd.write_data(0, 0x01);
    lcd.write_data(0, 0x01);
    lcd.write_command(0, 0xee);
    lcd.write_data(0, 0x80);
    let snapshot = lcd.snapshot();
    assert!(snapshot.pixels[7 * 1 + 7 * LCD_WIDTH]);
    assert!(!snapshot.pixels[7]);
}

#[test]
fn display_off_blanks_and_sets_status() {
    let mut lcd = Lcd::new();
    lcd.write_command(0, 0xb0);
    lcd.write_data(0, 0xff);
    lcd.write_command(0, 0xae);
    assert_eq!(lcd.read_status(0), 0x20);
    assert_eq!(lcd.read_status(1), 0x00);
    assert_eq!(lcd.read_status(7), 0x00);
    assert!(!lcd.snapshot().pixels[0]);
    lcd.write_command(0, 0xaf);
    assert!(lcd.snapshot().pixels[0]);
}
