use neo_re::keyboard::{matrix_cells, matrix_key_is_character, matrix_key_label};
use neo_re::lcd::{visible_viewport, NEO_VISIBLE_LCD_HEIGHT, NEO_VISIBLE_LCD_WIDTH};

#[test]
fn non_character_matrix_keys_are_gui_button_candidates() {
    let labels = matrix_cells()
        .into_iter()
        .filter(|cell| !matrix_key_is_character(cell.raw.code()))
        .map(|cell| matrix_key_label(cell.raw.code()))
        .collect::<Vec<_>>();

    for expected in [
        "File 1",
        "Print",
        "Spell Check",
        "Find",
        "Clear File",
        "Applets",
        "Send",
        "Up",
        "Down",
        "Left",
        "Right",
    ] {
        assert!(
            labels.iter().any(|label| label == expected),
            "missing {expected}"
        );
    }
}

#[test]
fn gui_uses_neo_visible_lcd_viewport_height() {
    assert_eq!(NEO_VISIBLE_LCD_HEIGHT, 64);
}

#[test]
fn gui_uses_square_pixel_viewport_matching_neo_screen_ratio() {
    assert_eq!(NEO_VISIBLE_LCD_WIDTH, 264);
    assert_eq!(NEO_VISIBLE_LCD_HEIGHT, 64);
}

#[test]
fn visible_viewport_clips_the_full_lcd_to_the_neo_window() {
    assert_eq!(visible_viewport(320, 128), (264, 64));
    assert_eq!(visible_viewport(100, 20), (100, 20));
}

#[test]
fn letters_are_characters_and_arrows_are_not() {
    assert!(matrix_key_is_character(0x2c));
    assert!(!matrix_key_is_character(0x77));
}
