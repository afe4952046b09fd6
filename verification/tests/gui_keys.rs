use neo_re::gui_keys::{
    key_change, matrix_code_for_key, matrix_tap_for_key, plus_chord, GuiKey, KeyChange, MatrixTap, ModifierMatrixState,
};

#[test]
fn whitespace_and_editing_keys_are_covered_as_physical_keys() {
    let expected = [
        (GuiKey::Space, 0x79),
        (GuiKey::Tab, 0x0c),
        (GuiKey::Enter, 0x69),
        (GuiKey::Backspace, 0x09),
        (GuiKey::Delete, 0x61),
        (GuiKey::Escape, 0x74),
    ];
    for (key, code) in expected {
        assert_eq!(matrix_code_for_key(key), Some(code));
    }
}

#[test]
fn arrows_are_covered_as_physical_keys() {
    assert_eq!(matrix_code_for_key(GuiKey::ArrowUp), Some(0x77));
    assert_eq!(matrix_code_for_key(GuiKey::ArrowDown), Some(0x15));
    assert_eq!(matrix_code_for_key(GuiKey::ArrowLeft), Some(0x75));
    assert_eq!(matrix_code_for_key(GuiKey::ArrowRight), Some(0x76));
}

#[test]
fn alphabet_keys_are_available_for_keyboard_shortcuts() {
    let expected = [
        (GuiKey::A, 0x2c),
        (GuiKey::E, 0x3a),
        (GuiKey::I, 0x30),
        (GuiKey::K, 0x20),
        (GuiKey::Q, 0x3c),
        (GuiKey::R, 0x3d),
        (GuiKey::T, 0x0d),
        (GuiKey::W, 0x3b),
        (GuiKey::Z, 0x6c),
    ];
    for (key, code) in expected {
        assert_eq!(matrix_code_for_key(key), Some(code));
    }
}

#[test]
fn number_keys_are_available_for_keyboard_shortcuts() {
    let expected = [
        (GuiKey::Num0, 0x53),
        (GuiKey::Num1, 0x5c),
        (GuiKey::Num2, 0x5b),
        (GuiKey::Num3, 0x5a),
        (GuiKey::Num4, 0x5d),
        (GuiKey::Num5, 0x4d),
        (GuiKey::Num6, 0x4f),
        (GuiKey::Num7, 0x5f),
        (GuiKey::Num8, 0x50),
        (GuiKey::Num9, 0x52),
    ];
    for (key, code) in expected {
        assert_eq!(matrix_code_for_key(key), Some(code));
    }
}

#[test]
fn punctuation_and_calculator_operator_keys_are_physical_keys() {
    let expected = [
        (GuiKey::Minus, 0x43),
        (GuiKey::Equals, 0x40),
        (GuiKey::Slash, 0x73),
        (GuiKey::Questionmark, 0x73),
        (GuiKey::Period, 0x62),
        (GuiKey::Comma, 0x60),
        (GuiKey::Semicolon, 0x23),
        (GuiKey::Colon, 0x23),
        (GuiKey::Backslash, 0x29),
        (GuiKey::Pipe, 0x29),
    ];
    for (key, code) in expected {
        assert_eq!(matrix_code_for_key(key), Some(code));
    }
    assert_eq!(matrix_tap_for_key(GuiKey::Plus), Some(MatrixTap::Chord(plus_chord())));
}

#[test]
fn other_keys_do_nothing_and_held_keys_change_on_edges() {
    assert_eq!(matrix_code_for_key(GuiKey::Other), None);
    assert_eq!(matrix_tap_for_key(GuiKey::Other), None);
    assert_eq!(matrix_tap_for_key(GuiKey::Q), Some(MatrixTap::Key(0x3c)));
    assert_eq!(key_change(false, true), KeyChange::Press);
    assert_eq!(key_change(true, false), KeyChange::Release);
    assert_eq!(key_change(true, true), KeyChange::Unchanged);
}

#[test]
fn modifiers_follow_host_keys() {
    let mut state = ModifierMatrixState::default();
    let next = ModifierMatrixState { shift: true, ctrl: false, command: true, option: false };
    assert_eq!(state.sync(next), vec![(0x6e, KeyChange::Press), (0x14, KeyChange::Press)]);
    assert_eq!(state, next);
    let released = ModifierMatrixState { shift: false, ctrl: true, command: true, option: false };
    assert_eq!(state.sync(released), vec![(0x6e, KeyChange::Release), (0x7c, KeyChange::Press)]);
    assert!(state.sync(released).is_empty());
}
