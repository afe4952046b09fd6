use neo_re::applets::{define_alpha_usb, find};
use neo_re::compiler::{compile_applet, CompileError};
use neo_re::sdk::{Action, AppletDefinition, Message};

#[test]
fn generated_registry_contains_alpha_usb() {
    let package = find("alpha_usb").expect("alpha_usb should be discovered");
    assert_eq!(package.output_filename, "alpha-usb.os3kapp");
    assert!(find("missing").is_none());
}

#[test]
fn registry_contains_alpha_usb() {
    let package = find("alpha_usb").expect("alpha_usb should be registered");
    assert_eq!(package.output_filename, "alpha-usb.os3kapp");
    assert!(find("missing").is_none());
}

#[test]
fn compiles_alpha_usb_from_sdk_definition() {
    let code = compile_applet(&define_alpha_usb()).unwrap();

    assert!(code.starts_with(&[0x20, 0x6F, 0x00, 0x0C]));
    assert!(code.windows(6).any(|window| window == [0x4E, 0xB9, 0x00, 0x44, 0x04, 0x7C]));
    assert!(code.windows(6).any(|window| window == [0x4E, 0xB9, 0x00, 0x41, 0x0B, 0x26]));
    assert!(code.windows(4).any(|window| window == [0x72, 0x11, 0x20, 0x81]));
    assert!(code.ends_with(&[0xA0, 0x00, 0xA0, 0x04, 0xA0, 0x10, 0xA0, 0x98, 0xA2, 0x5C]));
}

fn branch_target(code: &[u8], site: usize) -> usize {
    let d = i16::from_be_bytes([code[site + 2], code[site + 3]]);
    (site as isize + 2 + d as isize) as usize
}

#[test]
fn dispatcher_branches_land_on_their_handlers() {
    let code = compile_applet(&define_alpha_usb()).unwrap();
    assert_eq!(branch_target(&code, 16), 144);
    assert_eq!(branch_target(&code, 140), 144);
    assert_eq!(&code[144..146], &[0x4E, 0x75]);
    for site in (16..=136).step_by(10) {
        assert_eq!(code[site], 0x67);
        let target = branch_target(&code, site);
        assert!(target >= 144 && target < code.len());
    }
}

#[test]
fn missing_handler_is_reported() {
    let mut definition = define_alpha_usb();
    definition.handlers.retain(|handler| handler.message != Message::UsbPlug);
    assert_eq!(compile_applet(&definition), Err(CompileError::MissingHandler(Message::UsbPlug)));
    assert_eq!(CompileError::MissingHandler(Message::OtherUsb(7)).message(), "missing handler for OtherUsb(7)");
}

#[test]
fn alpha_usb_focus_handler_writes_instructions() {
    let definition: AppletDefinition = define_alpha_usb();
    assert_eq!(definition.handlers.len(), 13);
    let focus = definition.handlers.iter().find(|handler| handler.message == Message::SetFocus).unwrap();
    assert_eq!(focus.actions[0], Action::ClearScreen);
    assert_eq!(
        focus.actions[1],
        Action::WriteLines {
            start_row: 2,
            lines: vec!["Now connect the NEO", "to your computer or", "smartphone via USB."],
        }
    );
    assert_eq!(focus.actions[2], Action::IdleForever);
}

#[test]
fn dispatcher_compares_each_message_in_order() {
    let code = compile_applet(&define_alpha_usb()).unwrap();
    let messages: [u32; 13] =
        [0x18, 0x19, 0x20, 0x21, 0x26, 0x10001, 0x30001, 0x20001, 0x10003, 0x10006, 0x20002, 0x20006, 0x2011F];
    for (i, message) in messages.iter().enumerate() {
        let at = 10 + 10 * i;
        assert_eq!(&code[at..at + 2], &[0x0C, 0x80]);
        assert_eq!(&code[at + 2..at + 6], &message.to_be_bytes());
        assert_eq!(&code[at + 6..at + 8], &[0x67, 0x00]);
    }
    assert_eq!(branch_target(&code, 26), 146);
    for site in (96..=136).step_by(10) {
        assert_eq!(branch_target(&code, site), branch_target(&code, 36));
    }
    assert_eq!(&code[140..142], &[0x60, 0x00]);
}

#[test]
fn key_handler_shares_the_char_block_when_their_actions_match() {
    let code = compile_applet(&define_alpha_usb()).unwrap();
    assert_eq!(branch_target(&code, 46), branch_target(&code, 36));
}

#[test]
fn key_handler_gets_its_own_block_when_its_actions_differ() {
    let mut definition = define_alpha_usb();
    for handler in definition.handlers.iter_mut() {
        if handler.message == Message::Key {
            handler.actions = vec![Action::ReturnStatus(0x05)];
        }
    }
    let code = compile_applet(&definition).unwrap();
    assert_ne!(branch_target(&code, 46), branch_target(&code, 36));
}

#[test]
fn alpha_usb_plug_handler_switches_to_direct_mode() {
    let definition = define_alpha_usb();
    let plug = definition.handlers.iter().find(|handler| handler.message == Message::UsbPlug).unwrap();
    assert_eq!(plug.actions, vec![Action::CompleteHidToDirect, Action::MarkDirectConnected, Action::ReturnStatus(0x11)]);
}

#[test]
fn text_rows_past_the_last_are_refused() {
    let mut definition = define_alpha_usb();
    for handler in definition.handlers.iter_mut() {
        if handler.message == Message::SetFocus {
            handler.actions = vec![Action::WriteLines { start_row: 255, lines: vec!["a", "b"] }];
        }
    }
    assert_eq!(compile_applet(&definition), Err(CompileError::UnsupportedAction));
}

#[test]
fn the_last_text_row_is_accepted() {
    let mut definition = define_alpha_usb();
    for handler in definition.handlers.iter_mut() {
        if handler.message == Message::SetFocus {
            handler.actions = vec![Action::WriteLines { start_row: 254, lines: vec!["a", "b"] }];
        }
    }
    assert!(compile_applet(&definition).is_ok());
}
