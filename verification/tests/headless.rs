use neo_re::headless::{
    headless_schedule, parse_hold_event, parse_key_event, parse_key_list, parse_key_name_list,
    parse_sample_lcd_after, parse_type_event, parse_u32_arg, ArgError, HeadlessAction,
};

#[test]
fn option_values_parse() {
    assert_eq!(parse_sample_lcd_after("1000:5"), Ok((1000, 5)));
    assert_eq!(parse_type_event("300:hello: world"), Ok((300, "hello: world".to_owned())));
    assert_eq!(parse_u32_arg("0x41f9a0"), Ok(0x41f9a0));
    assert_eq!(parse_u32_arg("+42"), Ok(42));
    assert_eq!(parse_key_list("0x6e,96,0x162"), Ok(vec![0x6e, 96, 0x62]));
    assert_eq!(parse_key_event("1200:Enter"), Ok((1200, 0x69)));
    assert_eq!(parse_key_name_list("up,down,0x0c"), Ok(vec![0x77, 0x15, 0x0c]));
    assert_eq!(parse_hold_event("10-20:tab"), Ok((10, 20, 0x0c)));
}

#[test]
fn option_values_refused() {
    assert_eq!(
        parse_sample_lcd_after("1000"),
        Err(ArgError::Usage("--sample-lcd-after expects INTERVAL_STEPS:COUNT".to_owned()))
    );
    assert_eq!(parse_type_event("x:abc"), Err(ArgError::Number("x".to_owned())));
    assert_eq!(parse_u32_arg("0x1_0000_0000"), Err(ArgError::Number("0x1_0000_0000".to_owned())));
    assert_eq!(parse_u32_arg("4294967296"), Err(ArgError::Number("4294967296".to_owned())));
    assert_eq!(parse_u32_arg(""), Err(ArgError::Number(String::new())));
    assert!(matches!(parse_key_event("5:nokey"), Err(ArgError::Key(_))));
    assert_eq!(parse_hold_event("10:tab"), Err(ArgError::Usage("--hold-key expects START-END:KEY".to_owned())));
    assert_eq!(parse_key_list("1,,2"), Err(ArgError::Number(String::new())));
}

#[test]
fn events_play_in_step_order() {
    let actions = headless_schedule(
        vec![(50, "hi".to_owned()), (10, "a".to_owned())],
        vec![(10, 0x69), (5, 0x77)],
        vec![(10, 0x0c)],
        vec![(8, 30, 0x6e)],
    );
    assert_eq!(
        actions,
        vec![
            HeadlessAction::TapKey { step: 5, code: 0x77 },
            HeadlessAction::HoldKey { step: 8, pressed: true, code: 0x6e },
            HeadlessAction::TypeText { step: 10, text: "a".to_owned() },
            HeadlessAction::TapKey { step: 10, code: 0x69 },
            HeadlessAction::TapKeyAllRows { step: 10, code: 0x0c },
            HeadlessAction::HoldKey { step: 30, pressed: false, code: 0x6e },
            HeadlessAction::TypeText { step: 50, text: "hi".to_owned() },
        ]
    );
}

#[test]
fn equal_steps_keep_their_order() {
    let actions = headless_schedule(vec![], vec![(3, 1), (1, 2), (3, 3)], vec![], vec![]);
    assert_eq!(
        actions,
        vec![
            HeadlessAction::TapKey { step: 1, code: 2 },
            HeadlessAction::TapKey { step: 3, code: 1 },
            HeadlessAction::TapKey { step: 3, code: 3 },
        ]
    );
}
