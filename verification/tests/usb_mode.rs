use neo_re::usb_mode::{
    android_mode, hid_switch_reports, mode_from_devices, neo_mode_of, select_bulk_endpoints, wait_step,
    EndpointError, EndpointInfo, InterfaceSetting, NeoMode, UsbMode, WaitStep, PID_DIRECT, PID_HID, VID,
};

#[test]
fn direct_mode_wins_over_keyboard_mode() {
    assert_eq!(mode_from_devices(&[(VID, PID_HID), (VID, PID_DIRECT)]), NeoMode::Direct);
    assert_eq!(mode_from_devices(&[(0x1234, PID_DIRECT), (VID, PID_HID)]), NeoMode::Hid);
    assert_eq!(mode_from_devices(&[]), NeoMode::Missing);
    assert_eq!(android_mode(&[PID_HID], true), UsbMode::Hid);
    assert_eq!(android_mode(&[], true), UsbMode::HidUnavailable);
    assert_eq!(neo_mode_of(UsbMode::HidUnavailable), NeoMode::HidUnavailable);
    assert_eq!(hid_switch_reports(), [0xE0, 0xE1, 0xE2, 0xE3, 0xE4]);
}

#[test]
fn waiting_gives_up_after_the_last_attempt() {
    assert_eq!(wait_step(NeoMode::Direct, NeoMode::Direct, 0, 40), WaitStep::Found);
    assert_eq!(wait_step(NeoMode::Direct, NeoMode::Hid, 0, 40), WaitStep::SleepAndRetry);
    assert_eq!(wait_step(NeoMode::Direct, NeoMode::Hid, 39, 40), WaitStep::SleepAndGiveUp);
}

#[test]
fn bulk_endpoints_come_from_the_first_complete_setting() {
    let settings = vec![
        InterfaceSetting { interface_number: 0, endpoints: vec![EndpointInfo { bulk: true, input: true, address: 0x81 }] },
        InterfaceSetting {
            interface_number: 1,
            endpoints: vec![
                EndpointInfo { bulk: false, input: true, address: 0x83 },
                EndpointInfo { bulk: true, input: true, address: 0x82 },
                EndpointInfo { bulk: true, input: false, address: 0x02 },
            ],
        },
    ];
    assert_eq!(select_bulk_endpoints(&settings), Ok((1, 0x82, 0x02)));
    assert_eq!(select_bulk_endpoints(&settings[..1].to_vec()), Err(EndpointError::NoBulkPair));
}
