use neo_re::manager::{ConnectionAction, ConnectionGate, DeviceMode, MainTab, PlatformCapabilities};

#[test]
fn hides_tabs_until_direct_usb() {
    assert!(!ConnectionGate::from_mode(DeviceMode::Missing, PlatformCapabilities::desktop()).tabs_visible());
    assert!(ConnectionGate::from_mode(DeviceMode::Direct, PlatformCapabilities::desktop()).tabs_visible());
}

#[test]
fn desktop_hid_requests_auto_switch() {
    assert_eq!(
        ConnectionGate::from_mode(DeviceMode::Hid, PlatformCapabilities::desktop()).action,
        ConnectionAction::AutoSwitchToDirect
    );
}

#[test]
fn mobile_hid_shows_alpha_usb_instruction() {
    assert_eq!(
        ConnectionGate::from_mode(DeviceMode::Hid, PlatformCapabilities::mobile()).action,
        ConnectionAction::InstallAlphaUsbFromDesktop
    );
}

#[test]
fn mobile_direct_enters_native_manager_ui() {
    let gate = ConnectionGate::from_mode(DeviceMode::Direct, PlatformCapabilities::mobile());
    assert!(gate.tabs_visible());
}

#[test]
fn gate_messages_match_each_mode() {
    let desktop = PlatformCapabilities::desktop();
    assert_eq!(ConnectionGate::from_mode(DeviceMode::Missing, desktop).message, "Connect your AlphaSmart NEO over USB.");
    assert_eq!(ConnectionGate::from_mode(DeviceMode::Unknown, desktop).action, ConnectionAction::Retry);
    assert_eq!(ConnectionGate::from_mode(DeviceMode::HidUnavailable, desktop).action, ConnectionAction::Retry);
    let headless = PlatformCapabilities { can_run_manager_operations: false, ..desktop };
    let gate = ConnectionGate::from_mode(DeviceMode::Direct, headless);
    assert_eq!(gate.action, ConnectionAction::Retry);
    assert!(!gate.tabs_visible());
}

#[test]
fn tab_labels_and_icons() {
    assert_eq!(MainTab::OsOperations.label(), "OS Operations");
    assert_eq!(MainTab::Dashboard.icon(), "▣");
    assert_eq!(MainTab::About.icon(), "?");
}
