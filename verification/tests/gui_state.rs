use neo_re::checklist::{AppletChecklist, AppletChecklistRow, AppletSourceKind};
use neo_re::cli_app::{wrap_index, App, Screen};
use neo_re::gui_state::{
    applet_checklist_with, AddedApplet, BadgeTone, DeviceModeState, GuiModel, TaskEvent,
};
use neo_re::manager::{DeviceMode, OperationProgress, ProgressEvent};
use neo_re::protocol::{FileEntry, SmartAppletRecord};

fn file(slot: u8, name: &str) -> FileEntry {
    FileEntry { slot, name: name.to_owned(), attribute_bytes: 0 }
}

fn applet(id: u16, name: &str) -> SmartAppletRecord {
    SmartAppletRecord { applet_id: id, version: "1.0".to_owned(), name: name.to_owned(), file_size: 10, applet_class: 1 }
}

#[test]
fn badges_name_each_mode() {
    assert_eq!(DeviceModeState::Missing.badge(), ("No device", BadgeTone::Muted));
    assert_eq!(DeviceModeState::Hid.badge(), ("Keyboard mode", BadgeTone::AccentDark));
    assert_eq!(DeviceModeState::HidUnavailable.badge(), ("HID unavailable", BadgeTone::Danger));
    assert_eq!(DeviceModeState::Direct.badge(), ("Direct USB", BadgeTone::Success));
    assert_eq!(DeviceModeState::Unknown.badge(), ("Checking", BadgeTone::Muted));
    assert_eq!(DeviceMode::from(DeviceModeState::HidUnavailable), DeviceMode::HidUnavailable);
}

#[test]
fn fresh_window_has_one_log_line() {
    let model = GuiModel::new();
    assert_eq!(model.status, "Alpha GUI ready. Refresh inventory when the NEO is connected.");
    assert_eq!(model.logs, vec!["Alpha GUI initialized.".to_owned()]);
    assert_eq!(model.mode, DeviceModeState::Unknown);
}

#[test]
fn log_panel_keeps_last_two_hundred_lines() {
    let mut model = GuiModel::new();
    for i in 0..250 {
        model.push_log(format!("line {i}"));
    }
    assert_eq!(model.logs.len(), 200);
    assert_eq!(model.logs[0], "line 50");
    assert_eq!(model.logs[199], "line 249");
}

#[test]
fn log_and_status_reports_keep_task_running() {
    let mut model = GuiModel::new();
    assert!(model.apply_task_event(TaskEvent::Log("reading".to_owned())));
    assert!(model.apply_task_event(TaskEvent::Status("busy".to_owned())));
    assert_eq!(model.status, "busy");
    assert_eq!(model.logs.last().unwrap(), "reading");
}

#[test]
fn progress_report_updates_panel() {
    let mut model = GuiModel::new();
    model.operation_progress = Some(OperationProgress::new("Backup"));
    assert!(model.apply_task_event(TaskEvent::Progress(ProgressEvent::Log("slot 1".to_owned()))));
    assert_eq!(model.operation_progress.as_ref().unwrap().logs, vec!["slot 1".to_owned()]);
}

#[test]
fn inventory_report_ends_task_and_clamps_selection() {
    let mut model = GuiModel::new();
    model.selected_slot = 5;
    model.selected_applet = 3;
    let keep = model.apply_task_event(TaskEvent::Inventory {
        files: vec![file(1, "a"), file(2, "b")],
        applets: vec![],
        note: "Loaded 2 files".to_owned(),
    });
    assert!(!keep);
    assert_eq!(model.selected_slot, 1);
    assert_eq!(model.selected_applet, 0);
    assert_eq!(model.status, "Loaded 2 files");
    assert_eq!(model.last_operation_summary.as_deref(), Some("Loaded 2 files"));
    assert_eq!(model.logs.last().unwrap(), "Loaded 2 files");
    model.applets = vec![applet(0xA130, "AlphaWord")];
    model.end_task();
    assert!(model.operation_progress.is_none());
}

#[test]
fn failure_report_sets_error() {
    let mut model = GuiModel::new();
    let keep = model.apply_task_event(TaskEvent::Failed { message: "USB timeout".to_owned() });
    assert!(!keep);
    assert_eq!(model.status, "Last operation failed.");
    assert_eq!(model.error.as_deref(), Some("USB timeout"));
    assert_eq!(model.logs.last().unwrap(), "ERROR: USB timeout");
}

#[test]
fn finished_report_records_summary() {
    let mut model = GuiModel::new();
    assert!(!model.apply_task_event(TaskEvent::Finished { note: "Backup saved".to_owned() }));
    assert_eq!(model.last_operation_summary.as_deref(), Some("Backup saved"));
}

#[test]
fn checklist_adds_files_and_applies_ticks() {
    let base = AppletChecklist {
        rows: vec![AppletChecklistRow {
            key: "installed-a130".to_owned(),
            display_name: "AlphaWord".to_owned(),
            version: Some("3.4".to_owned()),
            size: None,
            installed: true,
            checked: true,
            source: AppletSourceKind::InstalledOnly { applet_id: 0xA130 },
        }],
    };
    let added = vec![
        AddedApplet { path: "/tmp/x.os3kapp".to_owned(), display_name: "x".to_owned(), size: Some(12) },
        AddedApplet { path: "/tmp/y.os3kapp".to_owned(), display_name: "y".to_owned(), size: None },
    ];
    let checks = vec![("installed-a130".to_owned(), false), ("file-/tmp/y.os3kapp".to_owned(), false)];
    let checklist = applet_checklist_with(base, &added, &checks);
    assert_eq!(checklist.rows.len(), 3);
    assert!(!checklist.rows[0].checked);
    assert_eq!(checklist.rows[1].key, "file-/tmp/x.os3kapp");
    assert!(checklist.rows[1].checked);
    assert_eq!(checklist.rows[1].size, Some(12));
    assert_eq!(
        checklist.rows[1].source,
        AppletSourceKind::AddedFromFile { path: "/tmp/x.os3kapp".to_owned() }
    );
    assert!(!checklist.rows[2].checked);
}

#[test]
fn selection_wraps_both_ways() {
    assert_eq!(wrap_index(0, 3, -1), 2);
    assert_eq!(wrap_index(2, 3, 1), 0);
    assert_eq!(wrap_index(1, 3, 1), 2);
    assert_eq!(wrap_index(4, 0, 1), 0);
    let mut app = App::new();
    app.files = vec![file(1, "a"), file(2, "b")];
    app.screen = Screen::Files;
    app.move_selection(-1);
    assert_eq!(app.file_selected, 2);
    app.move_selection(1);
    assert_eq!(app.file_selected, 0);
}
