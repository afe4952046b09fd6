use neo_re::catalog::{BundledApplet, BundledAppletKind, BundledSource};
use neo_re::checklist::{
    count_ticked_without_source, custom_applet_key, custom_applet_path, flash_click, AppletChecklist,
    AppletChecklistRow, AppletFlashPlan, AppletSourceKind, CustomAppletError, FlashClick,
};
use neo_re::protocol::SmartAppletRecord;

fn installed() -> Vec<SmartAppletRecord> {
    vec![SmartAppletRecord {
        applet_id: 0xa000,
        version: "1.0".to_owned(),
        name: "AlphaWord".to_owned(),
        file_size: 1024,
        applet_class: 1,
    }]
}

fn bundled() -> Vec<BundledApplet> {
    vec![BundledApplet {
        id: "alpha-usb".to_owned(),
        applet_id: Some(0xa130),
        name: "Alpha USB".to_owned(),
        version: Some("0.1".to_owned()),
        size: Some(512),
        kind: BundledAppletKind::AlphaUsb,
        source: BundledSource::DevPath("alpha-usb.os3kapp".to_owned()),
    }]
}

#[test]
fn installed_applets_start_checked() {
    let state = AppletChecklist::from_installed_and_bundled(&installed(), &[]);
    assert!(state.rows.iter().all(|row| row.checked));
}

#[test]
fn bundled_missing_applets_start_unchecked() {
    let state = AppletChecklist::from_installed_and_bundled(&installed(), &bundled());
    let row = state.rows.iter().find(|row| row.key == "alpha-usb").unwrap();
    assert!(!row.installed);
    assert!(!row.checked);
}

#[test]
fn selecting_only_new_bundled_applet_is_install_only() {
    let state = AppletChecklist::from_installed_and_bundled(&installed(), &bundled());
    let changed = state.with_checked("alpha-usb", true);
    assert_eq!(changed.plan(), AppletFlashPlan::InstallOnly { count: 1 });
}

#[test]
fn unchecking_installed_applet_requires_clear_reinstall() {
    let state = AppletChecklist::from_installed_and_bundled(&installed(), &bundled());
    let changed = state.with_checked("installed-a000", false);
    assert_eq!(changed.plan(), AppletFlashPlan::ClearAndReinstall { count: 0 });
}

#[test]
fn fresh_checklist_plans_no_changes_and_is_sorted() {
    let state = AppletChecklist::from_installed_and_bundled(&installed(), &bundled());
    assert_eq!(state.plan(), AppletFlashPlan::NoChanges);
    let names: Vec<&str> = state.rows.iter().map(|row| row.display_name.as_str()).collect();
    assert_eq!(names, vec!["Alpha USB", "AlphaWord"]);
}

#[test]
fn installed_applet_with_bundled_id_uses_the_bundle_key() {
    let mut records = installed();
    records[0].applet_id = 0xa130;
    let state = AppletChecklist::from_installed_and_bundled(&records, &bundled());
    assert_eq!(state.rows.len(), 1);
    assert_eq!(state.rows[0].key, "alpha-usb");
    assert!(state.rows[0].installed);
}

#[test]
fn unknown_key_leaves_checklist_unchanged() {
    let state = AppletChecklist::from_installed_and_bundled(&installed(), &bundled());
    let same = state.clone().with_checked("missing", true);
    assert_eq!(same, state);
}

#[test]
fn rows_of_the_same_name_keep_installed_before_bundled() {
    let mut same_name = bundled();
    same_name[0].name = "AlphaWord".to_owned();
    let mut records = installed();
    records.push(SmartAppletRecord {
        applet_id: 0xa001,
        version: "2.0".to_owned(),
        name: "Able".to_owned(),
        file_size: 10,
        applet_class: 1,
    });
    let state = AppletChecklist::from_installed_and_bundled(&records, &same_name);
    let keys: Vec<&str> = state.rows.iter().map(|row| row.key.as_str()).collect();
    assert_eq!(keys, vec!["installed-a001", "installed-a000", "alpha-usb"]);
}

fn ticked_row(key: &str, checked: bool) -> AppletChecklistRow {
    AppletChecklistRow {
        key: key.to_owned(),
        display_name: key.to_owned(),
        version: None,
        size: None,
        installed: false,
        checked,
        source: AppletSourceKind::AddedFromFile { path: format!("/tmp/{key}.os3kapp") },
    }
}

#[test]
fn ticked_rows_without_an_image_are_counted() {
    let rows = vec![ticked_row("a", true), ticked_row("b", false), ticked_row("c", true), ticked_row("d", true)];
    assert_eq!(count_ticked_without_source(&rows, &vec![true, false, false]), 2);
    assert_eq!(count_ticked_without_source(&rows, &vec![true, true, true, true]), 0);
}

#[test]
fn flash_click_refuses_a_reinstall_with_missing_images() {
    assert_eq!(flash_click(AppletFlashPlan::NoChanges, 3), FlashClick::Nothing);
    assert_eq!(flash_click(AppletFlashPlan::InstallOnly { count: 2 }, 3), FlashClick::InstallSelected);
    assert_eq!(flash_click(AppletFlashPlan::ClearAndReinstall { count: 2 }, 3), FlashClick::MissingSources { count: 3 });
    assert_eq!(flash_click(AppletFlashPlan::ClearAndReinstall { count: 2 }, 0), FlashClick::ConfirmClearReinstall);
}

#[test]
fn custom_applet_paths_need_the_applet_extension() {
    assert_eq!(custom_applet_path("  /tmp/Thing.os3kapp \n"), Ok("/tmp/Thing.os3kapp".to_owned()));
    assert_eq!(custom_applet_path("/tmp/a.b.os3kapp"), Ok("/tmp/a.b.os3kapp".to_owned()));
    assert_eq!(custom_applet_path("/tmp/thing.txt"), Err(CustomAppletError::NotAppletFile));
    assert_eq!(custom_applet_path("/tmp/.os3kapp"), Err(CustomAppletError::NotAppletFile));
    assert_eq!(custom_applet_path(""), Err(CustomAppletError::NotAppletFile));
    assert_eq!(CustomAppletError::NotAppletFile.message(), "custom applet must be a .os3kapp file");
    assert_eq!(
        CustomAppletError::Missing { path: "/tmp/x.os3kapp".to_owned() }.message(),
        "custom applet does not exist: /tmp/x.os3kapp"
    );
    assert_eq!(custom_applet_key("/tmp/x.os3kapp"), "file-/tmp/x.os3kapp");
}
