use neo_re::catalog::{BundledCatalog, BundledSource};
use neo_re::checklist::AppletChecklist;
use neo_re::gui_bridge::{
    backup_relative_path, device_mode_dto, inventory_dto, is_android_tree_uri, original_stock_restore_plan_ids,
    install_keys, resolve_applet_flash_plan, safe_name, selection_checklist, verify_installed_applet_id,
    AddedAppletSelectionDto, DeviceModeDto, FlashPlanError, PlanSource,
};
use neo_re::protocol::{FileEntry, SmartAppletRecord};
use neo_re::usb_mode::NeoMode;

#[test]
fn android_tree_uri_targets_are_detected() {
    assert!(is_android_tree_uri("content://com.android.externalstorage.documents/tree/primary%3ADocuments"));
    assert!(!is_android_tree_uri("/tmp/alpha-gui"));
}

#[test]
fn backup_relative_paths_use_forward_slashes() {
    let path = backup_relative_path("backups", "2026-04-27_12-30-00", "slot-01-Notes.txt");
    assert_eq!(path, "backups/2026-04-27_12-30-00/slot-01-Notes.txt");
}

#[test]
fn restore_stock_ids_exclude_alpha_usb_and_system() {
    let ids = original_stock_restore_plan_ids();
    assert_eq!(
        ids,
        vec![0xa000, 0xaf00, 0xaf75, 0xaf02, 0xaf73, 0xaf03, 0xa004, 0xa007, 0xa006, 0xa001, 0xa002, 0xa027, 0xa005]
    );
    assert!(!ids.contains(&0xa130));
    assert!(!ids.contains(&0x0000));
}

#[test]
fn stock_restore_verification_requires_new_id_in_inventory() {
    let installed = vec![SmartAppletRecord {
        applet_id: 0xa000,
        version: "3.4".to_owned(),
        name: "AlphaWord Plus".to_owned(),
        file_size: 1,
        applet_class: 1,
    }];

    assert!(verify_installed_applet_id(&installed, 0xa000).is_ok());
    let error = verify_installed_applet_id(&installed, 0xa001).unwrap_err();
    assert_eq!(error.message, "applet 0xa001 did not appear after install");
}

#[test]
fn relative_paths_drop_surrounding_slashes() {
    assert_eq!(backup_relative_path("/device-backups/", "/t/", "/a/b.txt/"), "device-backups/t/a/b.txt");
    assert_eq!(safe_name("Notes (1)"), "Notes__1");
    assert_eq!(device_mode_dto(NeoMode::HidUnavailable), DeviceModeDto::HidUnavailable);
}

#[test]
fn flash_plan_follows_ticked_rows() {
    let installed = vec![SmartAppletRecord {
        applet_id: 0xa000,
        version: "3.4".to_owned(),
        name: "AlphaWord Plus".to_owned(),
        file_size: 1,
        applet_class: 1,
    }];
    let catalog = BundledCatalog::dev_defaults();
    let checklist = AppletChecklist::from_installed_and_bundled(&installed, &catalog.applets);
    let plan = resolve_applet_flash_plan(&checklist, &catalog, false).unwrap();
    assert_eq!(plan.len(), 1);
    assert_eq!(plan[0].key, "a000");
    assert_eq!(plan[0].source, PlanSource::Bundled(BundledSource::Embedded { name: "A000.os3kapp".to_owned() }));

    let mut unknown = installed.clone();
    unknown[0].applet_id = 0xbeef;
    let checklist = AppletChecklist::from_installed_and_bundled(&unknown, &catalog.applets);
    assert_eq!(
        resolve_applet_flash_plan(&checklist, &catalog, true),
        Err(FlashPlanError::WouldLoseInstalledOnly { applet_id: 0xbeef })
    );
    assert!(resolve_applet_flash_plan(&checklist, &catalog, false).unwrap().is_empty());
}

#[test]
fn inventory_lists_device_and_bundle() {
    let files = vec![FileEntry { slot: 1, name: "File 1".to_owned(), attribute_bytes: 12 }];
    let inventory = inventory_dto(files, Vec::new());
    assert_eq!(inventory.files[0].name, "File 1");
    assert_eq!(inventory.bundled_applets.len(), 15);
    assert_eq!(inventory.applet_rows.len(), 15);
    assert!(inventory.applet_rows.iter().all(|row| !row.installed && !row.checked && row.source_kind == "bundled"));
}

#[test]
fn flash_selection_ticks_listed_keys_and_installs_new_rows() {
    let installed = vec![SmartAppletRecord {
        applet_id: 0xa000,
        version: "3.4".to_owned(),
        name: "AlphaWord Plus".to_owned(),
        file_size: 1,
        applet_class: 1,
    }];
    let catalog = BundledCatalog::dev_defaults();
    let base = AppletChecklist::from_installed_and_bundled(&installed, &catalog.applets);
    let added = vec![AddedAppletSelectionDto {
        key: "file-x".to_owned(),
        path: "/tmp/x.os3kapp".to_owned(),
        display_name: "x".to_owned(),
    }];
    let checked = vec!["a000".to_owned(), "a001".to_owned(), "file-x".to_owned()];
    let checklist = selection_checklist(base, &added, &vec![Some(99)], &checked);
    assert_eq!(checklist.rows.len(), 16);
    assert!(checklist.rows.iter().filter(|row| row.checked).count() == 3);
    assert!(!checklist.requires_clear());
    let keys = install_keys(&checklist, false);
    assert_eq!(keys, vec!["a001".to_owned(), "file-x".to_owned()]);
    let all = install_keys(&checklist, true);
    assert_eq!(all.len(), 3);
    let mut unticked = checklist.clone();
    for row in unticked.rows.iter_mut() {
        if row.key == "a000" {
            row.checked = false;
        }
    }
    assert!(unticked.requires_clear());
}
