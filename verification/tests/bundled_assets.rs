use std::collections::BTreeSet;

use neo_re::catalog::{BundledAppletKind, BundledCatalog, BundledOsImageKind, BundledSource};

#[test]
fn catalog_contains_alpha_usb() {
    let catalog = BundledCatalog::dev_defaults();
    assert!(catalog.applets.iter().any(|item| item.kind == BundledAppletKind::AlphaUsb));
}

#[test]
fn stock_workflows_do_not_require_user_paths() {
    let catalog = BundledCatalog::dev_defaults();
    assert!(catalog.applets.iter().all(|item| item.source.is_resolvable_without_picker()));
    assert!(catalog.os_images.iter().all(|item| item.source.is_resolvable_without_picker()));
}

#[test]
fn bundled_catalog_has_unique_known_applet_ids() {
    let catalog = BundledCatalog::dev_defaults();
    let ids = catalog.applets.iter().filter_map(|item| item.applet_id).collect::<Vec<_>>();
    let unique = ids.iter().copied().collect::<BTreeSet<_>>();
    assert_eq!(ids.len(), unique.len());
}

#[test]
fn catalog_exposes_system_image_but_no_firmware_image() {
    let catalog = BundledCatalog::dev_defaults();
    assert!(catalog.os_image_by_kind(BundledOsImageKind::System).is_some());
    assert!(catalog.os_image_by_kind(BundledOsImageKind::Firmware).is_none());
}

#[test]
fn original_stock_restore_order_excludes_alpha_usb_and_system() {
    let catalog = BundledCatalog::dev_defaults();
    let ordered = catalog.original_stock_restore_applets();
    let ids = ordered.iter().filter_map(|item| item.applet_id).collect::<Vec<_>>();
    assert!(!ids.contains(&0xa130), "Alpha USB must not be restored here");
    assert!(!ids.contains(&0x0000), "System applet must not be restored here");
    assert_eq!(
        ids,
        vec![0xa000, 0xaf00, 0xaf75, 0xaf02, 0xaf73, 0xaf03, 0xa004, 0xa007, 0xa006, 0xa001, 0xa002, 0xa027, 0xa005]
    );
}

#[test]
fn original_stock_restore_order_is_resolvable_without_picker() {
    let catalog = BundledCatalog::dev_defaults();
    assert!(catalog
        .original_stock_restore_applets()
        .iter()
        .all(|item| item.kind == BundledAppletKind::Stock && item.source.is_resolvable_without_picker()));
}

#[test]
fn stock_entries_are_named_after_their_files() {
    let catalog = BundledCatalog::dev_defaults();
    let a000 = catalog.applets.iter().find(|item| item.applet_id == Some(0xa000)).unwrap();
    assert_eq!(a000.id, "a000");
    assert_eq!(a000.name, "A000");
    assert_eq!(a000.source, BundledSource::Embedded { name: "A000.os3kapp".to_owned() });
    let names: Vec<&str> = catalog.applets.iter().map(|item| item.name.as_str()).collect();
    let mut sorted = names.clone();
    sorted.sort();
    assert_eq!(names, sorted);
    assert_eq!(BundledSource::DevPath("x.os3kapp".to_owned()).path(), Some("x.os3kapp"));
    assert_eq!(a000.source.path(), None);
}

#[test]
fn asset_sizes_fill_the_applets_in_order() {
    let catalog = BundledCatalog::dev_defaults();
    let count = catalog.applets.len();
    let sized = catalog.clone().with_asset_sizes(&[100, 200]);
    assert_eq!(sized.applets.len(), count);
    assert_eq!(sized.applets[0].size, Some(100));
    assert_eq!(sized.applets[1].size, Some(200));
    assert_eq!(sized.applets[2].size, None);
    assert_eq!(sized.applets[0].id, catalog.applets[0].id);
    assert_eq!(sized.os_images, catalog.os_images);
}
