use neo_re::gui_bridge::{is_android_content_uri, parse_picker_result, pick_backup_folder, PICKER_ERROR_PREFIX};

#[test]
fn empty_picker_result_is_cancel() {
    assert_eq!(parse_picker_result("").unwrap(), None);
}

#[test]
fn picker_error_marker_becomes_error() {
    let error = parse_picker_result(&format!("{PICKER_ERROR_PREFIX}folder picker failed")).unwrap_err();
    assert!(error.message.contains("folder picker failed"));
    assert_eq!(error.message, "folder picker failed");
}

#[test]
fn content_uri_detection_is_strict() {
    assert!(is_android_content_uri("content://com.android.providers/foo"));
    assert!(!is_android_content_uri("/sdcard/Download/foo.os3kapp"));
}

#[test]
fn picked_folder_is_returned_whole() {
    let uri = "content://com.android.externalstorage.documents/tree/primary%3ADocuments";
    assert_eq!(parse_picker_result(uri).unwrap(), Some(uri.to_owned()));
    assert!(pick_backup_folder().is_err());
}
