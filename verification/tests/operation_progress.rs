use neo_re::manager::{
    approximate_words_from_bytes, human_bytes, normalize_text, sanitize_name, text_export_bytes, OperationProgress,
    ProgressEvent,
};

#[test]
fn percent_is_known_when_total_is_nonzero() {
    let progress = OperationProgress::new("Backup").with_counts(2, 4);
    let percent = progress.percent_parts().map(|(done, total)| done as f32 / total as f32);
    assert_eq!(percent, Some(0.5));
}

#[test]
fn progress_event_updates_phase_and_item() {
    let mut progress = OperationProgress::new("Applet flash");
    progress.apply(ProgressEvent::phase_item("installing", "AlphaWord", 1, 3));
    assert_eq!(progress.phase, "installing");
    assert_eq!(progress.item.as_deref(), Some("AlphaWord"));
    assert_eq!(progress.completed, Some(1));
    assert_eq!(progress.total, Some(3));
}

#[test]
fn indeterminate_progress_has_no_bar_fraction() {
    let progress = OperationProgress::new("Flash");
    assert_eq!(progress.bar_fraction_parts(), None);
}

#[test]
fn log_keeps_only_the_last_eight_lines() {
    let mut progress = OperationProgress::new("Flash");
    for n in 0..12 {
        progress.apply(ProgressEvent::log(&format!("line {n}")));
        assert!(progress.logs.len() <= 8);
    }
    assert_eq!(progress.logs.len(), 8);
    assert_eq!(progress.logs[0], "line 4");
    assert_eq!(progress.logs[7], "line 11");
}

#[test]
fn zero_total_is_indeterminate() {
    let progress = OperationProgress::new("Flash").with_counts(0, 0);
    assert!(progress.indeterminate);
    assert_eq!(progress.percent_parts(), None);
}

#[test]
fn human_bytes_matches_one_decimal_formatting() {
    assert_eq!(human_bytes(512), "512 B");
    assert_eq!(human_bytes(1024), "1.0 KB");
    assert_eq!(human_bytes(1536), "1.5 KB");
    assert_eq!(human_bytes(1_048_576), "1.0 MB");
    for bytes in (0u32..5_000_000).step_by(997).chain([1075, 1126, 1177, 1228, 1024 * 1023 + 512, u32::MAX]) {
        let expected = if bytes >= 1_048_576 {
            format!("{:.1} MB", f64::from(bytes) / 1_048_576.0)
        } else if bytes >= 1024 {
            format!("{:.1} KB", f64::from(bytes) / 1024.0)
        } else {
            format!("{bytes} B")
        };
        assert_eq!(human_bytes(bytes), expected, "bytes = {bytes}");
    }
}

#[test]
fn words_are_six_bytes_at_least_one() {
    assert_eq!(approximate_words_from_bytes(0), 1);
    assert_eq!(approximate_words_from_bytes(5), 1);
    assert_eq!(approximate_words_from_bytes(600), 100);
}

#[test]
fn text_export_maps_nul_and_cr() {
    let text = text_export_bytes(b"a\0b\rc").unwrap();
    assert_eq!(text, b"a b\nc".to_vec());
}

#[test]
fn sanitized_names_are_safe() {
    assert_eq!(sanitize_name("My File!"), "My_File");
    assert_eq!(sanitize_name("__x__"), "x");
    assert_eq!(sanitize_name("???"), "untitled");
    assert_eq!(sanitize_name(""), "untitled");
}

#[test]
fn normalized_text_uses_line_feeds() {
    assert_eq!(normalize_text(b"a\r\nb\rc\0d"), "a\nb\nc d");
    assert_eq!(normalize_text(b"\r\r\n"), "\n\n");
}
