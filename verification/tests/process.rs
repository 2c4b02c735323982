use paloma_core::capability::process::{
    strip_ansi, Capture, Overflow, ProcessTable, MAX_STREAM_PAYLOAD_BYTES,
};

#[test]
fn strip_ansi_removes_color_codes() {
    let input = "\x1b[31mred\x1b[0m plain";
    assert_eq!(strip_ansi(input), "red plain");
}

#[test]
fn strip_ansi_preserves_utf8() {
    let input = "\x1b[1mhéllo\x1b[0m 世界";
    assert_eq!(strip_ansi(input), "héllo 世界");
}

#[test]
fn strip_ansi_keeps_other_escapes_and_drops_unterminated_sequences() {
    assert_eq!(strip_ansi("a\x1b]0;t\x07b"), "a\x1b]0;t\x07b");
    assert_eq!(strip_ansi("a\x1b[12"), "a");
    assert_eq!(strip_ansi("\x1b"), "\x1b");
}

#[test]
fn capture_keeps_the_prefix_and_counts_everything() {
    let mut c = Capture::new();
    assert_eq!(c.accept(&[b'a'; 10]), Overflow::Nothing);
    let big = vec![b'b'; MAX_STREAM_PAYLOAD_BYTES];
    assert_eq!(c.accept(&big), Overflow::StartSpill(MAX_STREAM_PAYLOAD_BYTES - 10));
    assert_eq!(c.kept.len(), MAX_STREAM_PAYLOAD_BYTES);
    assert!(c.truncated);
    assert_eq!(c.accept(&[b'c'; 5]), Overflow::Append);
    assert_eq!(c.total_bytes, (MAX_STREAM_PAYLOAD_BYTES + 15) as u64);
    assert_eq!(&c.kept[..10], &[b'a'; 10]);
}

#[test]
fn process_table_tracks_groups_per_session() {
    let mut t = ProcessTable::new();
    t.add(1, 100);
    t.add(1, 101);
    t.add(2, 200);
    t.remove_pid(1, 100);
    assert_eq!(t.cancel_session(1), vec![101]);
    assert!(t.cancel_session(1).is_empty());
    t.remove_pid(2, 200);
    assert!(t.cancel_session(2).is_empty());
}

#[test]
fn finished_capture_reports_clean_text_within_the_limit() {
    let mut c = Capture::new();
    c.accept(b"\x1b[32mok\x1b[0m \xff done");
    let s = c.finish(None);
    assert_eq!(s.text, "ok \u{fffd} done");
    assert_eq!(s.total_bytes, 18);
    assert!(!s.truncated);
    assert_eq!(s.spill_path, None);

    // invalid bytes decode to three-byte replacements; the text still fits
    let mut c = Capture::new();
    let bytes = vec![0xffu8; MAX_STREAM_PAYLOAD_BYTES + 10];
    c.accept(&bytes);
    let s = c.finish(Some("/tmp/spill/stdout".into()));
    assert!(s.truncated);
    assert!(s.text.len() <= MAX_STREAM_PAYLOAD_BYTES);
    assert_eq!(s.text.chars().count(), MAX_STREAM_PAYLOAD_BYTES / 3);
    assert_eq!(s.spill_path.as_deref(), Some("/tmp/spill/stdout"));
}
