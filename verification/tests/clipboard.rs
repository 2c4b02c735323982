use paloma_core::capability::clipboard::{
    build_item, Clipboard, ClipboardRequest, COPY_ACTION_LABEL, HISTORY_LIMIT, REMOVE_ACTION_LABEL,
};
use paloma_core::capability::{Action, ActionOutcome};

#[test]
fn push_entry_dedupes_and_bumps_to_front() {
    let mut h = Clipboard::new();
    h.push_entry("a".into());
    h.push_entry("b".into());
    h.push_entry("a".into());
    let texts: Vec<_> = h.entries().iter().map(|e| e.as_str()).collect();
    assert_eq!(texts, vec!["a", "b"]);
}

#[test]
fn push_entry_caps_history_at_limit() {
    let mut h = Clipboard::new();
    for i in 0..(HISTORY_LIMIT + 10) {
        h.push_entry(format!("entry-{i}"));
    }
    assert_eq!(h.entries().len(), HISTORY_LIMIT);
    assert_eq!(h.entries()[0], format!("entry-{}", HISTORY_LIMIT + 9));
}

#[test]
fn remove_entry_forgets_text() {
    let mut h = Clipboard::new();
    h.push_entry("keep".into());
    h.push_entry("drop".into());
    h.remove_entry("drop");
    assert_eq!(h.entries(), ["keep".to_string()]);
}

#[test]
fn query_matches_case_insensitively_after_trimming() {
    let mut h = Clipboard::new();
    h.push_entry("Hello World".into());
    h.push_entry("other".into());
    let items = h.query("  WORLD ");
    assert_eq!(items.len(), 1);
    assert_eq!(items[0].title, "Hello World");
    assert_eq!(h.query("").len(), 2);
}

#[test]
fn item_offers_copy_then_remove() {
    let item = build_item("text");
    assert_eq!(item.title, "text");
    assert_eq!(item.actions.len(), 2);
    assert_eq!(item.actions[0].label, COPY_ACTION_LABEL);
    assert!(item.actions[0].primary);
    assert_eq!(item.actions[1].label, REMOVE_ACTION_LABEL);
    assert_eq!(item.actions[1].params, vec!["text".to_string()]);
}

#[test]
fn actions_map_to_requests() {
    let copy = Action { label: COPY_ACTION_LABEL.into(), params: vec!["x".into()], primary: true };
    assert_eq!(Clipboard::request(copy), ClipboardRequest::Copy("x".into()));
    let empty = Action { label: COPY_ACTION_LABEL.into(), params: vec![], primary: true };
    assert_eq!(Clipboard::request(empty), ClipboardRequest::Ignore);
    let other = Action { label: "Paste".into(), params: vec!["x".into()], primary: true };
    assert_eq!(Clipboard::request(other), ClipboardRequest::Ignore);
    let mut h = Clipboard::new();
    h.push_entry("x".into());
    assert_eq!(h.run(&ClipboardRequest::Remove("x".into())), ActionOutcome::Hide);
    assert!(h.entries().is_empty());
}
