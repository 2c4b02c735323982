use paloma_core::extension::routes::{record_error, ResponseRoutes};

#[test]
fn answers_reach_waiting_requests_once() {
    let mut r = ResponseRoutes::new();
    r.register(1);
    r.register(2);
    assert!(r.route(1, true));
    assert!(!r.route(1, true));
    // an answer without a payload drops its route without delivering
    assert!(!r.route(2, false));
    assert!(!r.route(2, true));
    r.register(3);
    r.close();
    assert!(!r.route(3, true));
}

#[test]
fn first_plugin_error_is_kept() {
    let mut slot: Option<String> = None;
    record_error(&mut slot, "plugin stopped accepting requests".into());
    record_error(&mut slot, "plugin process exited".into());
    assert_eq!(slot.as_deref(), Some("plugin stopped accepting requests"));
}
