use paloma_core::controller::entity::{ChatRenderEvent, RenderEvent};
use paloma_core::controller::session::{
    available_sessions, history_entry, message_text, render_plain, resolve_session_id,
    RestoreTail, SessionEvent, SessionManager, SessionManagerError, StoredSession,
};
use paloma_core::entity::ProviderBackendId;
use paloma_core::provider::{ChatEvent, ConversationItem};

const ID: &str = "550e8400-e29b-41d4-a716-446655440000";

fn delta(text: &str) -> SessionEvent {
    SessionEvent::Chat(ChatEvent::TextDelta {
        provider_backend_id: ProviderBackendId { provider_id: "p".into(), backend_id: "b".into() },
        text: text.into(),
    })
}

#[test]
fn prompt_starts_a_turn_and_done_ends_it() {
    let mut m = SessionManager::new();
    m.ensure_session(7, true);
    assert!(matches!(m.check_event(7, &delta("x")), Err(SessionManagerError::SessionNotRunning(7))));
    assert!(m.check_event(7, &SessionEvent::UserPrompt("hi".into())).is_ok());
    m.subscribe(7, false).unwrap();
    let p = m.apply_event(7, SessionEvent::UserPrompt("hi".into()), true);
    assert!(p.send && !p.close && !p.rollback);
    let p = m.apply_event(7, delta("a"), true);
    assert!(p.send && !p.close);
    let p = m.apply_event(7, SessionEvent::Chat(ChatEvent::Done), true);
    assert!(p.send && p.close);
    let p = m.apply_event(7, SessionEvent::UserPrompt("again".into()), true);
    assert!(!p.send);
}

#[test]
fn unknown_sessions_are_refused() {
    let mut m = SessionManager::new();
    assert!(matches!(m.check_event(1, &delta("x")), Err(SessionManagerError::UnknownSession(1))));
    assert!(matches!(m.cancel_event(1), Err(SessionManagerError::UnknownSession(1))));
    assert!(matches!(m.subscribe(1, true), Err(SessionManagerError::UnknownSession(1))));
}

#[test]
fn failure_asks_for_rollback() {
    let mut m = SessionManager::new();
    m.ensure_session(3, true);
    m.apply_event(3, SessionEvent::UserPrompt("go".into()), true);
    let p = m.apply_event(3, SessionEvent::Error("boom".into()), true);
    assert!(p.rollback);
    assert!(!p.send);
}

#[test]
fn cancel_only_stops_a_running_turn() {
    let mut m = SessionManager::new();
    m.ensure_session(5, true);
    assert_eq!(m.cancel_event(5).unwrap(), None);
    m.apply_event(5, SessionEvent::UserPrompt("go".into()), false);
    m.subscribe(5, true).unwrap();
    assert_eq!(m.cancel_event(5).unwrap(), Some(true));
    assert_eq!(m.cancel_event(5).unwrap(), None);
}

#[test]
fn restore_replays_deltas_of_a_running_turn() {
    let mut m = SessionManager::new();
    m.ensure_session(9, true);
    m.apply_event(9, SessionEvent::UserPrompt("go".into()), false);
    m.apply_event(9, delta("part"), false);
    m.subscribe(9, true).unwrap();
    assert_eq!(m.begin_restore(9).unwrap(), true);
    match m.finish_restore(9) {
        RestoreTail::Replay(v) => {
            assert_eq!(v.len(), 1);
            assert!(matches!(&v[0], RenderEvent::Chat(ChatRenderEvent::TextDelta { text, .. }) if text == "part"));
        },
        _ => panic!("expected replay"),
    }
}

#[test]
fn restore_of_a_finished_turn_ends_the_subscription() {
    let mut m = SessionManager::new();
    m.ensure_session(4, true);
    m.subscribe(4, true).unwrap();
    m.begin_restore(4).unwrap();
    assert!(matches!(m.finish_restore(4), RestoreTail::Finished { notify: true }));
    assert!(matches!(m.finish_restore(4), RestoreTail::Finished { notify: false }));
}

#[test]
fn stored_sessions_with_invalid_ids_are_skipped() {
    let stored = vec![
        StoredSession { session_id: ID.into(), title: "t".into(), last_update: 3 },
        StoredSession { session_id: "nope".into(), title: "u".into(), last_update: 4 },
    ];
    let list = available_sessions(&stored);
    assert_eq!(list.len(), 1);
    assert_eq!(list[0].session_id, 0x550e8400_e29b_41d4_a716_446655440000u128);
    assert_eq!(list[0].title, "t");
    let mut m = SessionManager::restore_sessions(&stored);
    assert!(m.subscribe(0x550e8400_e29b_41d4_a716_446655440000u128, false).is_ok());
}

#[test]
fn requested_ids_are_kept() {
    assert_eq!(resolve_session_id(Some(42), 7), 42);
    assert_eq!(resolve_session_id(None, 7), 7);
}

#[test]
fn messages_join_their_parts_by_lines() {
    assert_eq!(message_text(&["a".to_string(), "b".to_string()]), Some("a\nb".to_string()));
    assert_eq!(message_text(&[]), None);
}

#[test]
fn prompts_and_output_items_go_to_history() {
    assert!(matches!(
        history_entry(&SessionEvent::UserPrompt("p".into())),
        Some(ConversationItem::UserPrompt { prompt }) if prompt == "p"
    ));
    assert!(history_entry(&delta("x")).is_none());
    assert!(matches!(render_plain(&SessionEvent::Error("e".into())), Some(RenderEvent::Error { message }) if message == "e"));
    assert!(matches!(render_plain(&SessionEvent::Chat(ChatEvent::Done)), Some(RenderEvent::Done)));
}
