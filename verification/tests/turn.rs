use paloma_core::controller::session::SessionEvent;
use paloma_core::controller::tool::{extract_args, authorization_failure, permission_command, tool_output, Disposition};
use paloma_core::controller::turn::{tool_result_events, Step, TurnManager};
use paloma_core::controller::tool::ToolCallPayload;
use paloma_core::capability::ToolResult;
use paloma_core::permission::entity::PermissionState;
use paloma_core::provider::{ChatEvent, ConversationItem};

fn call(id: &str) -> Result<ChatEvent, String> {
    Ok(ChatEvent::OutputItem {
        item: ConversationItem::ToolCall { call_id: id.into(), name: "shell".into(), arguments: "{}".into() },
    })
}

#[test]
fn step_with_calls_continues_and_hides_done() {
    let mut s = Step::new();
    let (_, a) = s.observe(call("c1"));
    assert!(a.forward && !a.terminal);
    let (e, a) = s.observe(Ok(ChatEvent::Done));
    assert!(matches!(e, SessionEvent::Chat(ChatEvent::Done)));
    assert!(!a.forward && a.terminal);
    let calls = s.finish().expect("calls to run");
    assert_eq!(calls.len(), 1);
    assert_eq!(calls[0].call_id, "c1");
}

#[test]
fn step_without_calls_is_done() {
    let mut s = Step::new();
    let (_, a) = s.observe(Ok(ChatEvent::Done));
    assert!(a.forward && a.terminal);
    assert!(s.finish().is_none());
}

#[test]
fn failure_ends_the_turn() {
    let mut s = Step::new();
    s.observe(call("c1"));
    let (e, a) = s.observe(Err("stream broke".into()));
    assert!(matches!(e, SessionEvent::Error(m) if m == "stream broke"));
    assert!(a.forward && a.terminal);
    assert!(s.finish().is_none());
}

#[test]
fn turn_phases() {
    let mut t = TurnManager::new();
    assert!(!t.is_running(1));
    t.start(1);
    assert!(t.is_running(1));
    assert!(t.abort_turn(1));
    assert!(!t.is_running(1));
    assert!(!t.abort_turn(1));
    t.mark_step_done(1);
    assert!(!t.is_running(1));
    t.start(2);
    t.mark_step_done(2);
    assert!(!t.abort_turn(2));
    t.start(3);
    assert!(t.drop_turn(3));
    assert!(!t.drop_turn(3));
}

#[test]
fn decisions_map_to_messages() {
    assert_eq!(authorization_failure(Some(PermissionState::Allow)), None);
    assert_eq!(
        authorization_failure(Some(PermissionState::Deny)).as_deref(),
        Some("command was denied by the user")
    );
    assert_eq!(
        authorization_failure(None).as_deref(),
        Some("permission request was cancelled; command was not executed")
    );
}

#[test]
fn outcomes_become_text() {
    assert_eq!(tool_output(Ok(ToolResult::Text("out".into()))), "out");
    assert_eq!(
        tool_output(Ok(ToolResult::Binary { mime_type: "image/png".into(), data: vec![1] })),
        "<binary output: image/png>"
    );
    assert_eq!(tool_output(Err("bad".into())), "bad");
}

#[test]
fn dispositions_give_the_argv_to_check() {
    assert_eq!(
        permission_command(Disposition::Gated(vec!["ls".into()], None)),
        Some(vec!["ls".to_string()])
    );
    assert_eq!(permission_command(Disposition::Skip), Some(vec![]));
    assert_eq!(permission_command(Disposition::Passthrough), None);
}

fn payload(id: &str) -> ToolCallPayload {
    ToolCallPayload { call_id: id.into(), name: "shell".into(), arguments: "{}".into() }
}

#[test]
fn tool_calls_run_only_while_the_turn_runs() {
    let mut m = TurnManager::new();
    assert!(m.tool_calls_to_run(7, vec![payload("a")]).is_none());
    m.start(7);
    let run = m.tool_calls_to_run(7, vec![payload("a"), payload("b")]).unwrap();
    assert_eq!(run.iter().map(|c| c.call_id.as_str()).collect::<Vec<_>>(), vec!["a", "b"]);
    assert!(m.abort_turn(7));
    assert!(m.tool_calls_to_run(7, vec![payload("a")]).is_none());
}

#[test]
fn tool_results_follow_call_order() {
    let calls = vec![payload("a"), payload("b")];
    let events = tool_result_events(&calls, vec!["out a".into(), "out b".into()]);
    let seen: Vec<(String, String)> = events
        .into_iter()
        .map(|e| match e {
            SessionEvent::Chat(ChatEvent::OutputItem { item: ConversationItem::ToolResult { call_id, output, .. } }) => (call_id, output),
            _ => panic!("expected a tool result"),
        })
        .collect();
    assert_eq!(seen, vec![("a".to_string(), "out a".to_string()), ("b".to_string(), "out b".to_string())]);
}

#[test]
fn extract_args_by_tool_kind() {
    let shell = extract_args(true, "shell".into(), None, "Run a command".into(), Some((vec!["ls".into()], "list".into())));
    assert!(matches!(shell, Disposition::Gated(c, Some(d)) if c == vec!["ls".to_string()] && d == "list"));
    assert!(matches!(extract_args(true, "shell".into(), None, String::new(), None), Disposition::Skip));
    let mcp = extract_args(false, "web".into(), Some("fetch".into()), "Fetch a page".into(), None);
    assert!(matches!(mcp, Disposition::Gated(c, Some(d)) if c == vec!["web".to_string(), "fetch".to_string()] && d == "Fetch a page"));
    assert!(matches!(extract_args(false, "web_search".into(), None, String::new(), None), Disposition::Passthrough));
}
