use paloma_core::controller::entity::{ChatRenderEvent, RenderEvent};
use paloma_core::controller::permission_workflow::PermissionWorkflowManager;
use paloma_core::controller::render::{history_render, hosted_tool_render, replay_history, tool_call_render};
use paloma_core::db::RestoreEntry;
use paloma_core::entity::ProviderBackendId;
use paloma_core::provider::ConversationItem;
use paloma_core::controller::tool::Disposition;
use paloma_core::permission::entity::{ArgvDecision, CommandType, PermissionDecision};

fn parts(e: RenderEvent) -> (String, String, Option<String>, usize) {
    match e {
        RenderEvent::Chat(ChatRenderEvent::ToolCall { name, arguments, description, decisions }) => {
            (name, arguments, description, decisions.len())
        },
        _ => panic!("expected a tool call"),
    }
}

#[test]
fn hosted_tools_show_pretty_json_or_raw_text() {
    let (name, args, desc, n) = parts(hosted_tool_render("web_search", "{\"q\":1}"));
    assert_eq!(name, "web_search");
    assert_eq!(args, "{\n  \"q\": 1\n}");
    assert_eq!(desc, None);
    assert_eq!(n, 0);
    let (_, args, _, _) = parts(hosted_tool_render("web_search", "not json"));
    assert_eq!(args, "not json");
}

#[test]
fn gated_calls_show_argv_and_options() {
    let mut w = PermissionWorkflowManager::new();
    let d = PermissionDecision::new(CommandType::Composite, vec![], ArgvDecision::Unknown);
    w.init_permission_workflow(1, "c".into(), vec!["ls".into(), "|".into(), "wc".into()], Ok(d), 0);
    let gated = || Disposition::Gated(vec!["ls".into(), "|".into(), "wc".into()], Some("count".into()));
    let (_, args, desc, n) = parts(tool_call_render(&w, 1, "c", "shell", "{}", gated(), false).unwrap());
    assert_eq!(args, "ls | wc");
    assert_eq!(desc.as_deref(), Some("count"));
    assert_eq!(n, 4);
    let (_, _, _, n) = parts(tool_call_render(&w, 1, "c", "shell", "{}", gated(), true).unwrap());
    assert_eq!(n, 0);
    assert!(tool_call_render(&w, 1, "missing", "shell", "{}", gated(), false).is_none());
    assert!(tool_call_render(&w, 1, "c", "shell", "{}", Disposition::Skip, false).is_none());
}

fn stored(payload: ConversationItem, finished: bool) -> RestoreEntry {
    RestoreEntry {
        provider_backend_id: ProviderBackendId { provider_id: "openai".into(), backend_id: "api".into() },
        payload,
        finished,
    }
}

#[test]
fn history_entries_replay_by_kind() {
    let w = PermissionWorkflowManager::new();
    let prompt = stored(ConversationItem::UserPrompt { prompt: "hi".into() }, true);
    match history_render(&w, 1, &prompt, Disposition::Passthrough) {
        Some(RenderEvent::Chat(ChatRenderEvent::UserPrompt { text })) => assert_eq!(text, "hi"),
        _ => panic!("expected the prompt"),
    }
    let message = stored(ConversationItem::Message { message: vec!["a".into(), "b".into()] }, true);
    match history_render(&w, 1, &message, Disposition::Passthrough) {
        Some(RenderEvent::Chat(ChatRenderEvent::TextDelta { provider_backend_id, text })) => {
            assert_eq!(text, "a\nb");
            assert_eq!(provider_backend_id.backend_id, "api");
        },
        _ => panic!("expected the message text"),
    }
    let empty = stored(ConversationItem::Message { message: vec![] }, true);
    assert!(history_render(&w, 1, &empty, Disposition::Passthrough).is_none());
    let result = stored(ConversationItem::ToolResult { call_id: "c".into(), name: "shell".into(), output: "ok".into() }, true);
    assert!(history_render(&w, 1, &result, Disposition::Passthrough).is_none());
    let hosted = stored(ConversationItem::HostedTool { function_type: "web_search".into(), content: None }, true);
    let (name, args, _, _) = parts(history_render(&w, 1, &hosted, Disposition::Passthrough).unwrap());
    assert_eq!(name, "web_search");
    assert_eq!(args, "");
}

#[test]
fn history_replays_in_order_with_finished_calls_showing_no_options() {
    let mut w = PermissionWorkflowManager::new();
    let d = PermissionDecision::new(CommandType::Composite, vec![], ArgvDecision::Unknown);
    w.init_permission_workflow(1, "c".into(), vec!["ls".into(), "|".into(), "wc".into()], Ok(d), 0);
    let call = || ConversationItem::ToolCall { call_id: "c".into(), name: "shell".into(), arguments: "{}".into() };
    let entries = vec![
        stored(ConversationItem::UserPrompt { prompt: "count".into() }, true),
        stored(call(), true),
        stored(call(), false),
        stored(ConversationItem::ToolResult { call_id: "c".into(), name: "shell".into(), output: "3".into() }, true),
    ];
    let gated = || Disposition::Gated(vec!["ls".into(), "|".into(), "wc".into()], None);
    let shown = replay_history(&w, 1, &entries, vec![Disposition::Passthrough, gated(), gated(), Disposition::Passthrough]);
    assert_eq!(shown.len(), 4);
    assert!(matches!(shown[0], Some(RenderEvent::Chat(ChatRenderEvent::UserPrompt { .. }))));
    let mut shown = shown.into_iter();
    shown.next();
    let (_, args, _, n) = parts(shown.next().unwrap().unwrap());
    assert_eq!((args.as_str(), n), ("ls | wc", 0));
    let (_, _, _, n) = parts(shown.next().unwrap().unwrap());
    assert_eq!(n, 4);
    assert!(shown.next().unwrap().is_none());
}
