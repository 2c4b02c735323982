use paloma_core::controller::session::{SessionManager, SessionManagerError};
use paloma_core::permission::entity::ArgvDecision;
use paloma_core::capability::calculator::utf8_len_exceeds;
use paloma_core::controller::query::{LocalQueryInitError, SearchQueryInitError};
use paloma_core::entity::HealthStatus;
use paloma_core::extension::CapabilityFacet;
use paloma_core::mcp::{call_outcome, call_tool, CallReply, McpCallError, tool_infos, answer_text, health_after_call, payload_over_limit, truncate_payload, CallEnd};
use paloma_core::capability::process::MAX_STREAM_PAYLOAD_BYTES;

#[test]
fn init_errors_name_the_handler() {
    let e = LocalQueryInitError { handler: "app_search", source: "no inotify".into() };
    assert_eq!(e.to_string(), "failed to initialize native query handler app_search: no inotify");
    let e = SearchQueryInitError { handler: "file_search", source: "no home".into() };
    assert_eq!(e.to_string(), "failed to initialize native query handler file_search: no home");
}

#[test]
fn calls_update_health() {
    assert_eq!(health_after_call(HealthStatus::Unhealthy, CallEnd::Answered), HealthStatus::Running);
    assert_eq!(health_after_call(HealthStatus::Running, CallEnd::ConnectionFailed), HealthStatus::Unhealthy);
    assert_eq!(health_after_call(HealthStatus::Unhealthy, CallEnd::TimedOut), HealthStatus::Unhealthy);
    assert_eq!(health_after_call(HealthStatus::Running, CallEnd::Failed), HealthStatus::Running);
}

#[test]
fn utf8_length_limit() {
    let s: Vec<char> = "aé世".chars().collect();
    assert!(utf8_len_exceeds(&s, 5));
    assert!(!utf8_len_exceeds(&s, 6));
}

#[test]
fn small_answers_pass_whole() {
    assert_eq!(truncate_payload("search", "found 3".to_string(), None), "found 3");
    assert!(!payload_over_limit("found 3"));
}

#[test]
fn large_answers_are_cut_whole_characters_only() {
    // one byte short of the limit, then a three-byte character across it
    let text = format!("{}世tail", "a".repeat(MAX_STREAM_PAYLOAD_BYTES - 1));
    assert!(payload_over_limit(&text));
    let out = truncate_payload("search", text.clone(), Some("/tmp/spill/out".to_string()));
    let expected = format!(
        "<mcp_output\n  tool=\"search\"\n  total_bytes=\"{}\"\n  truncated=\"true\"\n  full_output=\"/tmp/spill/out\"\n><![CDATA[{}...]]></mcp_output>",
        text.len(),
        "a".repeat(MAX_STREAM_PAYLOAD_BYTES - 1)
    );
    assert_eq!(out, expected);
    let without_spill = truncate_payload("search", text, None);
    assert!(!without_spill.contains("full_output"));
}

#[test]
fn answer_text_prefers_structured_content() {
    let blocks = vec![Some("one".to_string()), None, Some("two".to_string())];
    assert_eq!(answer_text(None, &blocks), "one\ntwo");
    assert_eq!(answer_text(Some("{\"a\":1}".to_string()), &blocks), "{\"a\":1}");
    assert_eq!(answer_text(None, &vec![None]), "");
}

#[test]
fn severity_orders_verdicts() {
    assert_eq!(ArgvDecision::Allow.severity(), 0);
    assert_eq!(ArgvDecision::Unknown.severity(), 1);
    assert_eq!(ArgvDecision::AskNoPersist.severity(), 2);
    assert_eq!(ArgvDecision::NotExecutable.severity(), 3);
}

#[test]
fn removed_sessions_are_unknown() {
    let mut m = SessionManager::new();
    m.ensure_session(8, true);
    m.remove_session(8);
    assert!(matches!(m.subscribe(8, false), Err(SessionManagerError::UnknownSession(8))));
}

#[test]
fn tool_infos_mark_disabled_tools() {
    let tools = vec![
        ("search".to_string(), "Search the web".to_string()),
        ("fetch".to_string(), "Fetch a page".to_string()),
    ];
    let disabled = vec![
        ("web".to_string(), "fetch".to_string(), CapabilityFacet::Mcp),
        ("other".to_string(), "search".to_string(), CapabilityFacet::Mcp),
    ];
    let infos = tool_infos("web", tools, &disabled);
    assert_eq!(infos.len(), 2);
    assert_eq!(infos[0].id, "search");
    assert_eq!(infos[0].description, "Search the web");
    assert_eq!(infos[0].facets, vec![(CapabilityFacet::Mcp, false)]);
    assert_eq!(infos[1].id, "fetch");
    assert_eq!(infos[1].facets, vec![(CapabilityFacet::Mcp, true)]);
}

#[test]
fn calls_need_a_tool_name_then_a_connection() {
    assert_eq!(call_tool(None, true, "web"), Err(McpCallError::MissingToolName));
    assert_eq!(call_tool(Some("fetch".into()), false, "web"), Err(McpCallError::Disconnected("web".into())));
    assert_eq!(call_tool(Some("fetch".into()), true, "web"), Ok("fetch".to_string()));
}

#[test]
fn call_outcomes_and_health() {
    let answered = CallReply::Answered { structured: None, blocks: vec![Some("a".into()), Some("b".into())] };
    assert_eq!(call_outcome("fetch".into(), 30, HealthStatus::Unhealthy, answered), (Ok("a\nb".to_string()), HealthStatus::Running));
    let lost = CallReply::Failed { connection_level: true, message: "closed".into() };
    assert_eq!(
        call_outcome("fetch".into(), 30, HealthStatus::Running, lost),
        (Err(McpCallError::Failed { connection_level: true, message: "closed".into() }), HealthStatus::Unhealthy)
    );
    let refused = CallReply::Failed { connection_level: false, message: "bad args".into() };
    assert_eq!(call_outcome("fetch".into(), 30, HealthStatus::Running, refused).1, HealthStatus::Running);
    assert_eq!(
        call_outcome("fetch".into(), 30, HealthStatus::Running, CallReply::TimedOut),
        (Err(McpCallError::CallTimeout { tool: "fetch".into(), seconds: 30 }), HealthStatus::Running)
    );
    assert_eq!(
        call_outcome("fetch".into(), 30, HealthStatus::Unhealthy, CallReply::Cancelled),
        (Err(McpCallError::Cancelled), HealthStatus::Unhealthy)
    );
}
