use paloma_core::capability::Item;
use paloma_core::controller::entity::{QueryResponse, RenderEvent, SearchRenderEvent};
use paloma_core::entity::{ExtensionCapabilityId, HealthStatus};
use paloma_core::extension::search::{
    search_event, search_events, search_is_blank, search_setup_error, search_targets, SearchCapability, SearchHandler,
};

fn handler(id: &str, status: HealthStatus, caps: &[(&str, bool)]) -> SearchHandler {
    SearchHandler {
        extension_id: id.into(),
        status,
        capabilities: caps.iter().map(|(c, s)| SearchCapability { capability_id: c.to_string(), searchable: *s }).collect(),
    }
}

#[test]
fn searches_reach_enabled_running_searchable_capabilities() {
    let handlers = vec![
        handler("web", HealthStatus::Running, &[("pages", true), ("fetch", false), ("news", true)]),
        handler("off", HealthStatus::Running, &[("all", true)]),
        handler("down", HealthStatus::Unhealthy, &[("all", true)]),
        handler("docs", HealthStatus::Running, &[("manuals", true)]),
    ];
    let targets: Vec<(String, String)> = search_targets(&handlers, &["off".to_string()])
        .into_iter()
        .map(|t| (t.extension_id, t.capability_id))
        .collect();
    assert_eq!(
        targets,
        vec![
            ("web".to_string(), "pages".to_string()),
            ("web".to_string(), "news".to_string()),
            ("docs".to_string(), "manuals".to_string()),
        ]
    );
}

#[test]
fn blank_queries_search_nothing() {
    assert!(search_is_blank("  \t "));
    assert!(search_is_blank(""));
    assert!(!search_is_blank(" a "));
}

#[test]
fn answers_become_events_then_done() {
    let response = QueryResponse {
        extension_capability_id: ExtensionCapabilityId { extension_id: "web".into(), capability_id: "pages".into() },
        name: "pages".into(),
        items: Vec::<Item>::new(),
    };
    let events = search_events(vec![Ok(response), Err("timed out".into())]);
    assert_eq!(events.len(), 3);
    assert!(matches!(&events[0], RenderEvent::Search(SearchRenderEvent::Append { response }) if response.name == "pages"));
    assert!(matches!(&events[1], RenderEvent::Error { message } if message == "timed out"));
    assert!(matches!(events[2], RenderEvent::Done));
    assert!(matches!(search_event(Err("x".into())), RenderEvent::Error { .. }));
    assert!(matches!(search_setup_error("locked"), RenderEvent::Error { message } if message == "fail to get disabled plugins: locked"));
}
