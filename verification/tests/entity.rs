use paloma_core::entity::{
    backends_health, plugins_health, HealthLevel, HealthStatus, Plugin, PluginArgs,
    ProviderBackendId, Transport,
};

#[test]
fn status_codes_round_trip_and_unknown_is_unhealthy() {
    for s in [HealthStatus::Starting, HealthStatus::Running, HealthStatus::Unhealthy] {
        assert_eq!(HealthStatus::from_u8(s.to_u8()), s);
    }
    assert_eq!(HealthStatus::from_u8(9), HealthStatus::Unhealthy);
}

#[test]
fn levels_from_counts() {
    assert_eq!(HealthLevel::from_counts(0, 0), HealthLevel::Inactive);
    assert_eq!(HealthLevel::from_counts(3, 3), HealthLevel::Healthy);
    assert_eq!(HealthLevel::from_counts(3, 0), HealthLevel::Down);
    assert_eq!(HealthLevel::from_counts(3, 1), HealthLevel::Degraded);
}

#[test]
fn combined_levels() {
    assert_eq!(HealthLevel::combine(vec![]), HealthLevel::Inactive);
    assert_eq!(
        HealthLevel::combine(vec![HealthLevel::Healthy, HealthLevel::Inactive]),
        HealthLevel::Healthy
    );
    assert_eq!(
        HealthLevel::combine(vec![HealthLevel::Healthy, HealthLevel::Down]),
        HealthLevel::Degraded
    );
    assert_eq!(HealthLevel::from_status(HealthStatus::Starting), HealthLevel::Inactive);
}

#[test]
fn group_health_counts_running_members() {
    assert_eq!(backends_health(&[HealthStatus::Running, HealthStatus::Starting]), HealthLevel::Degraded);
    assert_eq!(plugins_health(&[HealthStatus::Running, HealthStatus::Starting]), HealthLevel::Healthy);
    assert_eq!(plugins_health(&[HealthStatus::Starting]), HealthLevel::Inactive);
    assert_eq!(plugins_health(&[HealthStatus::Unhealthy, HealthStatus::Starting]), HealthLevel::Down);
    assert_eq!(backends_health(&[]), HealthLevel::Inactive);
}

#[test]
fn builtin_plugins_run_this_executable() {
    let p = Plugin::builtin("Internal", "--extension-plugin", "/usr/bin/app".to_string());
    assert_eq!(p.name, "Internal");
    assert_eq!(p.transport, Transport::Local);
    assert!(!p.disabled);
    match p.args {
        PluginArgs::Local { command, args } => {
            assert_eq!(command, "/usr/bin/app");
            assert_eq!(args, vec!["--extension-plugin".to_string(), "Internal".to_string()]);
        },
        _ => panic!("expected a local plugin"),
    }
}

#[test]
fn backend_ids_display_provider_then_backend() {
    let id = ProviderBackendId { provider_id: "openai".into(), backend_id: "api".into() };
    assert_eq!(id.display(), "openai - api");
}
