use krill::config::{KrillConfig, ServiceConfig};
use krill::dependency::{Dependency, DependencyCondition};
use krill::execute::ExecuteConfig;
use krill::ipc::ServiceStatus;
use krill::orchestrator::{MonitorDecision, Orchestrator};
use krill::policy::{PolicyConfig, RestartPolicy};
use krill::runner::ServiceState;

fn shell_service(deps: Vec<Dependency>, critical: bool, policy: PolicyConfig) -> ServiceConfig {
    ServiceConfig {
        execute: ExecuteConfig::Shell {
            command: "sleep 60".to_string(),
            stop_command: None,
            working_dir: None,
        },
        dependencies: deps,
        critical,
        gpu: false,
        health_check: None,
        policy,
    }
}

fn workspace(services: Vec<(String, ServiceConfig)>) -> KrillConfig {
    KrillConfig {
        version: "1".to_string(),
        name: "ws".to_string(),
        log_dir: None,
        env: Vec::new(),
        services,
    }
}

fn start_service(o: &mut Orchestrator, name: &str, pid: u32) {
    let idx = o.runner_index(name).unwrap();
    o.runners[idx].begin_start(true, 0).unwrap().unwrap();
    o.runners[idx].note_spawned(pid, Some(pid));
}

#[test]
fn dependency_gating_follows_the_condition_table() {
    let config = workspace(vec![
        ("a".to_string(), shell_service(vec![], false, PolicyConfig::default())),
        (
            "b".to_string(),
            shell_service(
                vec![Dependency::WithCondition {
                    service: "a".to_string(),
                    condition: DependencyCondition::Healthy,
                }],
                false,
                PolicyConfig::default(),
            ),
        ),
    ]);
    let mut o = Orchestrator::new(config).unwrap();

    // nothing started: b is gated
    assert!(!o.dependencies_ready("b"));
    // a running is not enough for a healthy-condition
    start_service(&mut o, "a", 11);
    assert!(!o.dependencies_ready("b"));
    // a healthy heartbeat satisfies the healthy condition
    let status = o.process_heartbeat("a", ServiceStatus::Healthy, 0).unwrap();
    assert_eq!(status, ServiceStatus::Healthy);
    assert!(o.dependencies_ready("b"));
    // a itself has no dependencies and is always ready
    assert!(o.dependencies_ready("a"));
}

#[test]
fn heartbeat_drives_healthy_degraded_healthy() {
    let config = workspace(vec![(
        "svc".to_string(),
        shell_service(vec![], false, PolicyConfig::default()),
    )]);
    let mut o = Orchestrator::new(config).unwrap();
    start_service(&mut o, "svc", 5);

    let s1 = o.process_heartbeat("svc", ServiceStatus::Healthy, 0).unwrap();
    assert_eq!(s1, ServiceStatus::Healthy);
    // a bare running report is a negative health signal once healthy
    let s2 = o.process_heartbeat("svc", ServiceStatus::Starting, 1).unwrap();
    assert_eq!(s2, ServiceStatus::Degraded);
    let s3 = o.process_heartbeat("svc", ServiceStatus::Healthy, 2).unwrap();
    assert_eq!(s3, ServiceStatus::Healthy);
}

#[test]
fn heartbeat_for_unknown_service_is_rejected() {
    let config = workspace(vec![(
        "svc".to_string(),
        shell_service(vec![], false, PolicyConfig::default()),
    )]);
    let mut o = Orchestrator::new(config).unwrap();
    assert!(o
        .process_heartbeat("ghost", ServiceStatus::Healthy, 0)
        .is_err());
}

#[test]
fn cascade_on_non_critical_failure() {
    // base <- dep; base fails with no restart budget: dep is cascaded
    let no_restart = PolicyConfig {
        restart: RestartPolicy::Never,
        max_restarts: 0,
        restart_delay_ms: 100,
        stop_timeout_ms: 100,
    };
    let config = workspace(vec![
        ("base".to_string(), shell_service(vec![], false, no_restart)),
        (
            "dep".to_string(),
            shell_service(
                vec![Dependency::Simple("base".to_string())],
                false,
                no_restart,
            ),
        ),
    ]);
    let mut o = Orchestrator::new(config).unwrap();
    start_service(&mut o, "base", 1);
    start_service(&mut o, "dep", 2);

    let idx = o.runner_index("base").unwrap();
    let decision = o.on_service_exit(idx, Some(137));
    match decision {
        MonitorDecision::CascadeStop(affected) => {
            assert_eq!(affected, vec!["dep".to_string()]);
        }
        other => panic!("expected a cascade, got {other:?}"),
    }
    assert_eq!(o.runners[idx].state(), ServiceState::Failed);
    assert_eq!(o.runners[idx].restart_count(), 1);
    assert!(!o.is_shutting_down());
}

#[test]
fn emergency_stop_on_critical_failure() {
    let no_restart = PolicyConfig {
        restart: RestartPolicy::Never,
        max_restarts: 0,
        restart_delay_ms: 100,
        stop_timeout_ms: 100,
    };
    let config = workspace(vec![
        ("base".to_string(), shell_service(vec![], true, no_restart)),
        (
            "dep".to_string(),
            shell_service(
                vec![Dependency::Simple("base".to_string())],
                false,
                no_restart,
            ),
        ),
        ("sibling".to_string(), shell_service(vec![], false, no_restart)),
    ]);
    let mut o = Orchestrator::new(config).unwrap();
    start_service(&mut o, "base", 1);

    let idx = o.runner_index("base").unwrap();
    let decision = o.on_service_exit(idx, Some(9));
    assert_eq!(decision, MonitorDecision::EmergencyStop);
    assert!(o.is_shutting_down());
}

#[test]
fn on_failure_restart_until_the_budget_is_spent() {
    let policy = PolicyConfig {
        restart: RestartPolicy::OnFailure,
        max_restarts: 2,
        restart_delay_ms: 200,
        stop_timeout_ms: 100,
    };
    let config = workspace(vec![("svc".to_string(), shell_service(vec![], false, policy))]);
    let mut o = Orchestrator::new(config).unwrap();
    let idx = o.runner_index("svc").unwrap();

    // first exit: restart after the policy delay
    start_service(&mut o, "svc", 1);
    match o.on_service_exit(idx, Some(1)) {
        MonitorDecision::Restart { delay_ms } => assert_eq!(delay_ms, 200),
        other => panic!("expected restart, got {other:?}"),
    }
    assert_eq!(o.runners[idx].restart_count(), 1);

    // second exit: the policy still grants a restart, spending the budget
    start_service(&mut o, "svc", 2);
    assert!(matches!(
        o.on_service_exit(idx, Some(1)),
        MonitorDecision::Restart { .. }
    ));
    assert_eq!(o.runners[idx].restart_count(), 2);

    // the budget is spent: the respawn is refused and the terminal state
    // is Failed; the service is never respawned again
    assert!(o.runners[idx].begin_start(true, 0).is_err());
    assert_eq!(o.runners[idx].state(), ServiceState::Failed);
    assert!(!o.runners[idx].should_restart(Some(1)));
}

#[test]
fn exits_in_terminal_flows_are_ignored() {
    let config = workspace(vec![(
        "svc".to_string(),
        shell_service(vec![], false, PolicyConfig::default()),
    )]);
    let mut o = Orchestrator::new(config).unwrap();
    let idx = o.runner_index("svc").unwrap();
    start_service(&mut o, "svc", 1);
    o.runners[idx].begin_stop().unwrap();
    // the child exit observed during a user-driven stop is skipped
    assert_eq!(o.on_service_exit(idx, Some(0)), MonitorDecision::Ignore);
    assert_eq!(o.runners[idx].state(), ServiceState::Stopping);
}

#[test]
fn shutdown_order_reverses_startup() {
    let config = workspace(vec![
        ("a".to_string(), shell_service(vec![], false, PolicyConfig::default())),
        (
            "b".to_string(),
            shell_service(
                vec![Dependency::Simple("a".to_string())],
                false,
                PolicyConfig::default(),
            ),
        ),
        (
            "c".to_string(),
            shell_service(
                vec![Dependency::Simple("b".to_string())],
                false,
                PolicyConfig::default(),
            ),
        ),
    ]);
    let mut o = Orchestrator::new(config).unwrap();
    let order = o.begin_shutdown();
    assert_eq!(order, vec!["c", "b", "a"]);
    assert!(o.is_shutting_down());
}

#[test]
fn snapshot_reports_every_service() {
    let config = workspace(vec![
        ("a".to_string(), shell_service(vec![], false, PolicyConfig::default())),
        ("b".to_string(), shell_service(vec![], false, PolicyConfig::default())),
    ]);
    let mut o = Orchestrator::new(config).unwrap();
    start_service(&mut o, "a", 77);

    let snap = o.get_snapshot(5_000);
    assert_eq!(snap.len(), 2);
    let a = &snap.iter().find(|(n, _)| n == "a").unwrap().1;
    assert_eq!(a.status, ServiceStatus::Running);
    assert_eq!(a.pid, Some(77));
    assert_eq!(a.namespace, "ws");
    assert_eq!(a.executor_type, "shell");
    assert_eq!(a.uptime.map(|d| d.secs), Some(5));
    assert_eq!(a.last_error, None);
    assert!(a.dependencies.is_empty());
    assert!(!a.uses_gpu);
    assert!(!a.critical);
    assert_eq!(a.restart_policy, "OnFailure");
    assert_eq!(a.max_restarts, 0);
    let b = &snap.iter().find(|(n, _)| n == "b").unwrap().1;
    assert_eq!(b.status, ServiceStatus::Starting);
    assert_eq!(b.pid, None);
    assert_eq!(b.uptime, None);
}

#[test]
fn snapshot_lists_declared_dependencies() {
    let config = workspace(vec![
        ("base".to_string(), shell_service(vec![], true, PolicyConfig::default())),
        (
            "dep".to_string(),
            shell_service(
                vec![Dependency::WithCondition {
                    service: "base".to_string(),
                    condition: DependencyCondition::Healthy,
                }],
                false,
                PolicyConfig::default(),
            ),
        ),
    ]);
    let o = Orchestrator::new(config).unwrap();
    let snap = o.get_snapshot(0);
    let base = &snap.iter().find(|(n, _)| n == "base").unwrap().1;
    assert!(base.critical);
    let dep = &snap.iter().find(|(n, _)| n == "dep").unwrap().1;
    assert_eq!(dep.dependencies, vec!["base".to_string()]);
}

#[test]
fn orchestrator_rejects_a_cyclic_workspace() {
    let config = workspace(vec![
        (
            "a".to_string(),
            shell_service(
                vec![Dependency::Simple("b".to_string())],
                false,
                PolicyConfig::default(),
            ),
        ),
        (
            "b".to_string(),
            shell_service(
                vec![Dependency::Simple("a".to_string())],
                false,
                PolicyConfig::default(),
            ),
        ),
    ]);
    assert!(Orchestrator::new(config).is_err());
}
