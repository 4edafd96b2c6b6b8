use krill::config::ServiceConfig;
use krill::execute::ExecuteConfig;
use krill::ipc::ServiceStatus;
use krill::policy::{PolicyConfig, RestartPolicy};
use krill::runner::{ServiceRunner, ServiceState};

fn shell_config(policy: PolicyConfig) -> ServiceConfig {
    ServiceConfig {
        execute: ExecuteConfig::Shell {
            command: "sleep 60".to_string(),
            stop_command: None,
            working_dir: None,
        },
        dependencies: Vec::new(),
        critical: false,
        gpu: false,
        health_check: None,
        policy,
    }
}

fn new_runner(policy: PolicyConfig) -> ServiceRunner {
    ServiceRunner::new(
        "svc".to_string(),
        "ws".to_string(),
        shell_config(policy),
        Vec::new(),
    )
}

#[test]
fn start_produces_the_shell_plan() {
    let mut runner = new_runner(PolicyConfig::default());
    let plan = runner.begin_start(true, 0).unwrap().unwrap();
    assert_eq!(plan.argv, vec!["sh", "-c", "sleep 60"]);
    assert_eq!(plan.working_dir, None);
    assert_eq!(plan.process_name, "krill.svc");
    assert_eq!(
        plan.extra_env,
        vec![
            ("KRILL_SERVICE_NAME".to_string(), "svc".to_string()),
            ("KRILL_PROCESS_NAME".to_string(), "krill.svc".to_string()),
        ]
    );
    assert_eq!(runner.state(), ServiceState::Starting);

    runner.note_spawned(4242, Some(4242));
    assert_eq!(runner.state(), ServiceState::Running);
    assert_eq!(runner.pid(), Some(4242));
}

#[test]
fn stop_on_stopped_or_pending_is_a_no_op() {
    // a Pending runner: stop is an immediate success without state change
    let mut runner = new_runner(PolicyConfig::default());
    assert!(runner.begin_stop().is_none());
    assert_eq!(runner.state(), ServiceState::Pending);

    // a Running runner stops through Stopping into Stopped; a second stop
    // is then a no-op and the terminal state stays Stopped
    let mut runner = new_runner(PolicyConfig::default());
    runner.begin_start(true, 0).unwrap().unwrap();
    runner.note_spawned(10, None);
    let plan = runner.begin_stop().unwrap();
    assert_eq!(plan.pid, Some(10));
    assert_eq!(plan.stop_timeout_ms, 10_000);
    assert_eq!(runner.state(), ServiceState::Stopping);
    runner.finish_stop();
    assert_eq!(runner.state(), ServiceState::Stopped);
    assert_eq!(runner.pid(), None);

    assert!(runner.begin_stop().is_none());
    assert_eq!(runner.state(), ServiceState::Stopped);
}

#[test]
fn restart_policy_table() {
    // the full table: policy x exit code x budget
    let cases = [
        // (policy, max, count, exit, expected)
        (RestartPolicy::Never, 0u32, 0u32, Some(0), false),
        (RestartPolicy::Never, 0, 0, Some(1), false),
        (RestartPolicy::Never, 0, 0, None, false),
        (RestartPolicy::Always, 0, 5, Some(0), true),
        (RestartPolicy::Always, 0, 5, Some(1), true),
        (RestartPolicy::Always, 0, 5, None, true),
        (RestartPolicy::Always, 3, 2, Some(0), true),
        (RestartPolicy::Always, 3, 3, Some(0), false),
        (RestartPolicy::OnFailure, 0, 0, Some(0), false),
        (RestartPolicy::OnFailure, 0, 0, Some(2), true),
        (RestartPolicy::OnFailure, 0, 0, None, true),
        (RestartPolicy::OnFailure, 2, 1, Some(1), true),
        (RestartPolicy::OnFailure, 2, 2, Some(1), false),
        (RestartPolicy::OnFailure, 2, 2, Some(0), false),
    ];
    for (restart, max_restarts, count, exit, expected) in cases {
        let policy = PolicyConfig {
            restart,
            max_restarts,
            restart_delay_ms: 100,
            stop_timeout_ms: 100,
        };
        let mut runner = new_runner(policy);
        for _ in 0..count {
            runner.increment_restart_count();
        }
        assert_eq!(
            runner.should_restart(exit),
            expected,
            "policy {restart:?} max {max_restarts} count {count} exit {exit:?}"
        );
    }
}

#[test]
fn start_refused_once_over_the_restart_cap() {
    let policy = PolicyConfig {
        restart: RestartPolicy::OnFailure,
        max_restarts: 2,
        restart_delay_ms: 100,
        stop_timeout_ms: 100,
    };
    let mut runner = new_runner(policy);
    runner.increment_restart_count();
    runner.increment_restart_count();
    let result = runner.begin_start(true, 0);
    assert!(result.is_err());
    assert_eq!(runner.state(), ServiceState::Failed);
    // the runner never re-enters Starting from here
    assert!(!runner.should_restart(Some(1)));
}

#[test]
fn health_transitions_follow_the_table() {
    let mut runner = new_runner(PolicyConfig::default());
    runner.begin_start(true, 0).unwrap().unwrap();
    runner.note_spawned(1, None);
    assert_eq!(runner.get_status(), ServiceStatus::Running);

    // Running + healthy -> Healthy
    runner.update_health(true, 1_000);
    assert_eq!(runner.get_status(), ServiceStatus::Healthy);

    // Healthy + sick -> Degraded
    runner.update_health(false, 2_000);
    assert_eq!(runner.get_status(), ServiceStatus::Degraded);

    // Degraded + healthy -> Healthy
    runner.update_health(true, 3_000);
    assert_eq!(runner.get_status(), ServiceStatus::Healthy);

    // Degraded + sick stays Degraded; Running + sick stays Running
    runner.update_health(false, 4_000);
    runner.update_health(false, 5_000);
    assert_eq!(runner.get_status(), ServiceStatus::Degraded);
}

#[test]
fn sixty_seconds_of_health_resets_the_restart_counter() {
    let mut runner = new_runner(PolicyConfig::default());
    runner.increment_restart_count();
    runner.begin_start(true, 0).unwrap().unwrap();
    runner.note_spawned(1, None);
    runner.update_health(true, 10_000);
    assert_eq!(runner.restart_count(), 1);
    // still healthy one minute later: the burst is forgiven
    runner.update_health(true, 70_000);
    assert_eq!(runner.restart_count(), 0);
}

#[test]
fn reset_fires_only_at_the_sixty_second_mark() {
    let mut runner = new_runner(PolicyConfig::default());
    runner.increment_restart_count();
    runner.begin_start(true, 0).unwrap().unwrap();
    runner.note_spawned(1, None);
    // the streak starts on the Running -> Healthy edge
    runner.update_health(true, 10_000);
    assert_eq!(runner.restart_count(), 1);
    // one millisecond short of a minute: no reset
    runner.update_health(true, 69_999);
    assert_eq!(runner.restart_count(), 1);
    // exactly one minute into the streak: the burst is forgiven
    runner.update_health(true, 70_000);
    assert_eq!(runner.restart_count(), 0);
}

#[test]
fn degradation_breaks_the_healthy_streak() {
    let mut runner = new_runner(PolicyConfig::default());
    runner.increment_restart_count();
    runner.begin_start(true, 0).unwrap().unwrap();
    runner.note_spawned(1, None);
    runner.update_health(true, 0);
    // the service degrades and recovers; the streak starts over
    runner.update_health(false, 30_000);
    runner.update_health(true, 40_000);
    // a minute after the original start is not enough any more
    runner.update_health(true, 65_000);
    assert_eq!(runner.restart_count(), 1);
    // a minute after the recovery is
    runner.update_health(true, 100_000);
    assert_eq!(runner.restart_count(), 0);
}

#[test]
fn mark_failed_records_exit_and_raises_counter() {
    let mut runner = new_runner(PolicyConfig::default());
    runner.begin_start(true, 0).unwrap().unwrap();
    runner.note_spawned(7, Some(7));
    runner.mark_failed(Some(137));
    assert_eq!(runner.state(), ServiceState::Failed);
    assert_eq!(runner.restart_count(), 1);
    assert_eq!(runner.last_exit_code, Some(137));
    assert_eq!(runner.pid(), None);
}

#[test]
fn gpu_service_refused_without_gpu() {
    let mut config = shell_config(PolicyConfig::default());
    config.gpu = true;
    let mut runner = ServiceRunner::new("g".to_string(), "ws".to_string(), config, Vec::new());
    assert!(runner.begin_start(false, 0).is_err());
    assert_eq!(runner.state(), ServiceState::Pending);
    assert!(runner.begin_start(true, 0).is_ok());
    assert_eq!(runner.state(), ServiceState::Starting);
}

#[test]
fn pending_reports_as_starting() {
    let runner = new_runner(PolicyConfig::default());
    assert_eq!(runner.get_status(), ServiceStatus::Starting);
}
