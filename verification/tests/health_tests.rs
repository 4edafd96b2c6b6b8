use krill::health::HealthChecker;
use krill::policy::PolicyConfig;

#[test]
fn test_heartbeat_checker() {
    let mut checker = HealthChecker::Heartbeat {
        last_seen: None,
        timeout_ms: 5000,
    };

    assert!(!checker.is_timed_out(1_000));

    checker.record_heartbeat(1_000).unwrap();
    assert!(!checker.is_timed_out(2_000));
}

#[test]
fn test_tcp_checker() {
    let checker = HealthChecker::Tcp {
        port: 8080,
        timeout_ms: 2000,
    };

    assert_eq!(checker.timeout(), Some(2000));
}

#[test]
fn test_http_checker() {
    let checker = HealthChecker::Http {
        port: 3000,
        path: "/health".to_string(),
        expected_status: 200,
    };

    assert_eq!(checker.timeout(), None);
}

#[test]
fn test_script_checker() {
    let checker = HealthChecker::Script {
        command: "check_health.sh".to_string(),
        timeout_ms: 10_000,
    };

    assert_eq!(checker.timeout(), Some(10_000));
}

#[test]
fn heartbeat_timeout_detection() {
    // last heartbeat sixty seconds ago with a five second timeout
    let t0: u64 = 100_000;
    let checker = HealthChecker::Heartbeat {
        last_seen: Some(t0),
        timeout_ms: 5_000,
    };
    assert!(
        checker.is_timed_out(t0 + 60_000),
        "heartbeat 60s ago should be timed out with 5s timeout"
    );
}

#[test]
fn heartbeat_not_timed_out_when_no_last_seen() {
    let checker = HealthChecker::Heartbeat {
        last_seen: None,
        timeout_ms: 5_000,
    };
    assert!(
        !checker.is_timed_out(1_000_000),
        "no last_seen should not be considered timed out"
    );
}

#[test]
fn record_heartbeat_on_non_heartbeat_checker_returns_error() {
    let mut tcp = HealthChecker::Tcp {
        port: 8080,
        timeout_ms: 2_000,
    };
    let result = tcp.record_heartbeat(5);
    assert!(result.is_err());

    let mut http = HealthChecker::Http {
        port: 3000,
        path: "/health".to_string(),
        expected_status: 200,
    };
    let result = http.record_heartbeat(5);
    assert!(result.is_err());

    let mut script = HealthChecker::Script {
        command: "probe.sh".to_string(),
        timeout_ms: 5_000,
    };
    let result = script.record_heartbeat(5);
    assert!(result.is_err());
}

#[test]
fn multiple_heartbeat_recordings() {
    let mut checker = HealthChecker::Heartbeat {
        last_seen: None,
        timeout_ms: 30_000,
    };

    // First heartbeat
    checker.record_heartbeat(1_000).unwrap();
    assert!(!checker.is_timed_out(1_500));

    // A later heartbeat refreshes the record
    checker.record_heartbeat(40_000).unwrap();
    assert!(!checker.is_timed_out(41_000));

    // Going quiet past the timeout is detected
    assert!(checker.is_timed_out(40_000 + 30_001));
}

#[test]
fn backwards_clock_counts_as_no_elapsed_time() {
    let checker = HealthChecker::Heartbeat {
        last_seen: Some(50_000),
        timeout_ms: 1_000,
    };
    // a clock reading before the recorded heartbeat never times out
    assert!(!checker.is_timed_out(10_000));
}

#[test]
fn test_default_policy() {
    let policy = PolicyConfig::default();
    assert!(matches!(
        policy.restart,
        krill::policy::RestartPolicy::OnFailure
    ));
    assert_eq!(policy.max_restarts, 0);
    assert_eq!(policy.restart_delay_ms, 5_000);
    assert_eq!(policy.stop_timeout_ms, 10_000);
}
