use krill::daemon::{ErrorCategory, StartupError, StartupMessage};
use krill::ipc::{
    ClientMessage, CommandAction, DurationVal, ServerMessage, ServiceSnapshot, ServiceStatus,
};

#[test]
fn heartbeat_round_trips() {
    let msg = ClientMessage::Heartbeat {
        service: "lidar".to_string(),
        status: ServiceStatus::Healthy,
        metadata: vec![("version".to_string(), "1.0".to_string())],
    };

    let json = msg.to_json();
    assert_eq!(
        json,
        "{\"type\":\"heartbeat\",\"service\":\"lidar\",\"status\":\"healthy\",\
         \"metadata\":{\"version\":\"1.0\"}}"
    );
    let decoded = ClientMessage::from_json(&json).unwrap();
    assert_eq!(msg, decoded);
}

#[test]
fn test_command_message() {
    let msg = ClientMessage::Command {
        action: CommandAction::Start,
        target: Some("navigator".to_string()),
    };

    let json = msg.to_json();
    assert!(json.contains("\"type\":\"command\""));
    assert!(json.contains("\"action\":\"start\""));
    let decoded = ClientMessage::from_json(&json).unwrap();
    assert_eq!(msg, decoded);
}

#[test]
fn every_client_variant_round_trips() {
    let messages = vec![
        ClientMessage::Heartbeat {
            service: "a".to_string(),
            status: ServiceStatus::Running,
            metadata: vec![],
        },
        ClientMessage::Heartbeat {
            service: "b".to_string(),
            status: ServiceStatus::Degraded,
            metadata: vec![
                ("k1".to_string(), "v1".to_string()),
                ("k2".to_string(), "v2".to_string()),
            ],
        },
        ClientMessage::Command {
            action: CommandAction::StopDaemon,
            target: None,
        },
        ClientMessage::Command {
            action: CommandAction::Kill,
            target: Some("svc".to_string()),
        },
        ClientMessage::Subscribe {
            events: true,
            logs: Some("svc".to_string()),
        },
        ClientMessage::Subscribe {
            events: false,
            logs: None,
        },
        ClientMessage::GetSnapshot,
        ClientMessage::GetLogs {
            service: Some("svc".to_string()),
        },
        ClientMessage::GetLogs { service: None },
    ];
    for msg in messages {
        let json = msg.to_json();
        let decoded = ClientMessage::from_json(&json)
            .unwrap_or_else(|| panic!("failed to decode {json}"));
        assert_eq!(msg, decoded, "round trip changed {json}");
    }
}

#[test]
fn test_server_error() {
    let msg = ServerMessage::Error {
        message: "Service not found".to_string(),
        code: Some(404),
    };

    let json = msg.to_json();
    let decoded = ServerMessage::from_json(&json).unwrap();
    assert_eq!(msg, decoded);
}

#[test]
fn test_snapshot_message() {
    let services = vec![(
        "lidar".to_string(),
        ServiceSnapshot {
            status: ServiceStatus::Running,
            pid: Some(1234),
            uptime: Some(DurationVal {
                secs: 300,
                nanos: 0,
            }),
            restart_count: 0,
            last_error: None,
            namespace: "test-workspace".to_string(),
            executor_type: "pixi".to_string(),
            dependencies: vec!["imu".to_string()],
            uses_gpu: false,
            critical: true,
            restart_policy: "OnFailure".to_string(),
            max_restarts: 3,
        },
    )];

    let msg = ServerMessage::Snapshot { services };
    let json = msg.to_json();
    let decoded = ServerMessage::from_json(&json).unwrap();
    assert_eq!(msg, decoded);
}

#[test]
fn every_server_variant_round_trips() {
    let messages = vec![
        ServerMessage::Ack { request_id: None },
        ServerMessage::Ack {
            request_id: Some("r1".to_string()),
        },
        ServerMessage::Error {
            message: "boom".to_string(),
            code: None,
        },
        ServerMessage::Error {
            message: "neg".to_string(),
            code: Some(-7),
        },
        ServerMessage::StatusUpdate {
            service: "svc".to_string(),
            status: ServiceStatus::Stopping,
        },
        ServerMessage::LogLine {
            service: "svc".to_string(),
            line: "hello world".to_string(),
        },
        ServerMessage::Snapshot { services: vec![] },
        ServerMessage::LogHistory {
            service: Some("svc".to_string()),
            lines: vec!["l1".to_string(), "l2".to_string()],
        },
        ServerMessage::LogHistory {
            service: None,
            lines: vec![],
        },
    ];
    for msg in messages {
        let json = msg.to_json();
        let decoded = ServerMessage::from_json(&json)
            .unwrap_or_else(|| panic!("failed to decode {json}"));
        assert_eq!(msg, decoded, "round trip changed {json}");
    }
}

#[test]
fn strings_with_escapes_round_trip() {
    let msg = ServerMessage::LogLine {
        service: "svc".to_string(),
        line: "quote \" backslash \\ newline \n tab \t done".to_string(),
    };
    let json = msg.to_json();
    let decoded = ServerMessage::from_json(&json).unwrap();
    assert_eq!(msg, decoded);
}

#[test]
fn control_characters_are_escaped_and_round_trip() {
    let msg = ServerMessage::LogLine {
        service: "svc".to_string(),
        line: "bell \u{7} backspace \u{8} formfeed \u{c} escape \u{1b} end".to_string(),
    };
    let json = msg.to_json();
    // the frame stays valid JSON: no raw control characters on the wire
    assert!(json.chars().all(|c| c >= ' '), "raw control char in {json:?}");
    assert!(json.contains("\\u0007"));
    assert!(json.contains("\\b"));
    assert!(json.contains("\\f"));
    assert!(json.contains("\\u001b"));
    let decoded = ServerMessage::from_json(&json).unwrap();
    assert_eq!(msg, decoded);
}

#[test]
fn status_labels_match_the_wire_enum() {
    let expected = [
        (ServiceStatus::Starting, "starting"),
        (ServiceStatus::Running, "running"),
        (ServiceStatus::Healthy, "healthy"),
        (ServiceStatus::Degraded, "degraded"),
        (ServiceStatus::Stopping, "stopping"),
        (ServiceStatus::Stopped, "stopped"),
        (ServiceStatus::Failed, "failed"),
    ];
    for (status, label) in expected {
        let msg = ServerMessage::StatusUpdate {
            service: "s".to_string(),
            status,
        };
        let json = msg.to_json();
        assert!(json.contains(&format!("\"status\":\"{label}\"")), "{json}");
    }
}

#[test]
fn malformed_frames_are_rejected() {
    assert!(ClientMessage::from_json("").is_none());
    assert!(ClientMessage::from_json("{}").is_none());
    assert!(ClientMessage::from_json("{\"type\":\"unknown\"}").is_none());
    assert!(ClientMessage::from_json("{\"type\":\"get_snapshot\"} ").is_none());
    assert!(ServerMessage::from_json("{\"type\":\"ack\",\"request_id\":").is_none());
}

#[test]
fn startup_messages_encode_as_specified() {
    assert_eq!(StartupMessage::Success.to_json(), "\"Success\"");

    let err = StartupMessage::Error(StartupError {
        category: ErrorCategory::Config,
        message: "bad manifest".to_string(),
        path: Some("/etc/krill.yaml".to_string()),
        hint: "fix the version field".to_string(),
    });
    assert_eq!(
        err.to_json(),
        "{\"Error\":{\"category\":\"Config\",\"message\":\"bad manifest\",\
         \"path\":\"/etc/krill.yaml\",\"hint\":\"fix the version field\"}}"
    );

    let bare = StartupMessage::Error(StartupError {
        category: ErrorCategory::IpcServer,
        message: "bind failed".to_string(),
        path: None,
        hint: String::new(),
    });
    assert!(bare.to_json().contains("\"path\":null"));
}
