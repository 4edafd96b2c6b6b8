use krill::config::{ConfigError, KrillConfig, ServiceConfig};
use krill::dependency::Dependency;
use krill::execute::ExecuteConfig;
use krill::policy::PolicyConfig;

fn shell_service(command: &str) -> ServiceConfig {
    ServiceConfig {
        execute: ExecuteConfig::Shell {
            command: command.to_string(),
            stop_command: None,
            working_dir: None,
        },
        dependencies: Vec::new(),
        critical: false,
        gpu: false,
        health_check: None,
        policy: PolicyConfig::default(),
    }
}

fn workspace(services: Vec<(String, ServiceConfig)>) -> KrillConfig {
    KrillConfig {
        version: "1".to_string(),
        name: "test-workspace".to_string(),
        log_dir: None,
        env: Vec::new(),
        services,
    }
}

#[test]
fn valid_config_passes() {
    let config = workspace(vec![("service1".to_string(), shell_service("sleep 60"))]);
    assert!(config.validate().is_ok());
}

#[test]
fn invalid_version_rejected() {
    let mut config = workspace(vec![("s".to_string(), shell_service("sleep 60"))]);
    config.version = "2".to_string();
    let err = config.validate().unwrap_err();
    assert!(err.message().contains("Unsupported"));
}

#[test]
fn empty_workspace_name_rejected() {
    let mut config = workspace(vec![("s".to_string(), shell_service("sleep 60"))]);
    config.name = "".to_string();
    let err = config.validate().unwrap_err();
    assert!(err.message().contains("Invalid workspace name"));
}

#[test]
fn workspace_name_with_bad_characters_rejected() {
    let mut config = workspace(vec![("s".to_string(), shell_service("sleep 60"))]);
    config.name = "bad name!".to_string();
    let err = config.validate().unwrap_err();
    assert!(err.message().contains("invalid characters"));
}

#[test]
fn empty_services_rejected() {
    let config = workspace(Vec::new());
    assert!(matches!(config.validate(), Err(ConfigError::NoServices)));
}

#[test]
fn unknown_dependency_rejected() {
    let mut svc = shell_service("sleep 60");
    svc.dependencies
        .push(Dependency::Simple("nonexistent".to_string()));
    let config = workspace(vec![("service1".to_string(), svc)]);
    let err = config.validate().unwrap_err();
    assert!(err.message().contains("unknown service"));
}

#[test]
fn docker_executor_rejected() {
    let svc = ServiceConfig {
        execute: ExecuteConfig::Docker {
            image: "ubuntu:latest".to_string(),
            volumes: vec![],
            ports: vec![],
            privileged: false,
            network: None,
        },
        dependencies: Vec::new(),
        critical: false,
        gpu: false,
        health_check: None,
        policy: PolicyConfig::default(),
    };
    let config = workspace(vec![("service1".to_string(), svc)]);
    let err = config.validate().unwrap_err();
    assert!(err.message().contains("Pro"));
}

#[test]
fn unsafe_shell_command_rejected() {
    let config = workspace(vec![("service1".to_string(), shell_service("ls | grep foo"))]);
    let err = config.validate().unwrap_err();
    assert!(err.message().contains("Unsafe"));
}

#[test]
fn resolve_paths_joins_relative_directories() {
    let svc = ServiceConfig {
        execute: ExecuteConfig::Shell {
            command: "run.sh".to_string(),
            stop_command: None,
            working_dir: Some("rel/dir".to_string()),
        },
        dependencies: Vec::new(),
        critical: false,
        gpu: false,
        health_check: None,
        policy: PolicyConfig::default(),
    };
    let mut config = workspace(vec![("s".to_string(), svc)]);
    config.resolve_paths("/etc/krill");
    match &config.services[0].1.execute {
        ExecuteConfig::Shell { working_dir, .. } => {
            assert_eq!(working_dir.as_deref(), Some("/etc/krill/rel/dir"));
        }
        _ => unreachable!(),
    }
}
