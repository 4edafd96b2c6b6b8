use krill::execute::{ExecuteConfig, VolumeMount};

#[test]
fn executor_type_for_all_variants() {
    let pixi = ExecuteConfig::Pixi {
        task: "t".to_string(),
        environment: None,
        stop_task: None,
        working_dir: None,
    };
    assert_eq!(pixi.executor_type(), "pixi");

    let ros2 = ExecuteConfig::Ros2 {
        package: "p".to_string(),
        launch_file: "l".to_string(),
        launch_args: Vec::new(),
        stop_task: None,
        working_dir: None,
    };
    assert_eq!(ros2.executor_type(), "ros2");

    let shell = ExecuteConfig::Shell {
        command: "c".to_string(),
        stop_command: None,
        working_dir: None,
    };
    assert_eq!(shell.executor_type(), "shell");

    let docker = ExecuteConfig::Docker {
        image: "img".to_string(),
        volumes: vec![],
        ports: vec![],
        privileged: false,
        network: None,
    };
    assert_eq!(docker.executor_type(), "docker");
}

#[test]
fn resolve_working_dir_relative_path() {
    let base = "/home/user/project";

    let mut config = ExecuteConfig::Shell {
        command: "run.sh".to_string(),
        stop_command: None,
        working_dir: Some("src/app".to_string()),
    };
    config.resolve_working_dir(base);

    match config {
        ExecuteConfig::Shell { working_dir, .. } => {
            assert_eq!(working_dir, Some("/home/user/project/src/app".to_string()));
        }
        _ => unreachable!(),
    }
}

#[test]
fn resolve_working_dir_absolute_path_unchanged() {
    let base = "/home/user/project";

    let mut config = ExecuteConfig::Pixi {
        task: "t".to_string(),
        environment: None,
        stop_task: None,
        working_dir: Some("/absolute/path".to_string()),
    };
    config.resolve_working_dir(base);

    match config {
        ExecuteConfig::Pixi { working_dir, .. } => {
            assert_eq!(working_dir, Some("/absolute/path".to_string()));
        }
        _ => unreachable!(),
    }
}

#[test]
fn resolve_working_dir_docker_is_noop() {
    let base = "/base";
    let mut config = ExecuteConfig::Docker {
        image: "img".to_string(),
        volumes: vec![],
        ports: vec![],
        privileged: false,
        network: None,
    };
    // Should not panic and must leave the config unchanged
    config.resolve_working_dir(base);
    assert!(matches!(config, ExecuteConfig::Docker { .. }));
}

#[test]
fn volume_mount_accessors() {
    let v = VolumeMount::Detailed {
        host: "/data".to_string(),
        container: "/workspace".to_string(),
        read_only: true,
    };
    assert_eq!(v.host(), "/data");
    assert_eq!(v.container(), "/workspace");
    assert!(v.read_only());
}
