use krill::execute::{ExecuteConfig, PortMapping, VolumeMount};
use krill::process::{
    build_command, generate_process_name, get_stop_command, get_working_dir,
};

#[test]
fn test_generate_process_name() {
    let name = generate_process_name("lidar", None).unwrap();
    assert_eq!(name, "krill.lidar");

    let name_with_id = generate_process_name("camera", Some(42)).unwrap();
    assert_eq!(name_with_id, "krill.camera.42");
}

#[test]
fn test_invalid_process_name() {
    let result = generate_process_name("", None);
    assert!(result.is_err());

    let result = generate_process_name("bad name!", None);
    assert!(result.is_err());
}

#[test]
fn test_build_pixi_command() {
    let config = ExecuteConfig::Pixi {
        task: "start-lidar".to_string(),
        environment: Some("drivers".to_string()),
        stop_task: None,
        working_dir: None,
    };

    let cmd = build_command(&config, &Vec::new()).unwrap();
    assert_eq!(cmd, vec!["pixi", "run", "-e", "drivers", "start-lidar"]);
}

#[test]
fn test_build_ros2_command() {
    let launch_args = vec![("use_sim_time".to_string(), "true".to_string())];

    let config = ExecuteConfig::Ros2 {
        package: "nav2_bringup".to_string(),
        launch_file: "navigation.launch.py".to_string(),
        launch_args,
        stop_task: None,
        working_dir: None,
    };

    let cmd = build_command(&config, &Vec::new()).unwrap();
    assert!(cmd[0] == "ros2");
    assert!(cmd[1] == "launch");
    assert!(cmd.contains(&"use_sim_time:=true".to_string()));
}

#[test]
fn test_build_shell_command() {
    let config = ExecuteConfig::Shell {
        command: "echo hello".to_string(),
        stop_command: None,
        working_dir: None,
    };

    let cmd = build_command(&config, &Vec::new()).unwrap();
    assert_eq!(cmd, vec!["sh", "-c", "echo hello"]);
}

#[test]
fn test_build_docker_command() {
    let config = ExecuteConfig::Docker {
        image: "ros:humble".to_string(),
        volumes: vec![VolumeMount::Detailed {
            host: "/data".to_string(),
            container: "/workspace".to_string(),
            read_only: true,
        }],
        ports: vec![PortMapping {
            host: 8080,
            container: 80,
            protocol: "tcp".to_string(),
        }],
        privileged: true,
        network: Some("host".to_string()),
    };

    let env = vec![("ROS_DOMAIN_ID".to_string(), "42".to_string())];

    let cmd = build_command(&config, &env).unwrap();
    assert!(cmd.contains(&"docker".to_string()));
    assert!(cmd.contains(&"--privileged".to_string()));
    assert!(cmd.contains(&"-v".to_string()));
    assert!(cmd.contains(&"-p".to_string()));
    assert!(cmd.contains(&"/data:/workspace:ro".to_string()));
    assert!(cmd.contains(&"8080:80/tcp".to_string()));
    assert!(cmd.contains(&"ROS_DOMAIN_ID=42".to_string()));
}

#[test]
fn test_get_stop_command() {
    let config = ExecuteConfig::Shell {
        command: "start.sh".to_string(),
        stop_command: Some("stop.sh".to_string()),
        working_dir: None,
    };

    let stop_cmd = get_stop_command(&config);
    assert!(stop_cmd.is_some());
    assert_eq!(stop_cmd.unwrap(), vec!["sh", "-c", "stop.sh"]);
}

#[test]
fn pixi_command_without_environment() {
    let config = ExecuteConfig::Pixi {
        task: "build".to_string(),
        environment: None,
        stop_task: None,
        working_dir: None,
    };

    let cmd = build_command(&config, &Vec::new()).unwrap();
    assert_eq!(cmd, vec!["pixi", "run", "build"]);
    // Should NOT contain "-e"
    assert!(!cmd.contains(&"-e".to_string()));
}

#[test]
fn get_stop_command_pixi_with_stop_task() {
    let config = ExecuteConfig::Pixi {
        task: "start".to_string(),
        environment: Some("drivers".to_string()),
        stop_task: Some("cleanup".to_string()),
        working_dir: None,
    };

    let stop = get_stop_command(&config).unwrap();
    assert_eq!(stop, vec!["pixi", "run", "-e", "drivers", "cleanup"]);
}

#[test]
fn get_stop_command_ros2_with_stop_task() {
    let config = ExecuteConfig::Ros2 {
        package: "nav2".to_string(),
        launch_file: "nav.launch.py".to_string(),
        launch_args: Vec::new(),
        stop_task: Some("ros2 lifecycle set /nav2 shutdown".to_string()),
        working_dir: None,
    };

    let stop = get_stop_command(&config).unwrap();
    assert_eq!(stop, vec!["sh", "-c", "ros2 lifecycle set /nav2 shutdown"]);
}

#[test]
fn get_stop_command_returns_none_when_missing() {
    let configs = vec![
        ExecuteConfig::Pixi {
            task: "t".to_string(),
            environment: None,
            stop_task: None,
            working_dir: None,
        },
        ExecuteConfig::Ros2 {
            package: "p".to_string(),
            launch_file: "l".to_string(),
            launch_args: Vec::new(),
            stop_task: None,
            working_dir: None,
        },
        ExecuteConfig::Shell {
            command: "c".to_string(),
            stop_command: None,
            working_dir: None,
        },
        ExecuteConfig::Docker {
            image: "img".to_string(),
            volumes: vec![],
            ports: vec![],
            privileged: false,
            network: None,
        },
    ];

    for cfg in &configs {
        assert!(
            get_stop_command(cfg).is_none(),
            "expected None for {:?}",
            cfg.executor_type()
        );
    }
}

#[test]
fn get_working_dir_for_each_variant() {
    let wd = Some("/work".to_string());

    let pixi = ExecuteConfig::Pixi {
        task: "t".to_string(),
        environment: None,
        stop_task: None,
        working_dir: wd.clone(),
    };
    assert_eq!(get_working_dir(&pixi), wd);

    let ros2 = ExecuteConfig::Ros2 {
        package: "p".to_string(),
        launch_file: "l".to_string(),
        launch_args: Vec::new(),
        stop_task: None,
        working_dir: wd.clone(),
    };
    assert_eq!(get_working_dir(&ros2), wd);

    let shell = ExecuteConfig::Shell {
        command: "c".to_string(),
        stop_command: None,
        working_dir: wd.clone(),
    };
    assert_eq!(get_working_dir(&shell), wd);

    let docker = ExecuteConfig::Docker {
        image: "img".to_string(),
        volumes: vec![],
        ports: vec![],
        privileged: false,
        network: None,
    };
    assert_eq!(get_working_dir(&docker), None);
}

#[test]
fn docker_command_without_optional_fields() {
    let config = ExecuteConfig::Docker {
        image: "alpine:latest".to_string(),
        volumes: vec![],
        ports: vec![],
        privileged: false,
        network: None,
    };

    let cmd = build_command(&config, &Vec::new()).unwrap();
    assert_eq!(cmd, vec!["docker", "run", "alpine:latest"]);
    assert!(!cmd.contains(&"--privileged".to_string()));
    assert!(!cmd.contains(&"--network".to_string()));
    assert!(!cmd.contains(&"-v".to_string()));
    assert!(!cmd.contains(&"-p".to_string()));
}

#[test]
fn generate_process_name_with_hyphens_and_underscores() {
    let name = generate_process_name("my-service_v2", None).unwrap();
    assert_eq!(name, "krill.my-service_v2");

    let name = generate_process_name("a-b_c-d", Some(7)).unwrap();
    assert_eq!(name, "krill.a-b_c-d.7");
}
