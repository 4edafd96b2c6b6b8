use krill::dag::{DagError, DependencyGraph};
use krill::dependency::{Dependency, DependencyCondition};
use krill::ipc::ServiceStatus;

fn simple_dep(name: &str) -> Dependency {
    Dependency::Simple(name.to_string())
}

fn healthy_dep(name: &str) -> Dependency {
    Dependency::WithCondition {
        service: name.to_string(),
        condition: DependencyCondition::Healthy,
    }
}

fn started_dep(name: &str) -> Dependency {
    Dependency::WithCondition {
        service: name.to_string(),
        condition: DependencyCondition::Started,
    }
}

#[test]
fn test_simple_graph() {
    let services = vec![
        ("a".to_string(), vec![]),
        ("b".to_string(), vec![simple_dep("a")]),
        ("c".to_string(), vec![simple_dep("b")]),
    ];

    let graph = DependencyGraph::new(&services).unwrap();
    let order = graph.startup_order().unwrap();

    assert_eq!(order, vec!["a", "b", "c"]);
}

#[test]
fn test_circular_dependency() {
    let services = vec![
        ("a".to_string(), vec![simple_dep("b")]),
        ("b".to_string(), vec![simple_dep("a")]),
    ];

    let result = DependencyGraph::new(&services);
    assert!(matches!(result, Err(DagError::CircularDependency(_))));
}

#[test]
fn test_shutdown_order() {
    let services = vec![
        ("a".to_string(), vec![]),
        ("b".to_string(), vec![simple_dep("a")]),
        ("c".to_string(), vec![simple_dep("b")]),
    ];

    let graph = DependencyGraph::new(&services).unwrap();
    let order = graph.shutdown_order().unwrap();

    assert_eq!(order, vec!["c", "b", "a"]);
}

#[test]
fn test_cascade_failure() {
    let services = vec![
        ("a".to_string(), vec![]),
        ("b".to_string(), vec![simple_dep("a")]),
        ("c".to_string(), vec![simple_dep("b")]),
        ("d".to_string(), vec![simple_dep("a")]),
    ];

    let graph = DependencyGraph::new(&services).unwrap();
    let affected = graph.cascade_failure("a");

    assert!(affected.contains(&"b".to_string()));
    assert!(affected.contains(&"c".to_string()));
    assert!(affected.contains(&"d".to_string()));
    assert!(!affected.contains(&"a".to_string()));
}

#[test]
fn test_dependencies_satisfied() {
    let services = vec![
        ("a".to_string(), vec![]),
        ("b".to_string(), vec![healthy_dep("a")]),
    ];

    let graph = DependencyGraph::new(&services).unwrap();

    // When 'a' is healthy, 'b' dependencies are satisfied
    let satisfied = graph.dependencies_satisfied(
        "b",
        &vec![ServiceStatus::Healthy, ServiceStatus::Stopped],
    );
    assert!(satisfied);

    // When 'a' is only running (not healthy), 'b' dependencies are not satisfied
    let not_satisfied = graph.dependencies_satisfied(
        "b",
        &vec![ServiceStatus::Running, ServiceStatus::Stopped],
    );
    assert!(!not_satisfied);
}

#[test]
fn test_unknown_service_dependency() {
    let services = vec![("a".to_string(), vec![simple_dep("unknown")])];

    let result = DependencyGraph::new(&services);
    assert!(matches!(result, Err(DagError::UnknownService(_))));
}

#[test]
fn diamond_dependency_graph() {
    // A -> B, A -> C, B -> D, C -> D
    let services = vec![
        ("D".to_string(), vec![]),
        ("B".to_string(), vec![simple_dep("D")]),
        ("C".to_string(), vec![simple_dep("D")]),
        ("A".to_string(), vec![simple_dep("B"), simple_dep("C")]),
    ];

    let graph = DependencyGraph::new(&services).unwrap();
    let order = graph.startup_order().unwrap();

    // D must come before B and C; B and C must come before A
    let pos = |s: &str| order.iter().position(|x| x == s).unwrap();
    assert!(pos("D") < pos("B"));
    assert!(pos("D") < pos("C"));
    assert!(pos("B") < pos("A"));
    assert!(pos("C") < pos("A"));
}

#[test]
fn large_graph_ordering() {
    // Build a linear chain of 50 services: s0 -> s1 -> ... -> s49
    let mut services: Vec<(String, Vec<Dependency>)> = Vec::new();
    services.push(("s0".to_string(), vec![]));
    for i in 1..50 {
        services.push((format!("s{i}"), vec![simple_dep(&format!("s{}", i - 1))]));
    }

    let graph = DependencyGraph::new(&services).unwrap();
    let order = graph.startup_order().unwrap();
    assert_eq!(order.len(), 50);

    // Each service should appear after its dependency
    for i in 1..50 {
        let pos_prev = order
            .iter()
            .position(|x| x == &format!("s{}", i - 1))
            .unwrap();
        let pos_cur = order.iter().position(|x| x == &format!("s{i}")).unwrap();
        assert!(pos_prev < pos_cur, "s{} should come before s{i}", i - 1);
    }
}

#[test]
fn empty_graph_no_services() {
    let services: Vec<(String, Vec<Dependency>)> = Vec::new();
    let graph = DependencyGraph::new(&services).unwrap();
    let order = graph.startup_order().unwrap();
    assert!(order.is_empty());
}

#[test]
fn single_service_graph() {
    let services = vec![("only".to_string(), vec![])];
    let graph = DependencyGraph::new(&services).unwrap();

    let order = graph.startup_order().unwrap();
    assert_eq!(order, vec!["only"]);

    let shutdown = graph.shutdown_order().unwrap();
    assert_eq!(shutdown, vec!["only"]);
}

#[test]
fn cascade_failure_on_leaf_node() {
    // A -> B -> C (leaf)
    let services = vec![
        ("A".to_string(), vec![]),
        ("B".to_string(), vec![simple_dep("A")]),
        ("C".to_string(), vec![simple_dep("B")]),
    ];

    let graph = DependencyGraph::new(&services).unwrap();

    // Failing the leaf "C" should cascade to nothing (nobody depends on C)
    let affected = graph.cascade_failure("C");
    assert!(affected.is_empty(), "leaf failure should not cascade");
}

#[test]
fn dependencies_satisfied_with_started_condition() {
    let services = vec![
        ("a".to_string(), vec![]),
        ("b".to_string(), vec![started_dep("a")]),
    ];

    let graph = DependencyGraph::new(&services).unwrap();

    let check = |status: ServiceStatus| {
        graph.dependencies_satisfied("b", &vec![status, ServiceStatus::Stopped])
    };

    // Running, Healthy and Degraded satisfy Started
    assert!(check(ServiceStatus::Running));
    assert!(check(ServiceStatus::Healthy));
    assert!(check(ServiceStatus::Degraded));

    // Stopped and Starting do not satisfy Started
    assert!(!check(ServiceStatus::Stopped));
    assert!(!check(ServiceStatus::Starting));
}

#[test]
fn cycle_error_message_names_a_service() {
    let services = vec![
        ("x".to_string(), vec![simple_dep("y")]),
        ("y".to_string(), vec![simple_dep("x")]),
    ];
    match DependencyGraph::new(&services) {
        Err(e @ DagError::CircularDependency(_)) => {
            let msg = e.message();
            assert!(msg.contains("Circular dependency detected involving:"));
            // the payload names one of the declared services
            assert!(
                msg.contains("cycle through service x")
                    || msg.contains("cycle through service y"),
                "unexpected witness: {msg}"
            );
        }
        other => panic!("expected a cycle error, got {:?}", other.err()),
    }
}
