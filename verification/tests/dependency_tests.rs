use krill::dependency::{Dependency, DependencyCondition};

#[test]
fn test_simple_dependency() {
    let dep = Dependency::Simple("lidar".to_string());
    assert_eq!(dep.service_name(), "lidar");
    assert_eq!(dep.condition(), DependencyCondition::Started);
}

#[test]
fn test_dependency_with_condition() {
    let dep = Dependency::WithCondition {
        service: "lidar".to_string(),
        condition: DependencyCondition::Healthy,
    };
    assert_eq!(dep.service_name(), "lidar");
    assert_eq!(dep.condition(), DependencyCondition::Healthy);
}

#[test]
fn duplicate_preserves_both_forms() {
    let simple = Dependency::Simple("cam".to_string());
    assert_eq!(simple.duplicate(), simple);

    let cond = Dependency::WithCondition {
        service: "nav".to_string(),
        condition: DependencyCondition::Healthy,
    };
    assert_eq!(cond.duplicate(), cond);
}
