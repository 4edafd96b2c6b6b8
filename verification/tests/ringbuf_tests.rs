use krill::dag::DependencyGraph;
use krill::dependency::Dependency;
use krill::ringbuf::RingBuffer;
use krill::safety::SafetyImpact;

#[test]
fn ring_buffer_drops_oldest_when_full() {
    let mut buf: RingBuffer<u32> = RingBuffer::new(3);
    assert!(buf.is_empty());
    buf.push(1);
    buf.push(2);
    buf.push(3);
    assert_eq!(buf.len(), 3);
    assert_eq!(buf.get_lines(), vec![1, 2, 3]);

    buf.push(4);
    assert_eq!(buf.len(), 3);
    assert_eq!(buf.get_lines(), vec![2, 3, 4]);

    buf.clear();
    assert!(buf.is_empty());
    assert_eq!(buf.len(), 0);
}

#[test]
fn ring_buffer_of_strings() {
    let mut buf: RingBuffer<String> = RingBuffer::new(2);
    buf.push("first".to_string());
    buf.push("second".to_string());
    buf.push("third".to_string());
    assert_eq!(buf.get_lines(), vec!["second", "third"]);
}

#[test]
fn safety_impact_new_is_empty() {
    let impact = SafetyImpact::new("lidar".to_string());
    assert_eq!(impact.service, "lidar");
    assert!(!impact.is_critical);
    assert_eq!(impact.dependents_count, 0);
    assert!(!impact.would_trigger_emergency);
    assert!(impact.dependents.is_empty());
}

#[test]
fn safety_impact_counts_transitive_dependents() {
    let services = vec![
        ("base".to_string(), vec![]),
        ("mid".to_string(), vec![Dependency::Simple("base".to_string())]),
        ("top".to_string(), vec![Dependency::Simple("mid".to_string())]),
    ];
    let dag = DependencyGraph::new(&services).unwrap();
    let impact = krill::safety::analyze_safety_impact(&dag, "base", true);
    assert_eq!(impact.dependents_count, 2);
    assert!(impact.would_trigger_emergency);
    assert!(impact.dependents.contains(&"mid".to_string()));
    assert!(impact.dependents.contains(&"top".to_string()));
}
