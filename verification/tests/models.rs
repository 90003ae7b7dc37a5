use zephost::models::{
    estimate_completion, estimated_runtime_ms, ms_i64, priority_from_str, priority_to_str, route_task, status_from_str,
    status_to_str, TaskPriority, TaskStatus,
};

#[test]
fn runtime_estimates_by_priority() {
    assert_eq!(estimated_runtime_ms(&TaskPriority::High, true), 8_000);
    assert_eq!(estimated_runtime_ms(&TaskPriority::Medium, true), 15_000);
    assert_eq!(estimated_runtime_ms(&TaskPriority::Low, true), 22_000);
    assert_eq!(estimated_runtime_ms(&TaskPriority::High, false), 13_000);
    assert_eq!(estimated_runtime_ms(&TaskPriority::Low, false), 27_000);
}

#[test]
fn completion_estimate_counts_the_queue_ahead() {
    assert_eq!(estimate_completion(1_000, 0, &TaskPriority::Medium, false), 21_000);
    assert_eq!(estimate_completion(1_000, 2, &TaskPriority::High, false), 1_000 + 13_000 * 3);
}

#[test]
fn status_names_round_trip() {
    for status in [TaskStatus::Queued, TaskStatus::Running, TaskStatus::Completed, TaskStatus::Failed, TaskStatus::Cancelled] {
        assert_eq!(status_from_str(status_to_str(&status)), status);
    }
    assert_eq!(status_to_str(&TaskStatus::Cancelled), "cancelled");
    assert_eq!(status_from_str("bogus"), TaskStatus::Queued);
    assert_eq!(status_from_str("Running"), TaskStatus::Queued);
}

#[test]
fn priority_names_round_trip() {
    for priority in [TaskPriority::High, TaskPriority::Medium, TaskPriority::Low] {
        assert_eq!(priority_from_str(priority_to_str(&priority)), priority);
    }
    assert_eq!(priority_to_str(&TaskPriority::High), "high");
    assert_eq!(priority_from_str("urgent"), TaskPriority::Medium);
}

#[test]
fn ms_i64_caps_at_i64_max() {
    assert_eq!(ms_i64(42), 42);
    assert_eq!(ms_i64(i64::MAX as u128), i64::MAX);
    assert_eq!(ms_i64(u128::MAX), i64::MAX);
}

#[test]
fn routing_by_priority() {
    let low = route_task(&TaskPriority::Low).unwrap();
    assert_eq!(low.node_type, "edge_node");
    assert_eq!(low.node_label, "Zephost Edge 03");
    assert_eq!(low.estimated_cost, 3);
    let high = route_task(&TaskPriority::High).unwrap();
    assert_eq!(high.node_type, "cloud_vm");
    assert_eq!(high.node_label, "Zephost Cloud 07");
    assert_eq!(high.estimated_cost, 15);
    assert!(route_task(&TaskPriority::Medium).is_none());
}
