use zephost::listing::export_format_is_csv;
use zephost::models::{
    CreateTaskRequest, HeartbeatRequest, SubmitResultRequest, TaskFilterQuery, TaskPriority, TaskStatus,
};
use zephost::state::{report_status, TaskState};

fn request(file: &str) -> CreateTaskRequest {
    CreateTaskRequest {
        user_id: None,
        file_name: Some(file.to_string()),
        quality: None,
        priority: None,
        payload: None,
        webhook_url: None,
    }
}

fn query() -> TaskFilterQuery {
    TaskFilterQuery { format: None, status: None, user_id: None, from_ms: None, to_ms: None, page: None, per_page: None }
}

#[test]
fn created_task_takes_defaults_and_next_id() {
    let mut state = TaskState::new();
    let task = state
        .create_task("  alice ".to_string(), CreateTaskRequest {
            user_id: Some("mallory".to_string()),
            file_name: None,
            quality: Some("  ".to_string()),
            priority: None,
            payload: None,
            webhook_url: Some("https://hooks.example/a".to_string()),
        }, 1_000)
        .unwrap();
    assert_eq!(task.id, 1);
    assert_eq!(task.user_id, "alice");
    assert_eq!(task.file_name, "sample-file.mp4");
    assert_eq!(task.quality, "beta");
    assert_eq!(task.priority, TaskPriority::Medium);
    assert_eq!(task.payload, "{}");
    assert_eq!(task.status, TaskStatus::Queued);
    assert_eq!(task.webhook_url.as_deref(), Some("https://hooks.example/a"));
    assert_eq!(task.created_at_ms, 1_000);
    assert_eq!(task.estimated_completion_ms, Some(1_000 + 20_000));
    let second = state.create_task("alice".to_string(), request("b.mp4"), 2_000).unwrap();
    assert_eq!(second.id, 2);
    assert_eq!(second.estimated_completion_ms, Some(2_000 + 20_000 * 2));
}

#[test]
fn blank_user_is_anonymous() {
    let mut state = TaskState::new();
    let task = state.create_task("   ".to_string(), request("a.mp4"), 5).unwrap();
    assert_eq!(task.user_id, "anonymous");
}

#[test]
fn fetch_hands_out_tasks_oldest_first() {
    let mut state = TaskState::new();
    state.create_task("alice".to_string(), request("one"), 10).unwrap();
    state.create_task("bob".to_string(), request("two"), 11).unwrap();
    let first = state.fetch_next_task(100).unwrap();
    assert_eq!(first.id, 1);
    assert_eq!(first.status, TaskStatus::Running);
    assert_eq!(first.started_at_ms, Some(100));
    assert_eq!(first.estimated_completion_ms, Some(100 + 15_000));
    let second = state.fetch_next_task(200).unwrap();
    assert_eq!(second.id, 2);
    assert!(state.fetch_next_task(300).is_none());
}

#[test]
fn cancelled_task_is_skipped_by_fetch() {
    let mut state = TaskState::new();
    state.create_task("alice".to_string(), request("one"), 10).unwrap();
    state.create_task("alice".to_string(), request("two"), 11).unwrap();
    let cancelled = state.cancel_task(1, 50).unwrap();
    assert_eq!(cancelled.status, TaskStatus::Cancelled);
    assert_eq!(cancelled.completed_at_ms, Some(50));
    assert_eq!(state.fetch_next_task(60).unwrap().id, 2);
}

#[test]
fn cancel_errors() {
    let mut state = TaskState::new();
    assert_eq!(state.cancel_task(1, 5).unwrap_err(), "task not found");
    state.create_task("alice".to_string(), request("one"), 10).unwrap();
    state.cancel_task(1, 20).unwrap();
    assert_eq!(state.cancel_task(1, 30).unwrap_err(), "task is already finalized");
    assert_eq!(state.cancel_task(0, 30).unwrap_err(), "task not found");
}

#[test]
fn running_task_can_be_cancelled() {
    let mut state = TaskState::new();
    state.create_task("alice".to_string(), request("one"), 10).unwrap();
    state.fetch_next_task(20).unwrap();
    assert_eq!(state.cancel_task(1, 30).unwrap().status, TaskStatus::Cancelled);
}

#[test]
fn submitted_results_finish_tasks() {
    let mut state = TaskState::new();
    state.create_task("alice".to_string(), request("one"), 10).unwrap();
    state.create_task("alice".to_string(), request("two"), 11).unwrap();
    state.fetch_next_task(20).unwrap();
    let done = state
        .submit_result(SubmitResultRequest { task_id: 1, result: "{\"ok\":true}".to_string(), success: None, reason: Some("  ".to_string()) }, 40)
        .unwrap();
    assert_eq!(done.status, TaskStatus::Completed);
    assert_eq!(done.result.as_deref(), Some("{\"ok\":true}"));
    assert_eq!(done.failure_reason, None);
    assert_eq!(done.completed_at_ms, Some(40));
    assert_eq!(done.estimated_completion_ms, Some(40));
    let failed = state
        .submit_result(SubmitResultRequest { task_id: 2, result: "{}".to_string(), success: Some(false), reason: Some(" timeout ".to_string()) }, 50)
        .unwrap();
    assert_eq!(failed.status, TaskStatus::Failed);
    assert_eq!(failed.failure_reason.as_deref(), Some("timeout"));
    assert!(state.fetch_next_task(60).is_none());
    let missing = state.submit_result(SubmitResultRequest { task_id: 9, result: "{}".to_string(), success: None, reason: None }, 70);
    assert_eq!(missing.unwrap_err(), "task not found");
}

#[test]
fn beta_admits_at_most_four_active_users() {
    let mut state = TaskState::new();
    for user in ["u1", "u2", "u3", "u4"] {
        state.create_task(user.to_string(), request("f"), 10).unwrap();
    }
    let refused = state.create_task("u5".to_string(), request("f"), 11).unwrap_err();
    assert_eq!(refused, "beta limit reached: only 4 active users can queue work");
    state.create_task("u1".to_string(), request("g"), 12).unwrap();
    state.cancel_task(2, 13).unwrap();
    assert_eq!(state.create_task("u5".to_string(), request("f"), 14).unwrap().user_id, "u5");
}

#[test]
fn rate_limit_allows_twenty_per_minute() {
    let mut state = TaskState::new();
    for i in 0..20u128 {
        state.create_task("alice".to_string(), request("f"), 1_000 + i).unwrap();
    }
    let refused = state.create_task("alice".to_string(), request("f"), 1_100).unwrap_err();
    assert_eq!(refused, "rate limit reached for this user (20 tasks / minute)");
    assert!(state.create_task("alice".to_string(), request("f"), 61_001).is_ok());
}

#[test]
fn rate_window_weighs_requests() {
    let mut state = TaskState::new();
    let alice = "alice".to_string();
    for i in 0..20u128 {
        assert!(state.within_rate_limit(&alice, 100 + i));
    }
    assert!(!state.within_rate_limit(&alice, 200));
    assert!(state.within_rate_limit(&"bob".to_string(), 200));
    assert!(state.within_rate_limit(&alice, 60_120));
}

#[test]
fn heartbeat_limits_sessions() {
    let mut state = TaskState::new();
    assert_eq!(state.heartbeat(HeartbeatRequest { session_id: "  ".to_string() }, 10).unwrap_err(), "session_id is required");
    for id in ["s1", "s2", "s3", "s4"] {
        state.heartbeat(HeartbeatRequest { session_id: id.to_string() }, 1_000).unwrap();
    }
    let refused = state.heartbeat(HeartbeatRequest { session_id: "s5".to_string() }, 1_000).unwrap_err();
    assert_eq!(refused, "beta limit reached: only 4 active dashboard sessions are allowed");
    let again = state.heartbeat(HeartbeatRequest { session_id: " s1 ".to_string() }, 2_000).unwrap();
    assert_eq!(again.active_users, 4);
    let later = state.heartbeat(HeartbeatRequest { session_id: "s5".to_string() }, 31_500).unwrap();
    assert_eq!(later.active_users, 2);
}

#[test]
fn status_counts_tasks_and_live_sessions() {
    let mut state = TaskState::new();
    state.create_task("alice".to_string(), request("a"), 10).unwrap();
    state.create_task("bob".to_string(), request("b"), 11).unwrap();
    state.create_task("carol".to_string(), request("c"), 12).unwrap();
    state.fetch_next_task(20).unwrap();
    state.fetch_next_task(21).unwrap();
    state.submit_result(SubmitResultRequest { task_id: 1, result: "{}".to_string(), success: Some(true), reason: None }, 30).unwrap();
    state.heartbeat(HeartbeatRequest { session_id: "s1".to_string() }, 100).unwrap();
    let status = state.status(200);
    assert_eq!(status.queued, 1);
    assert_eq!(status.running, 1);
    assert_eq!(status.completed, 1);
    assert_eq!(status.active_users, 1);
    assert_eq!(status.beta_user_limit, 4);
    assert_eq!(status.total_tasks, 3);
    assert_eq!(state.status(100 + 30_001).active_users, 0);
}

#[test]
fn listing_filters_and_pages_newest_first() {
    let mut state = TaskState::new();
    for (user, at) in [("alice", 10u128), ("bob", 20), ("alice", 30), ("alice", 40)] {
        state.create_task(user.to_string(), request("f"), at).unwrap();
    }
    state.fetch_next_task(50).unwrap();
    let all = state.list_tasks(query());
    assert_eq!(all.total, 4);
    assert_eq!(all.page, 1);
    assert_eq!(all.per_page, 20);
    assert_eq!(all.items.iter().map(|t| t.id).collect::<Vec<_>>(), vec![4, 3, 2, 1]);
    let mut q = query();
    q.user_id = Some("alice".to_string());
    q.from_ms = Some(20);
    q.per_page = Some(1);
    q.page = Some(2);
    let page = state.list_tasks(q);
    assert_eq!(page.total, 2);
    assert_eq!(page.per_page, 1);
    assert_eq!(page.items.iter().map(|t| t.id).collect::<Vec<_>>(), vec![3]);
    let mut running = query();
    running.status = Some("RUNNING".to_string());
    let listed = state.list_tasks(running);
    assert_eq!(listed.items.iter().map(|t| t.id).collect::<Vec<_>>(), vec![1]);
    let mut clamped = query();
    clamped.per_page = Some(1_000);
    clamped.page = Some(0);
    let c = state.list_tasks(clamped);
    assert_eq!((c.page, c.per_page), (1, 100));
    let mut beyond = query();
    beyond.page = Some(9);
    assert!(state.list_tasks(beyond).items.is_empty());
    let mut to = query();
    to.to_ms = Some(20);
    assert_eq!(state.list_tasks(to).total, 2);
}

#[test]
fn csv_export_lists_tasks_with_escaped_fields() {
    let mut state = TaskState::new();
    let mut req = request("clip, final.mp4");
    req.priority = Some(TaskPriority::High);
    state.create_task("alice".to_string(), req, 1_000).unwrap();
    state.fetch_next_task(2_000).unwrap();
    state
        .submit_result(SubmitResultRequest { task_id: 1, result: "{}".to_string(), success: Some(false), reason: Some("bad \"codec\"".to_string()) }, 3_000)
        .unwrap();
    let csv = state.export_tasks_csv(query());
    assert_eq!(
        csv,
        "id,user_id,file_name,quality,priority,status,created_at_ms,started_at_ms,completed_at_ms,failure_reason\n\
         1,alice,\"clip, final.mp4\",beta,High,Failed,1000,2000,3000,\"bad \"\"codec\"\"\"\n"
    );
    let empty = TaskState::new();
    assert_eq!(
        empty.export_tasks_csv(query()),
        "id,user_id,file_name,quality,priority,status,created_at_ms,started_at_ms,completed_at_ms,failure_reason\n"
    );
}

#[test]
fn export_format_selects_csv() {
    assert!(export_format_is_csv(&Some("csv".to_string())));
    assert!(!export_format_is_csv(&Some("CSV".to_string())));
    assert!(!export_format_is_csv(&None));
}

#[test]
fn refused_create_uses_no_id() {
    let mut state = TaskState::new();
    for user in ["u1", "u2", "u3", "u4"] {
        state.create_task(user.to_string(), request("f"), 10).unwrap();
    }
    assert!(state.create_task("u5".to_string(), request("f"), 11).is_err());
    state.fetch_next_task(12).unwrap();
    let next = state.create_task("u2".to_string(), request("g"), 13).unwrap();
    assert_eq!(next.id, 5);
    let ids: Vec<u64> = state.all_tasks().iter().map(|t| t.id).collect();
    assert_eq!(ids, vec![1, 2, 3, 4, 5]);
}

#[test]
fn create_adds_one_queued_task_behind_the_others() {
    let mut state = TaskState::new();
    state.create_task("alice".to_string(), request("a"), 10).unwrap();
    state.create_task("bob".to_string(), request("b"), 11).unwrap();
    state.fetch_next_task(12).unwrap();
    let before = state.status(13);
    let earlier: Vec<(u64, TaskStatus)> = state.all_tasks().iter().map(|t| (t.id, t.status)).collect();
    let t = state.create_task("carol".to_string(), request("c"), 14).unwrap();
    let after = state.status(15);
    assert_eq!(after.queued, before.queued + 1);
    assert_eq!(after.total_tasks, before.total_tasks + 1);
    assert_eq!(after.running, before.running);
    assert_eq!(after.completed, before.completed);
    let now: Vec<(u64, TaskStatus)> = state.all_tasks().iter().map(|t| (t.id, t.status)).collect();
    assert_eq!(&now[..2], &earlier[..]);
    assert_eq!(now[2], (t.id, TaskStatus::Queued));
    assert_eq!(state.fetch_next_task(16).unwrap().id, 2);
    assert_eq!(state.fetch_next_task(17).unwrap().id, t.id);
}

#[test]
fn no_task_is_fetched_twice() {
    let mut state = TaskState::new();
    state.create_task("alice".to_string(), request("a"), 10).unwrap();
    state.create_task("alice".to_string(), request("b"), 11).unwrap();
    let first = state.fetch_next_task(20).unwrap();
    state.create_task("alice".to_string(), request("c"), 21).unwrap();
    let mut seen = vec![first.id];
    while let Some(t) = state.fetch_next_task(30) {
        assert!(!seen.contains(&t.id));
        seen.push(t.id);
    }
    assert_eq!(seen, vec![1, 2, 3]);
}

#[test]
fn cancelled_task_is_never_fetched_later() {
    let mut state = TaskState::new();
    state.create_task("alice".to_string(), request("a"), 10).unwrap();
    state.cancel_task(1, 11).unwrap();
    state.create_task("alice".to_string(), request("b"), 12).unwrap();
    state.create_task("alice".to_string(), request("c"), 13).unwrap();
    let mut fetched = Vec::new();
    while let Some(t) = state.fetch_next_task(20) {
        fetched.push(t.id);
    }
    assert_eq!(fetched, vec![2, 3]);
}

#[test]
fn reported_task_stays_finished() {
    let mut state = TaskState::new();
    state.create_task("alice".to_string(), request("a"), 10).unwrap();
    state.fetch_next_task(11).unwrap();
    let done = state.submit_result(SubmitResultRequest { task_id: 1, result: "{}".to_string(), success: Some(true), reason: None }, 12).unwrap();
    assert_eq!(done.status, TaskStatus::Completed);
    assert_eq!(state.cancel_task(1, 13).unwrap_err(), "task is already finalized");
    state.create_task("alice".to_string(), request("b"), 14).unwrap();
    assert_eq!(state.fetch_next_task(15).unwrap().id, 2);
    let again = state.submit_result(SubmitResultRequest { task_id: 1, result: "{}".to_string(), success: Some(false), reason: None }, 16).unwrap();
    assert_eq!(again.status, TaskStatus::Failed);
    assert_eq!(state.all_tasks()[0].status, TaskStatus::Failed);
    assert!(state.fetch_next_task(17).is_none());
}

#[test]
fn report_status_follows_success() {
    assert_eq!(report_status(Some(false)), TaskStatus::Failed);
    assert_eq!(report_status(Some(true)), TaskStatus::Completed);
    assert_eq!(report_status(None), TaskStatus::Completed);
}

#[test]
fn rate_limit_counts_each_users_own_requests() {
    let mut state = TaskState::new();
    for i in 0..20u128 {
        assert!(state.create_task("alice".to_string(), request("a"), 1_000 + i).is_ok());
        assert!(state.create_task("bob".to_string(), request("b"), 1_000 + i).is_ok());
    }
    assert!(state.create_task("alice".to_string(), request("a"), 30_000).is_err());
    assert!(state.create_task("bob".to_string(), request("b"), 30_000).is_err());
    assert!(state.create_task("carol".to_string(), request("c"), 30_000).is_ok());
    assert!(state.create_task("alice".to_string(), request("a"), 61_010).is_ok());
}
