//! The records that the queue takes and gives, and the small rules on them:
//! status and priority names, runtime estimates and routing.
//!
//! JSON payloads and results are carried as their JSON text.

use vstd::prelude::*;

verus! {

/// At most this many users may have queued or running work, and at most
/// this many dashboard sessions may be live.
pub const BETA_USER_LIMIT: usize = 4;

/// A dashboard session lapses after this many milliseconds without heartbeat.
pub const SESSION_TTL_MS: u128 = 30_000;

/// A user may create at most this many tasks in any window of
/// `RATE_WINDOW_MS` milliseconds.
pub const TASK_RATE_LIMIT_PER_MINUTE: usize = 20;

/// The length of the rate-limit window.
pub const RATE_WINDOW_MS: u128 = 60_000;

/// Where a task stands.
#[derive(Clone, Copy, Debug, PartialEq, Eq, Structural)]
pub enum TaskStatus {
    Queued,
    Running,
    Completed,
    Failed,
    Cancelled,
}

/// How urgent a task is.
#[derive(Clone, Copy, Debug, PartialEq, Eq, Structural)]
pub enum TaskPriority {
    High,
    Medium,
    Low,
}

/// A request to queue a task. `payload` is JSON text.
#[derive(Debug)]
pub struct CreateTaskRequest {
    pub user_id: Option<String>,
    pub file_name: Option<String>,
    pub quality: Option<String>,
    pub priority: Option<TaskPriority>,
    pub payload: Option<String>,
    pub webhook_url: Option<String>,
}

#[derive(Debug)]
pub struct LoginRequest {
    pub username: String,
    pub password: String,
}

#[derive(Debug)]
pub struct LoginResponse {
    pub token: String,
    pub api_keys: Vec<ApiKey>,
}

#[derive(Debug)]
pub struct CreateApiKeyRequest {
    pub label: Option<String>,
}

/// A worker's report on a task. `result` is JSON text.
#[derive(Debug)]
pub struct SubmitResultRequest {
    pub task_id: u64,
    pub result: String,
    pub success: Option<bool>,
    pub reason: Option<String>,
}

#[derive(Debug)]
pub struct HeartbeatRequest {
    pub session_id: String,
}

/// A queued unit of work. `payload` and `result` are JSON text.
#[derive(Debug)]
pub struct Task {
    pub id: u64,
    pub user_id: String,
    pub file_name: String,
    pub quality: String,
    pub priority: TaskPriority,
    pub payload: String,
    pub status: TaskStatus,
    pub result: Option<String>,
    pub failure_reason: Option<String>,
    pub webhook_url: Option<String>,
    pub created_at_ms: u128,
    pub started_at_ms: Option<u128>,
    pub completed_at_ms: Option<u128>,
    pub estimated_completion_ms: Option<u128>,
}

#[derive(Debug)]
pub struct FetchTaskResponse {
    pub task: Option<Task>,
}

#[derive(Debug)]
pub struct ApiKey {
    pub key: String,
    pub label: String,
    pub created_at_ms: u128,
}

#[derive(Debug)]
pub struct WaitlistRequest {
    pub name: Option<String>,
    pub email: String,
    pub use_case: Option<String>,
}

#[derive(Debug)]
pub struct WaitlistResponse {
    pub message: String,
}

#[derive(Debug)]
pub struct TaskListResponse {
    pub items: Vec<Task>,
    pub total: usize,
    pub page: usize,
    pub per_page: usize,
}

#[derive(Debug)]
pub struct TaskFilterQuery {
    pub format: Option<String>,
    pub status: Option<String>,
    pub user_id: Option<String>,
    pub from_ms: Option<u128>,
    pub to_ms: Option<u128>,
    pub page: Option<usize>,
    pub per_page: Option<usize>,
}

#[derive(Debug)]
pub struct StatusResponse {
    pub queued: usize,
    pub running: usize,
    pub completed: usize,
    pub active_users: usize,
    pub beta_user_limit: usize,
    pub total_tasks: usize,
}

#[derive(Debug)]
pub struct ApiError {
    pub error: String,
}

/// Where a task of some priority is sent, and what it costs there in whole
/// cost units.
#[derive(Debug)]
pub struct TaskRouteInfo {
    pub node_type: String,
    pub node_label: String,
    pub estimated_cost: u64,
}

/// A copy of an optional string.
pub fn copy_opt_string(o: &Option<String>) -> (r: Option<String>)
    ensures
        r == *o,
{
    match o {
        Some(s) => Some(s.clone()),
        None => None,
    }
}

impl Task {
    /// A field-for-field copy.
    pub fn copy(&self) -> (r: Task)
        ensures
            r == *self,
    {
        Task {
            id: self.id,
            user_id: self.user_id.clone(),
            file_name: self.file_name.clone(),
            quality: self.quality.clone(),
            priority: self.priority,
            payload: self.payload.clone(),
            status: self.status,
            result: copy_opt_string(&self.result),
            failure_reason: copy_opt_string(&self.failure_reason),
            webhook_url: copy_opt_string(&self.webhook_url),
            created_at_ms: self.created_at_ms,
            started_at_ms: self.started_at_ms,
            completed_at_ms: self.completed_at_ms,
            estimated_completion_ms: self.estimated_completion_ms,
        }
    }
}

impl ApiKey {
    /// A field-for-field copy.
    pub fn copy(&self) -> (r: ApiKey)
        ensures
            r == *self,
    {
        ApiKey { key: self.key.clone(), label: self.label.clone(), created_at_ms: self.created_at_ms }
    }
}

/// A copy of a list of API keys.
pub fn copy_api_keys(keys: &Vec<ApiKey>) -> (r: Vec<ApiKey>)
    ensures
        r@ == keys@,
{
    let mut out: Vec<ApiKey> = Vec::new();
    let mut i: usize = 0;
    while i < keys.len()
        invariant
            i <= keys.len(),
            out@ == keys@.take(i as int),
        decreases keys.len() - i,
    {
        out.push(keys[i].copy());
        assert(out@ =~= keys@.take(i + 1));
        i = i + 1;
    }
    assert(keys@.take(keys.len() as int) =~= keys@);
    out
}

/// How long a task of this priority is expected to run once started; five
/// seconds more while it still waits.
pub open spec fn runtime_ms(priority: TaskPriority, running: bool) -> u128 {
    let base: u128 = match priority {
        TaskPriority::High => 8_000,
        TaskPriority::Medium => 15_000,
        TaskPriority::Low => 22_000,
    };
    if running { base } else { (base + 5_000) as u128 }
}

/// The expected runtime of a task, in milliseconds.
pub fn estimated_runtime_ms(priority: &TaskPriority, running: bool) -> (r: u128)
    ensures
        r == runtime_ms(*priority, running),
        r <= 27_000,
{
    let base: u128 = match priority {
        TaskPriority::High => 8_000,
        TaskPriority::Medium => 15_000,
        TaskPriority::Low => 22_000,
    };
    if running {
        base
    } else {
        base + 5_000
    }
}

/// The expected completion time of a task behind `queue_depth` others.
pub open spec fn completion_estimate(now_ms: u128, queue_depth: nat, priority: TaskPriority, running: bool) -> int {
    now_ms + runtime_ms(priority, running) * (queue_depth + 1)
}

/// Estimates when a task behind `queue_depth` others completes.
pub fn estimate_completion(now_ms: u128, queue_depth: usize, priority: &TaskPriority, running: bool) -> (r: u128)
    requires
        completion_estimate(now_ms, queue_depth as nat, *priority, running) <= u128::MAX,
    ensures
        r == completion_estimate(now_ms, queue_depth as nat, *priority, running),
{
    let runtime = estimated_runtime_ms(priority, running);
    let depth = queue_depth as u128 + 1;
    proof {
        assert(runtime * depth <= u128::MAX) by (nonlinear_arith)
            requires
                now_ms + runtime * depth <= u128::MAX,
                now_ms >= 0,
        ;
    }
    now_ms + runtime * depth
}

/// The lower-case name of a status, as stored and served.
pub open spec fn status_name(status: TaskStatus) -> Seq<char> {
    match status {
        TaskStatus::Queued => "queued"@,
        TaskStatus::Running => "running"@,
        TaskStatus::Completed => "completed"@,
        TaskStatus::Failed => "failed"@,
        TaskStatus::Cancelled => "cancelled"@,
    }
}

/// The status that a stored name stands for; unknown names read as queued.
pub open spec fn status_named(name: Seq<char>) -> TaskStatus {
    if name == "running"@ {
        TaskStatus::Running
    } else if name == "completed"@ {
        TaskStatus::Completed
    } else if name == "failed"@ {
        TaskStatus::Failed
    } else if name == "cancelled"@ {
        TaskStatus::Cancelled
    } else {
        TaskStatus::Queued
    }
}

/// The lower-case name of a priority, as stored and served.
pub open spec fn priority_name(priority: TaskPriority) -> Seq<char> {
    match priority {
        TaskPriority::High => "high"@,
        TaskPriority::Medium => "medium"@,
        TaskPriority::Low => "low"@,
    }
}

/// The priority that a stored name stands for; unknown names read as medium.
pub open spec fn priority_named(name: Seq<char>) -> TaskPriority {
    if name == "high"@ {
        TaskPriority::High
    } else if name == "low"@ {
        TaskPriority::Low
    } else {
        TaskPriority::Medium
    }
}

pub fn status_to_str(status: &TaskStatus) -> (r: &'static str)
    ensures
        r@ == status_name(*status),
{
    match status {
        TaskStatus::Queued => "queued",
        TaskStatus::Running => "running",
        TaskStatus::Completed => "completed",
        TaskStatus::Failed => "failed",
        TaskStatus::Cancelled => "cancelled",
    }
}

pub fn status_from_str(status: &str) -> (r: TaskStatus)
    ensures
        r == status_named(status@),
{
    if crate::text::str_eq(status, "running") {
        TaskStatus::Running
    } else if crate::text::str_eq(status, "completed") {
        TaskStatus::Completed
    } else if crate::text::str_eq(status, "failed") {
        TaskStatus::Failed
    } else if crate::text::str_eq(status, "cancelled") {
        TaskStatus::Cancelled
    } else {
        TaskStatus::Queued
    }
}

pub fn priority_to_str(priority: &TaskPriority) -> (r: &'static str)
    ensures
        r@ == priority_name(*priority),
{
    match priority {
        TaskPriority::High => "high",
        TaskPriority::Medium => "medium",
        TaskPriority::Low => "low",
    }
}

pub fn priority_from_str(priority: &str) -> (r: TaskPriority)
    ensures
        r == priority_named(priority@),
{
    if crate::text::str_eq(priority, "high") {
        TaskPriority::High
    } else if crate::text::str_eq(priority, "low") {
        TaskPriority::Low
    } else {
        TaskPriority::Medium
    }
}

/// Reading back the stored name of a status gives that status.
pub proof fn law_status_name_round_trip(status: TaskStatus)
    ensures
        status_named(status_name(status)) == status,
{
    reveal_strlit("queued");
    reveal_strlit("running");
    reveal_strlit("completed");
    reveal_strlit("failed");
    reveal_strlit("cancelled");
    assert("queued"@[0] != "failed"@[0]);
    assert("completed"@[1] != "cancelled"@[1]);
}

/// Reading back the stored name of a priority gives that priority.
pub proof fn law_priority_name_round_trip(priority: TaskPriority)
    ensures
        priority_named(priority_name(priority)) == priority,
{
    reveal_strlit("high");
    reveal_strlit("medium");
    reveal_strlit("low");
    assert("high"@.len() != "low"@.len());
}

/// A millisecond count as a signed 64-bit value, capped at `i64::MAX`.
pub fn ms_i64(value: u128) -> (r: i64)
    ensures
        r as int == if value <= i64::MAX { value as int } else { i64::MAX as int },
{
    let capped: u128 = if value < 9_223_372_036_854_775_807u128 { value } else { 9_223_372_036_854_775_807u128 };
    capped as i64
}

/// Routes a task by priority: low to an edge node, high to a cloud VM. No
/// route is defined for medium priority.
pub fn route_task(priority: &TaskPriority) -> (r: Option<TaskRouteInfo>)
    ensures
        match *priority {
            TaskPriority::Low => r matches Some(info) && info.node_type@ == "edge_node"@
                && info.node_label@ == "Zephost Edge 03"@ && info.estimated_cost == 3,
            TaskPriority::High => r matches Some(info) && info.node_type@ == "cloud_vm"@
                && info.node_label@ == "Zephost Cloud 07"@ && info.estimated_cost == 15,
            TaskPriority::Medium => r is None,
        },
{
    match priority {
        TaskPriority::Low => Some(
            TaskRouteInfo {
                node_type: "edge_node".to_owned(),
                node_label: "Zephost Edge 03".to_owned(),
                estimated_cost: 3,
            },
        ),
        TaskPriority::High => Some(
            TaskRouteInfo {
                node_type: "cloud_vm".to_owned(),
                node_label: "Zephost Cloud 07".to_owned(),
                estimated_cost: 15,
            },
        ),
        TaskPriority::Medium => None,
    }
}

} // verus!
