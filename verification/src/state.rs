//! The in-memory task queue: tasks, the queue of waiting ids, dashboard
//! sessions, accounts, tokens, API keys, rate windows and the waitlist.
//!
//! Every operation takes the current time as an argument; `crate::clock`
//! reads it.

use std::collections::VecDeque;
use vstd::prelude::*;
use crate::models::{
    ApiKey, CreateTaskRequest, StatusResponse, SubmitResultRequest, Task, TaskPriority, TaskStatus,
    WaitlistRequest, LoginRequest, LoginResponse, HeartbeatRequest, BETA_USER_LIMIT, SESSION_TTL_MS,
    TASK_RATE_LIMIT_PER_MINUTE, RATE_WINDOW_MS, completion_estimate, estimate_completion, copy_api_keys, runtime_ms, estimated_runtime_ms,
};
use crate::strmap::{StrMap, lemma_map_of_len};
use crate::text::{cleaned, cleaned_or, clean_optional, clean_or_default, opt_view, trim, trimmed, contains_char};
use crate::credentials::{
    bcrypt_hash, bcrypt_verify, bcrypt_verify_outcome, new_api_key_text, new_session_token, api_key_text,
    session_token_text,
};

verus! {

/// Whether a task still holds its user's place in the beta: queued or running.
pub open spec fn is_active(t: Task) -> bool {
    t.status == TaskStatus::Queued || t.status == TaskStatus::Running
}

/// Whether a worker has reported on a task: completed or failed.
pub open spec fn is_reported(status: TaskStatus) -> bool {
    status == TaskStatus::Completed || status == TaskStatus::Failed
}

/// What no operation undoes, from the task list `before` to a later one
/// `after`: no task is removed or renumbered, no task becomes queued again,
/// and a task that a worker reported on stays completed or failed.
pub open spec fn history_kept(before: Seq<Task>, after: Seq<Task>) -> bool {
    &&& before.len() <= after.len()
    &&& forall|i: int|
        #![trigger after[i]]
        #![trigger before[i]]
        0 <= i < before.len() ==> {
            &&& after[i].id == before[i].id
            &&& (after[i].status == TaskStatus::Queued ==> before[i].status == TaskStatus::Queued)
            &&& (is_reported(before[i].status) ==> is_reported(after[i].status))
        }
}

/// Whether a task has reached a final status.
pub open spec fn is_final(status: TaskStatus) -> bool {
    status == TaskStatus::Completed || status == TaskStatus::Failed || status == TaskStatus::Cancelled
}

/// The users with queued or running tasks.
pub open spec fn active_users(tasks: Seq<Task>) -> Set<Seq<char>> {
    Set::new(|u: Seq<char>| exists|i: int| 0 <= i < tasks.len() && is_active(tasks[i]) && tasks[i].user_id@ == u)
}

/// Whether `user` may queue work: already active, or a beta place is free.
pub open spec fn can_queue(tasks: Seq<Task>, user: Seq<char>) -> bool {
    active_users(tasks).contains(user) || active_users(tasks).len() < BETA_USER_LIMIT
}

/// The number of tasks with the given status.
pub open spec fn count_with_status(tasks: Seq<Task>, status: TaskStatus) -> nat
    decreases tasks.len(),
{
    if tasks.len() == 0 {
        0
    } else {
        count_with_status(tasks.drop_last(), status) + if tasks.last().status == status { 1nat } else { 0nat }
    }
}

/// `now - span`, or 0 when that would be negative.
pub open spec fn cutoff(now: u128, span: u128) -> u128 {
    if now >= span { (now - span) as u128 } else { 0 }
}

/// The timestamps of `w` at or after `from`, in order.
pub open spec fn kept_since(w: Seq<u128>, from: u128) -> Seq<u128>
    decreases w.len(),
{
    if w.len() == 0 {
        seq![]
    } else {
        kept_since(w.drop_last(), from) + if w.last() >= from { seq![w.last()] } else { seq![] }
    }
}

/// The rate window of `user`, empty when there is none yet.
pub open spec fn window_of(windows: Map<Seq<char>, Seq<u128>>, user: Seq<char>) -> Seq<u128> {
    if windows.dom().contains(user) { windows[user] } else { seq![] }
}

/// The part of a user's window still inside the rate window at `now`.
pub open spec fn recent_window(windows: Map<Seq<char>, Seq<u128>>, user: Seq<char>, now: u128) -> Seq<u128> {
    kept_since(window_of(windows, user), cutoff(now, RATE_WINDOW_MS))
}

/// Whether a task request of `user` at `now` is inside the rate limit.
pub open spec fn rate_admits(windows: Map<Seq<char>, Seq<u128>>, user: Seq<char>, now: u128) -> bool {
    recent_window(windows, user, now).len() < TASK_RATE_LIMIT_PER_MINUTE
}

/// The rate windows after a request of `user` at `now` has been weighed:
/// the user's window keeps its recent part, and `now` when admitted.
pub open spec fn windows_after(windows: Map<Seq<char>, Seq<u128>>, user: Seq<char>, now: u128) -> Map<Seq<char>, Seq<u128>> {
    let recent = recent_window(windows, user, now);
    windows.insert(user, if rate_admits(windows, user, now) { recent.push(now) } else { recent })
}

/// The sessions still live at `now`.
pub open spec fn live_sessions(sessions: Map<Seq<char>, u128>, now: u128) -> Map<Seq<char>, u128> {
    Map::new(
        |k: Seq<char>| sessions.dom().contains(k) && sessions[k] >= cutoff(now, SESSION_TTL_MS),
        |k: Seq<char>| sessions[k],
    )
}

/// The message for a request over the rate limit.
pub open spec fn rate_limit_message() -> Seq<char> {
    "rate limit reached for this user (20 tasks / minute)"@
}

/// The message for a task request when the beta is full.
pub open spec fn beta_users_message() -> Seq<char> {
    "beta limit reached: only 4 active users can queue work"@
}

/// The message for a new dashboard session when the beta is full.
pub open spec fn beta_sessions_message() -> Seq<char> {
    "beta limit reached: only 4 active dashboard sessions are allowed"@
}

/// The priority a task request asks for, medium by default.
pub open spec fn requested_priority(request: CreateTaskRequest) -> TaskPriority {
    match request.priority {
        Some(p) => p,
        None => TaskPriority::Medium,
    }
}

/// The JSON text of a task request's payload, `{}` by default.
pub open spec fn requested_payload(request: CreateTaskRequest) -> Seq<char> {
    match request.payload {
        Some(p) => p@,
        None => "{}"@,
    }
}

/// The task that `create_task` makes for `user` from `request` at `now`,
/// with `queue_depth` tasks waiting before it.
pub open spec fn is_new_task(t: Task, id: u64, user: Seq<char>, request: CreateTaskRequest, now: u128, queue_depth: nat) -> bool {
    &&& t.id == id
    &&& t.user_id@ == user
    &&& t.file_name@ == cleaned_or(opt_view(request.file_name), "sample-file.mp4"@)
    &&& t.quality@ == cleaned_or(opt_view(request.quality), "beta"@)
    &&& t.priority == requested_priority(request)
    &&& t.payload@ == requested_payload(request)
    &&& t.status == TaskStatus::Queued
    &&& t.result is None
    &&& t.failure_reason is None
    &&& t.webhook_url == request.webhook_url
    &&& t.created_at_ms == now
    &&& t.started_at_ms is None
    &&& t.completed_at_ms is None
    &&& t.estimated_completion_ms == Some(
        completion_estimate(now, queue_depth, requested_priority(request), false) as u128,
    )
}

/// The state of the in-memory queue.
pub struct TaskState {
    /// Ids waiting to be fetched, oldest at the front.
    queue: VecDeque<u64>,
    /// Every task ever created. Ids are handed out as 1, 2, 3, ... and no
    /// task is ever removed, so the task with id `i + 1` is kept at index `i`
    /// and a lookup by id is an index.
    tasks: Vec<Task>,
    sessions: StrMap<u128>,
    users: StrMap<String>,
    auth_tokens: StrMap<String>,
    api_keys: StrMap<Vec<ApiKey>>,
    task_rate_window: StrMap<Vec<u128>>,
    waitlist: Vec<WaitlistRequest>,
}

impl TaskState {
    /// All tasks, by id: the task with id `i + 1` stands at `i`.
    pub closed spec fn tasks(&self) -> Seq<Task> {
        self.tasks@
    }

    /// The ids waiting to be fetched, oldest first.
    pub closed spec fn queue(&self) -> Seq<u64> {
        self.queue@
    }

    /// Dashboard sessions and when each was last seen.
    pub closed spec fn sessions(&self) -> Map<Seq<char>, u128> {
        self.sessions.map()
    }

    /// The number of dashboard sessions.
    pub closed spec fn session_count(&self) -> nat {
        self.sessions.count()
    }

    /// Accounts and their password hashes.
    pub closed spec fn users(&self) -> Map<Seq<char>, Seq<char>> {
        self.users.map().map_values(|h: String| h@)
    }

    /// Session tokens and the user each belongs to.
    pub closed spec fn tokens(&self) -> Map<Seq<char>, Seq<char>> {
        self.auth_tokens.map().map_values(|u: String| u@)
    }

    /// The API keys of each user, oldest first.
    pub closed spec fn api_keys(&self) -> Map<Seq<char>, Seq<ApiKey>> {
        self.api_keys.map().map_values(|k: Vec<ApiKey>| k@)
    }

    /// The recent task requests of each user.
    pub closed spec fn rate_windows(&self) -> Map<Seq<char>, Seq<u128>> {
        self.task_rate_window.map().map_values(|w: Vec<u128>| w@)
    }

    /// Waitlist entries, oldest first.
    pub closed spec fn waitlist(&self) -> Seq<WaitlistRequest> {
        self.waitlist@
    }

    /// The maps keep distinct keys.
    pub closed spec fn maps_wf(&self) -> bool {
        &&& self.sessions.wf()
        &&& self.users.wf()
        &&& self.auth_tokens.wf()
        &&& self.api_keys.wf()
        &&& self.task_rate_window.wf()
    }

    /// What every operation keeps.
    pub open spec fn inv(&self) -> bool {
        &&& self.maps_wf()
        &&& ids_in_order(self.tasks())
        &&& queue_well_formed(self.queue(), self.tasks().len())
        &&& queued_are_waiting(self.tasks(), self.queue())
        &&& active_users(self.tasks()).len() <= BETA_USER_LIMIT
        &&& self.session_count() <= BETA_USER_LIMIT
        &&& windows_within_limit(self.rate_windows())
    }

    /// Same tasks and queue.
    pub open spec fn same_tasks(&self, other: &Self) -> bool {
        self.tasks() == other.tasks() && self.queue() == other.queue()
    }

    /// Same accounts, tokens and API keys.
    pub open spec fn same_accounts(&self, other: &Self) -> bool {
        &&& self.users() == other.users()
        &&& self.tokens() == other.tokens()
        &&& self.api_keys() == other.api_keys()
    }

    /// An empty queue with no accounts.
    pub fn new() -> (r: Self)
        ensures
            r.inv(),
            r.tasks() == Seq::<Task>::empty(),
            r.queue() == Seq::<u64>::empty(),
            r.sessions() == Map::<Seq<char>, u128>::empty(),
            r.users() == Map::<Seq<char>, Seq<char>>::empty(),
            r.tokens() == Map::<Seq<char>, Seq<char>>::empty(),
            r.api_keys() == Map::<Seq<char>, Seq<ApiKey>>::empty(),
            r.rate_windows() == Map::<Seq<char>, Seq<u128>>::empty(),
            r.waitlist() == Seq::<WaitlistRequest>::empty(),
    {
        let r = TaskState {
            queue: VecDeque::new(),
            tasks: Vec::new(),
            sessions: StrMap::new(),
            users: StrMap::new(),
            auth_tokens: StrMap::new(),
            api_keys: StrMap::new(),
            task_rate_window: StrMap::new(),
            waitlist: Vec::new(),
        };
        assert(active_users(r.tasks()) =~= Set::<Seq<char>>::empty());
        assert(r.users() =~= Map::<Seq<char>, Seq<char>>::empty());
        assert(r.tokens() =~= Map::<Seq<char>, Seq<char>>::empty());
        assert(r.api_keys() =~= Map::<Seq<char>, Seq<ApiKey>>::empty());
        assert(r.rate_windows() =~= Map::<Seq<char>, Seq<u128>>::empty());
        r
    }

    /// The number of tasks.
    pub fn task_count(&self) -> (r: usize)
        ensures
            r == self.tasks().len(),
    {
        self.tasks.len()
    }

    /// The number of ids waiting in the queue.
    pub fn queue_len(&self) -> (r: usize)
        ensures
            r == self.queue().len(),
    {
        self.queue.len()
    }

    /// The distinct users with queued or running tasks.
    pub fn active_users(&self) -> (r: Vec<String>)
        ensures
            names_of(r@).no_duplicates(),
            names_of(r@).to_set() == active_users(self.tasks()),
    {
        let mut out: Vec<String> = Vec::new();
        let n = self.tasks.len();
        let mut i: usize = 0;
        assert(names_of(out@).to_set() =~= active_users(self.tasks@.take(0)));
        while i < n
            invariant
                n == self.tasks@.len(),
                i <= n,
                names_of(out@).no_duplicates(),
                names_of(out@).to_set() == active_users(self.tasks@.take(i as int)),
            decreases n - i,
        {
            let t = &self.tasks[i];
            let ghost before = names_of(out@);
            if t.status == TaskStatus::Queued || t.status == TaskStatus::Running {
                if !contains_string(&out, &t.user_id) {
                    out.push(t.user_id.clone());
                    assert(names_of(out@) =~= before.push(t.user_id@));
                }
            }
            let ghost prefix = self.tasks@.take(i as int);
            let ghost next = self.tasks@.take(i + 1);
            assert(names_of(out@).to_set() =~= active_users(next)) by {
                assert forall|u: Seq<char>| names_of(out@).to_set().contains(u) implies #[trigger] active_users(next).contains(u) by {
                    let p = choose|p: int| 0 <= p < names_of(out@).len() && names_of(out@)[p] == u;
                    if p < before.len() {
                        assert(before.to_set().contains(u));
                        let j = choose|j: int| 0 <= j < prefix.len() && is_active(prefix[j]) && prefix[j].user_id@ == u;
                        assert(next[j] == prefix[j]);
                    } else {
                        assert(next[i as int] == self.tasks@[i as int]);
                    }
                }
                assert forall|u: Seq<char>| #[trigger] active_users(next).contains(u) implies names_of(out@).to_set().contains(u) by {
                    let j = choose|j: int| 0 <= j < next.len() && is_active(next[j]) && next[j].user_id@ == u;
                    if j < i {
                        assert(prefix[j] == next[j]);
                        assert(active_users(prefix).contains(u));
                        assert(before.contains(u));
                        let p = choose|p: int| 0 <= p < before.len() && before[p] == u;
                        assert(names_of(out@)[p] == u);
                    } else {
                        assert(next[j] == self.tasks@[i as int]);
                        if before.contains(u) {
                            let p = choose|p: int| 0 <= p < before.len() && before[p] == u;
                            assert(names_of(out@)[p] == u);
                        } else {
                            assert(names_of(out@)[before.len() as int] == u);
                        }
                    }
                }
            }
            i = i + 1;
        }
        assert(self.tasks@.take(n as int) =~= self.tasks@);
        out
    }

    /// Whether `user` may queue work under the beta limit.
    pub fn user_can_queue(&self, user: &String) -> (r: bool)
        ensures
            r == can_queue(self.tasks(), user@),
    {
        let users = self.active_users();
        proof {
            names_of(users@).unique_seq_to_set();
        }
        let present = contains_string(&users, user);
        beta_limit_allows(present, users.len())
    }

    /// Weighs a task request of `user` at `now` against the rate limit:
    /// drops the user's requests older than the window, and records `now`
    /// when fewer than the limit remain.
    pub fn within_rate_limit(&mut self, user: &String, now: u128) -> (r: bool)
        requires
            old(self).inv(),
        ensures
            final(self).inv(),
            history_kept(old(self).tasks(), final(self).tasks()),
            r == rate_admits(old(self).rate_windows(), user@, now),
            final(self).rate_windows() == windows_after(old(self).rate_windows(), user@, now),
            final(self).same_tasks(old(self)),
            final(self).same_accounts(old(self)),
            final(self).sessions() == old(self).sessions(),
            final(self).session_count() == old(self).session_count(),
            final(self).waitlist() == old(self).waitlist(),
    {
        let from = now.saturating_sub(RATE_WINDOW_MS);
        let ghost windows = self.rate_windows();
        let ghost w = window_of(windows, user@);
        let mut kept: Vec<u128> = Vec::new();
        match self.task_rate_window.get(user) {
            Some(window) => {
                assert(window@ == w);
                let mut i: usize = 0;
                assert(w.take(0) =~= Seq::<u128>::empty());
                while i < window.len()
                    invariant
                        window@ == w,
                        i <= window.len(),
                        kept@ == kept_since(w.take(i as int), from),
                    decreases window.len() - i,
                {
                    assert(w.take(i + 1).drop_last() =~= w.take(i as int));
                    if window[i] >= from {
                        kept.push(window[i]);
                    }
                    assert(kept@ =~= kept_since(w.take(i + 1), from));
                    i = i + 1;
                }
                assert(w.take(window.len() as int) =~= w);
            },
            None => {
                assert(kept@ =~= kept_since(w, from));
            },
        }
        proof {
            lemma_kept_since_len(w, from);
        }
        let admitted = kept.len() < TASK_RATE_LIMIT_PER_MINUTE;
        if admitted {
            kept.push(now);
        }
        let ghost kv = kept@;
        self.task_rate_window.insert(user.clone(), kept);
        assert(self.rate_windows() =~= windows.insert(user@, kv));
        assert(w.len() <= TASK_RATE_LIMIT_PER_MINUTE) by {
            if windows.dom().contains(user@) {
                assert(windows[user@].len() <= TASK_RATE_LIMIT_PER_MINUTE);
            }
        }
        assert forall|u: Seq<char>| #[trigger] self.rate_windows().dom().contains(u)
            implies self.rate_windows()[u].len() <= TASK_RATE_LIMIT_PER_MINUTE by {
            if u != user@ {
                assert(windows.dom().contains(u));
            }
        }
        admitted
    }

    /// Queues a task for `authenticated_user_id` from `request` at `now_ms`.
    /// The request's own `user_id` is ignored. Fails when the user is over
    /// the rate limit, or when the beta is full and the user has no active
    /// task; the rate window records the request either way.
    pub fn create_task(&mut self, authenticated_user_id: String, request: CreateTaskRequest, now_ms: u128) -> (r: Result<Task, String>)
        requires
            old(self).inv(),
            ({
                let user = cleaned_or(Some(authenticated_user_id@), "anonymous"@);
                rate_admits(old(self).rate_windows(), user, now_ms) && can_queue(old(self).tasks(), user) ==> {
                    &&& old(self).tasks().len() < u64::MAX
                    &&& completion_estimate(now_ms, old(self).queue().len(), requested_priority(request), false) <= u128::MAX
                }
            }),
        ensures
            final(self).inv(),
            history_kept(old(self).tasks(), final(self).tasks()),
            ({
                let user = cleaned_or(Some(authenticated_user_id@), "anonymous"@);
                let admitted = rate_admits(old(self).rate_windows(), user, now_ms);
                &&& final(self).rate_windows() == windows_after(old(self).rate_windows(), user, now_ms)
                &&& r is Ok <==> admitted && can_queue(old(self).tasks(), user)
                &&& !admitted ==> (r matches Err(e) && e@ == rate_limit_message())
                &&& admitted && !can_queue(old(self).tasks(), user) ==> (r matches Err(e) && e@ == beta_users_message())
                &&& r is Err ==> final(self).same_tasks(old(self))
                &&& r matches Ok(t) ==> {
                    &&& is_new_task(t, (old(self).tasks().len() + 1) as u64, user, request, now_ms, old(self).queue().len())
                    &&& final(self).tasks() == old(self).tasks().push(t)
                    &&& final(self).queue() == old(self).queue().push(t.id)
                }
            }),
            final(self).same_accounts(old(self)),
            final(self).sessions() == old(self).sessions(),
            final(self).waitlist() == old(self).waitlist(),
    {
        let ghost old_tasks = self.tasks@;
        let ghost old_queue = self.queue@;
        let user_id = clean_or_default(Some(authenticated_user_id), "anonymous");
        let file_name = clean_or_default(request.file_name, "sample-file.mp4");
        let quality = clean_or_default(request.quality, "beta");
        let priority = match request.priority {
            Some(p) => p,
            None => TaskPriority::Medium,
        };
        let payload = match request.payload {
            Some(p) => p,
            None => "{}".to_owned(),
        };
        if !self.within_rate_limit(&user_id, now_ms) {
            return Err("rate limit reached for this user (20 tasks / minute)".to_owned());
        }
        if !self.user_can_queue(&user_id) {
            return Err("beta limit reached: only 4 active users can queue work".to_owned());
        }
        let id = self.tasks.len() as u64 + 1;
        let estimated = estimate_completion(now_ms, self.queue.len(), &priority, false);
        let task = Task {
            id,
            user_id,
            file_name,
            quality,
            priority,
            payload,
            status: TaskStatus::Queued,
            result: None,
            failure_reason: None,
            webhook_url: request.webhook_url,
            created_at_ms: now_ms,
            started_at_ms: None,
            completed_at_ms: None,
            estimated_completion_ms: Some(estimated),
        };
        self.queue.push_back(id);
        self.tasks.push(task.copy());
        proof {
            let nt = self.tasks@;
            let user = task.user_id@;
            assert(ids_in_order(nt)) by {
                assert forall|i: int| 0 <= i < nt.len() implies #[trigger] nt[i].id == i + 1 by {
                    if i < old_tasks.len() {
                        assert(nt[i] == old_tasks[i]);
                    }
                }
            }
            assert(queue_well_formed(self.queue@, nt.len())) by {
                assert forall|p: int| 0 <= p < self.queue@.len() implies 1 <= #[trigger] self.queue@[p] <= nt.len() by {
                    if p < old_queue.len() {
                        assert(self.queue@[p] == old_queue[p]);
                    }
                }
                assert forall|p: int, q: int| 0 <= p < q < self.queue@.len() implies self.queue@[p] < self.queue@[q] by {
                    assert(self.queue@[p] == old_queue[p]);
                    if q < old_queue.len() {
                        assert(self.queue@[q] == old_queue[q]);
                    }
                }
            }
            assert(queued_are_waiting(nt, self.queue@)) by {
                assert forall|i: int| 0 <= i < nt.len() && #[trigger] nt[i].status == TaskStatus::Queued
                    implies self.queue@.contains((i + 1) as u64) by {
                    if i < old_tasks.len() {
                        assert(nt[i] == old_tasks[i]);
                        assert(old_queue.contains((i + 1) as u64));
                        let p = choose|p: int| 0 <= p < old_queue.len() && old_queue[p] == (i + 1) as u64;
                        assert(self.queue@[p] == old_queue[p]);
                    } else {
                        assert(self.queue@[old_queue.len() as int] == id);
                    }
                }
            }
            assert(active_users(nt) =~= active_users(old_tasks).insert(user)) by {
                assert forall|u: Seq<char>| #[trigger] active_users(nt).contains(u) implies active_users(old_tasks).insert(user).contains(u) by {
                    let j = choose|j: int| 0 <= j < nt.len() && is_active(nt[j]) && nt[j].user_id@ == u;
                    if j < old_tasks.len() {
                        assert(nt[j] == old_tasks[j]);
                    }
                }
                assert forall|u: Seq<char>| #[trigger] active_users(old_tasks).insert(user).contains(u) implies active_users(nt).contains(u) by {
                    if u == user {
                        assert(nt[old_tasks.len() as int] == task);
                    } else {
                        let j = choose|j: int| 0 <= j < old_tasks.len() && is_active(old_tasks[j]) && old_tasks[j].user_id@ == u;
                        assert(nt[j] == old_tasks[j]);
                    }
                }
            }
            lemma_active_users_finite(old_tasks);
        }
        Ok(task)
    }

    /// Hands the oldest queued task to a worker at `now_ms`: it becomes
    /// running. Ids taken from the front of the queue whose task is no longer
    /// queued are dropped on the way. `None` when no task is queued.
    pub fn fetch_next_task(&mut self, now_ms: u128) -> (r: Option<Task>)
        requires
            old(self).inv(),
            forall|i: int| is_next_queued(old(self).tasks(), i)
                ==> now_ms + runtime_ms(#[trigger] old(self).tasks()[i].priority, true) <= u128::MAX,
        ensures
            final(self).inv(),
            history_kept(old(self).tasks(), final(self).tasks()),
            r is None <==> !has_queued(old(self).tasks()),
            r is None ==> final(self).tasks() == old(self).tasks() && final(self).queue() == Seq::<u64>::empty(),
            r matches Some(t) ==> {
                &&& is_next_queued(old(self).tasks(), t.id - 1)
                &&& t == started_task(old(self).tasks()[t.id - 1], now_ms)
                &&& final(self).tasks() == old(self).tasks().update(t.id - 1, t)
                &&& exists|k: int| 0 <= k < old(self).queue().len() && old(self).queue()[k] == t.id
                    && final(self).queue() == old(self).queue().subrange(k + 1, old(self).queue().len() as int)
            },
            final(self).same_accounts(old(self)),
            final(self).sessions() == old(self).sessions(),
            final(self).rate_windows() == old(self).rate_windows(),
            final(self).waitlist() == old(self).waitlist(),
    {
        let ghost old_tasks = self.tasks@;
        let ghost old_queue = self.queue@;
        let ghost mut popped: int = 0;
        let n = self.tasks.len();
        while self.queue.len() > 0
            invariant
                self.inv(),
                self.tasks@ == old_tasks,
                old_tasks == old(self).tasks(),
                old_queue == old(self).queue(),
                n == old_tasks.len(),
                self.same_accounts(old(self)),
                self.sessions() == old(self).sessions(),
                self.rate_windows() == old(self).rate_windows(),
                self.waitlist() == old(self).waitlist(),
                queue_well_formed(old_queue, old_tasks.len()),
                queued_are_waiting(old_tasks, old_queue),
                0 <= popped <= old_queue.len(),
                self.queue@ == old_queue.subrange(popped, old_queue.len() as int),
                forall|p: int| 0 <= p < popped ==> #[trigger] old_tasks[old_queue[p] - 1].status != TaskStatus::Queued,
                forall|i: int| is_next_queued(old_tasks, i) ==> now_ms + runtime_ms(#[trigger] old_tasks[i].priority, true) <= u128::MAX,
            decreases self.queue.len(),
        {
            let id = self.queue.pop_front().unwrap();
            assert(id == old_queue[popped]);
            assert(1 <= old_queue[popped] <= old_tasks.len());
            let idx = (id - 1) as usize;
            proof {
                popped = popped + 1;
                assert(self.queue@ =~= old_queue.subrange(popped, old_queue.len() as int));
            }
            if self.tasks[idx].status == TaskStatus::Queued {
                assert(is_next_queued(old_tasks, idx as int)) by {
                    assert forall|j: int| 0 <= j < idx implies #[trigger] old_tasks[j].status != TaskStatus::Queued by {
                        if old_tasks[j].status == TaskStatus::Queued {
                            assert(old_queue.contains((j + 1) as u64));
                            let p = choose|p: int| 0 <= p < old_queue.len() && old_queue[p] == (j + 1) as u64;
                            if p >= popped - 1 {
                                if p > popped - 1 {
                                    assert(old_queue[popped - 1] < old_queue[p]);
                                }
                            } else {
                                assert(old_tasks[old_queue[p] - 1].status != TaskStatus::Queued);
                            }
                        }
                    }
                }
                let mut t = self.tasks[idx].copy();
                let runtime = estimated_runtime_ms(&t.priority, true);
                t.status = TaskStatus::Running;
                t.started_at_ms = Some(now_ms);
                t.estimated_completion_ms = Some(now_ms + runtime);
                self.tasks.set(idx, t.copy());
                proof {
                    let nt = self.tasks@;
                    assert(nt =~= old_tasks.update(idx as int, t));
                    assert(t == started_task(old_tasks[idx as int], now_ms));
                    assert(ids_in_order(nt)) by {
                        assert forall|i: int| 0 <= i < nt.len() implies #[trigger] nt[i].id == i + 1 by {
                            assert(old_tasks[i].id == i + 1);
                        }
                    }
                    assert(queue_well_formed(self.queue@, nt.len())) by {
                        assert forall|p: int| 0 <= p < self.queue@.len() implies 1 <= #[trigger] self.queue@[p] <= nt.len() by {
                            assert(self.queue@[p] == old_queue[p + popped]);
                        }
                        assert forall|p: int, q: int| 0 <= p < q < self.queue@.len() implies self.queue@[p] < self.queue@[q] by {
                            assert(self.queue@[p] == old_queue[p + popped]);
                            assert(self.queue@[q] == old_queue[q + popped]);
                        }
                    }
                    assert(queued_are_waiting(nt, self.queue@)) by {
                        assert forall|i: int| 0 <= i < nt.len() && #[trigger] nt[i].status == TaskStatus::Queued
                            implies self.queue@.contains((i + 1) as u64) by {
                            assert(old_tasks[i] == nt[i]);
                            assert(old_tasks[i].id == i + 1);
                            assert(old_queue.contains((i + 1) as u64));
                            let p = choose|p: int| 0 <= p < old_queue.len() && old_queue[p] == (i + 1) as u64;
                            if p < popped - 1 {
                                assert(old_tasks[old_queue[p] - 1].status != TaskStatus::Queued);
                            } else if p == popped - 1 {
                                assert(i == idx);
                            } else {
                                assert(self.queue@[p - popped] == old_queue[p]);
                            }
                        }
                    }
                    assert(active_users(nt) =~= active_users(old_tasks)) by {
                        assert forall|u: Seq<char>| #[trigger] active_users(nt).contains(u) implies active_users(old_tasks).contains(u) by {
                            let j = choose|j: int| 0 <= j < nt.len() && is_active(nt[j]) && nt[j].user_id@ == u;
                            assert(is_active(old_tasks[j]));
                        }
                        assert forall|u: Seq<char>| #[trigger] active_users(old_tasks).contains(u) implies active_users(nt).contains(u) by {
                            let j = choose|j: int| 0 <= j < old_tasks.len() && is_active(old_tasks[j]) && old_tasks[j].user_id@ == u;
                            assert(is_active(nt[j]));
                        }
                    }
                    assert(old_queue[popped - 1] == t.id);
                    assert(old_tasks[idx as int].status == TaskStatus::Queued);
                    assert(has_queued(old_tasks));
                }
                return Some(t);
            }
            assert(old_tasks[old_queue[popped - 1] - 1].status != TaskStatus::Queued);
            assert(queue_well_formed(self.queue@, old_tasks.len())) by {
                assert forall|p: int| 0 <= p < self.queue@.len() implies 1 <= #[trigger] self.queue@[p] <= old_tasks.len() by {
                    assert(self.queue@[p] == old_queue[p + popped]);
                }
                assert forall|p: int, q: int| 0 <= p < q < self.queue@.len() implies self.queue@[p] < self.queue@[q] by {
                    assert(self.queue@[p] == old_queue[p + popped]);
                    assert(self.queue@[q] == old_queue[q + popped]);
                }
            }
            assert(queued_are_waiting(old_tasks, self.queue@)) by {
                assert forall|i: int| 0 <= i < old_tasks.len() && #[trigger] old_tasks[i].status == TaskStatus::Queued
                    implies self.queue@.contains((i + 1) as u64) by {
                    assert(old_tasks[i].id == i + 1);
                    assert(old_queue.contains((i + 1) as u64));
                    let p = choose|p: int| 0 <= p < old_queue.len() && old_queue[p] == (i + 1) as u64;
                    if p < popped {
                        assert(old_tasks[old_queue[p] - 1].status != TaskStatus::Queued);
                    } else {
                        assert(self.queue@[p - popped] == old_queue[p]);
                    }
                }
            }
        }
        assert(!has_queued(old_tasks)) by {
            if has_queued(old_tasks) {
                let i = choose|i: int| 0 <= i < old_tasks.len() && #[trigger] old_tasks[i].status == TaskStatus::Queued;
                assert(old_queue.contains((i + 1) as u64));
                let p = choose|p: int| 0 <= p < old_queue.len() && old_queue[p] == (i + 1) as u64;
                assert(old_tasks[old_queue[p] - 1].status != TaskStatus::Queued);
            }
        }
        None
    }

    /// Cancels a task that has not reached a final status; it leaves the
    /// queue and is marked completed at `now_ms`.
    pub fn cancel_task(&mut self, task_id: u64, now_ms: u128) -> (r: Result<Task, String>)
        requires
            old(self).inv(),
        ensures
            final(self).inv(),
            history_kept(old(self).tasks(), final(self).tasks()),
            ({
                let known = 1 <= task_id <= old(self).tasks().len();
                &&& !known ==> (r matches Err(e) && e@ == "task not found"@)
                &&& known && is_final(old(self).tasks()[task_id - 1].status)
                    ==> (r matches Err(e) && e@ == "task is already finalized"@)
                &&& r is Ok <==> known && !is_final(old(self).tasks()[task_id - 1].status)
            }),
            r is Err ==> final(self).same_tasks(old(self)),
            r matches Ok(t) ==> {
                &&& t == cancelled_task(old(self).tasks()[task_id - 1], now_ms)
                &&& final(self).tasks() == old(self).tasks().update(task_id - 1, t)
                &&& final(self).queue() == without_id(old(self).queue(), task_id)
            },
            final(self).same_accounts(old(self)),
            final(self).sessions() == old(self).sessions(),
            final(self).rate_windows() == old(self).rate_windows(),
            final(self).waitlist() == old(self).waitlist(),
    {
        let idx = match self.task_index(task_id) {
            Some(i) => i,
            None => {
                return Err("task not found".to_owned());
            },
        };
        let status = self.tasks[idx].status;
        if status == TaskStatus::Completed || status == TaskStatus::Failed || status == TaskStatus::Cancelled {
            return Err("task is already finalized".to_owned());
        }
        let ghost old_tasks = self.tasks@;
        let ghost old_queue = self.queue@;
        let mut t = self.tasks[idx].copy();
        t.status = TaskStatus::Cancelled;
        t.completed_at_ms = Some(now_ms);
        self.tasks.set(idx, t.copy());
        let mut kept: VecDeque<u64> = VecDeque::new();
        let mut i: usize = 0;
        assert(old_queue.take(0) =~= Seq::<u64>::empty());
        while i < self.queue.len()
            invariant
                self.queue@ == old_queue,
                i <= old_queue.len(),
                kept@ == without_id(old_queue.take(i as int), task_id),
                forall|p: int, q: int| 0 <= p < q < kept@.len() ==> kept@[p] < kept@[q],
                forall|p: int| 0 <= p < kept@.len() ==> old_queue.take(i as int).contains(#[trigger] kept@[p]) && kept@[p] != task_id,
                forall|p: int| 0 <= p < i && old_queue[p] != task_id ==> kept@.contains(#[trigger] old_queue[p]),
                queue_well_formed(old_queue, old_tasks.len()),
            decreases old_queue.len() - i,
        {
            let x = self.queue[i];
            let ghost before = kept@;
            assert(old_queue.take(i + 1).drop_last() =~= old_queue.take(i as int));
            if x != task_id {
                kept.push_back(x);
                assert forall|p: int, q: int| 0 <= p < q < kept@.len() implies kept@[p] < kept@[q] by {
                    if q == before.len() {
                        assert(old_queue.take(i as int).contains(before[p]));
                        let pp = choose|pp: int| 0 <= pp < i && old_queue.take(i as int)[pp] == before[p];
                        assert(old_queue[pp] < old_queue[i as int]);
                    }
                }
                assert forall|p: int| 0 <= p < i + 1 && old_queue[p] != task_id implies kept@.contains(#[trigger] old_queue[p]) by {
                    if p < i {
                        let w = choose|w: int| 0 <= w < before.len() && before[w] == old_queue[p];
                        assert(kept@[w] == old_queue[p]);
                    } else {
                        assert(kept@[before.len() as int] == old_queue[p]);
                    }
                }
            }
            assert forall|p: int| 0 <= p < kept@.len() implies old_queue.take(i + 1).contains(#[trigger] kept@[p]) && kept@[p] != task_id by {
                if p < before.len() {
                    let w = choose|w: int| 0 <= w < i && old_queue.take(i as int)[w] == before[p];
                    assert(old_queue.take(i + 1)[w] == kept@[p]);
                } else {
                    assert(old_queue.take(i + 1)[i as int] == kept@[p]);
                }
            }
            i = i + 1;
        }
        assert(old_queue.take(old_queue.len() as int) =~= old_queue);
        self.queue = kept;
        proof {
            let nt = self.tasks@;
            assert(nt == old_tasks.update(idx as int, t));
            lemma_deactivate(old_tasks, idx as int, t);
            assert(ids_in_order(nt)) by {
                assert forall|k: int| 0 <= k < nt.len() implies #[trigger] nt[k].id == k + 1 by {
                    assert(old_tasks[k].id == k + 1);
                }
            }
            assert(queue_well_formed(self.queue@, nt.len())) by {
                assert forall|p: int| 0 <= p < self.queue@.len() implies 1 <= #[trigger] self.queue@[p] <= nt.len() by {
                    assert(old_queue.contains(self.queue@[p]));
                }
            }
            assert(queued_are_waiting(nt, self.queue@)) by {
                assert forall|k: int| 0 <= k < nt.len() && #[trigger] nt[k].status == TaskStatus::Queued
                    implies self.queue@.contains((k + 1) as u64) by {
                    assert(k != idx);
                    assert(nt[k] == old_tasks[k]);
                    assert(old_tasks[k].id == k + 1);
                    let p = choose|p: int| 0 <= p < old_queue.len() && old_queue[p] == (k + 1) as u64;
                    assert(old_queue[p] != task_id);
                }
            }
        }
        Ok(t)
    }

    /// Records a worker's report on a task at `now_ms`: the task becomes
    /// completed, or failed when the report says so, whatever its status was.
    pub fn submit_result(&mut self, request: SubmitResultRequest, now_ms: u128) -> (r: Result<Task, String>)
        requires
            old(self).inv(),
        ensures
            final(self).inv(),
            history_kept(old(self).tasks(), final(self).tasks()),
            r is Ok <==> 1 <= request.task_id <= old(self).tasks().len(),
            r matches Err(e) ==> e@ == "task not found"@ && final(self).same_tasks(old(self)),
            r matches Ok(t) ==> {
                &&& is_finished_task(old(self).tasks()[request.task_id - 1], t, request, now_ms)
                &&& final(self).tasks() == old(self).tasks().update(request.task_id - 1, t)
                &&& final(self).queue() == old(self).queue()
            },
            final(self).same_accounts(old(self)),
            final(self).sessions() == old(self).sessions(),
            final(self).rate_windows() == old(self).rate_windows(),
            final(self).waitlist() == old(self).waitlist(),
    {
        let task_id = request.task_id;
        let status = report_status(request.success);
        let reason = clean_optional(request.reason);
        let idx = match self.task_index(task_id) {
            Some(i) => i,
            None => {
                return Err("task not found".to_owned());
            },
        };
        let ghost old_tasks = self.tasks@;
        let mut t = self.tasks[idx].copy();
        t.status = status;
        t.result = Some(request.result);
        t.failure_reason = reason;
        t.completed_at_ms = Some(now_ms);
        t.estimated_completion_ms = Some(now_ms);
        self.tasks.set(idx, t.copy());
        proof {
            let nt = self.tasks@;
            assert(nt == old_tasks.update(idx as int, t));
            lemma_deactivate(old_tasks, idx as int, t);
            assert(ids_in_order(nt)) by {
                assert forall|k: int| 0 <= k < nt.len() implies #[trigger] nt[k].id == k + 1 by {
                    assert(old_tasks[k].id == k + 1);
                }
            }
            assert(queued_are_waiting(nt, self.queue@)) by {
                assert forall|k: int| 0 <= k < nt.len() && #[trigger] nt[k].status == TaskStatus::Queued
                    implies self.queue@.contains((k + 1) as u64) by {
                    assert(nt[k] == old_tasks[k]);
                }
            }
        }
        Ok(t)
    }

    /// The index of the task with id `id`, if there is one.
    pub fn task_index(&self, id: u64) -> (r: Option<usize>)
        ensures
            r is Some <==> 1 <= id <= self.tasks().len(),
            r matches Some(i) ==> i == id - 1,
    {
        let n = self.tasks.len();
        if id == 0 || id > n as u64 {
            None
        } else {
            Some((id - 1) as usize)
        }
    }

    /// The number of sessions is the number of distinct session ids.
    pub proof fn lemma_session_count(&self)
        requires
            self.inv(),
        ensures
            self.sessions().dom().finite(),
            self.session_count() == self.sessions().dom().len(),
    {
        lemma_map_of_len(self.sessions.pairs());
    }

    /// Drops the dashboard sessions not seen within the session lifetime.
    pub fn prune_sessions(&mut self, now_ms: u128)
        requires
            old(self).inv(),
        ensures
            final(self).inv(),
            history_kept(old(self).tasks(), final(self).tasks()),
            final(self).sessions() == live_sessions(old(self).sessions(), now_ms),
            final(self).session_count() <= old(self).session_count(),
            final(self).same_tasks(old(self)),
            final(self).same_accounts(old(self)),
            final(self).rate_windows() == old(self).rate_windows(),
            final(self).waitlist() == old(self).waitlist(),
    {
        let from = now_ms.saturating_sub(SESSION_TTL_MS);
        self.sessions.retain_at_least(from);
        assert(self.sessions() =~= live_sessions(old(self).sessions(), now_ms));
    }

    /// The queue's counts, with `active_users` live sessions.
    pub fn status_response(&self, active_users: usize) -> (r: StatusResponse)
        ensures
            is_status_of(r, self.tasks(), active_users as nat),
    {
        StatusResponse {
            queued: self.count_status(TaskStatus::Queued),
            running: self.count_status(TaskStatus::Running),
            completed: self.count_status(TaskStatus::Completed),
            active_users,
            beta_user_limit: BETA_USER_LIMIT,
            total_tasks: self.tasks.len(),
        }
    }

    /// The queue's counts at `now_ms`, after lapsed sessions are dropped.
    pub fn status(&mut self, now_ms: u128) -> (r: StatusResponse)
        requires
            old(self).inv(),
        ensures
            final(self).inv(),
            history_kept(old(self).tasks(), final(self).tasks()),
            final(self).sessions() == live_sessions(old(self).sessions(), now_ms),
            is_status_of(r, final(self).tasks(), final(self).sessions().dom().len()),
            final(self).same_tasks(old(self)),
            final(self).same_accounts(old(self)),
            final(self).rate_windows() == old(self).rate_windows(),
            final(self).waitlist() == old(self).waitlist(),
    {
        self.prune_sessions(now_ms);
        proof {
            self.lemma_session_count();
        }
        let active = self.sessions.len();
        self.status_response(active)
    }

    /// Records a dashboard heartbeat at `now_ms`. Lapsed sessions are
    /// dropped first; a new session is refused while the beta's sessions are
    /// all taken.
    pub fn heartbeat(&mut self, request: HeartbeatRequest, now_ms: u128) -> (r: Result<StatusResponse, String>)
        requires
            old(self).inv(),
        ensures
            final(self).inv(),
            history_kept(old(self).tasks(), final(self).tasks()),
            ({
                let id = trimmed(request.session_id@);
                let live = live_sessions(old(self).sessions(), now_ms);
                &&& id.len() == 0 ==> (r matches Err(e) && e@ == "session_id is required"@)
                    && final(self).sessions() == old(self).sessions()
                &&& id.len() > 0 && !live.dom().contains(id) && live.dom().len() >= BETA_USER_LIMIT
                    ==> (r matches Err(e) && e@ == beta_sessions_message()) && final(self).sessions() == live
                &&& r is Ok <==> id.len() > 0 && (live.dom().contains(id) || live.dom().len() < BETA_USER_LIMIT)
                &&& r matches Ok(status) ==> final(self).sessions() == live.insert(id, now_ms)
                    && is_status_of(status, old(self).tasks(), final(self).sessions().dom().len())
            }),
            final(self).same_tasks(old(self)),
            final(self).same_accounts(old(self)),
            final(self).rate_windows() == old(self).rate_windows(),
            final(self).waitlist() == old(self).waitlist(),
    {
        let id = trim(request.session_id.as_str());
        if id.is_empty() {
            return Err("session_id is required".to_owned());
        }
        self.prune_sessions(now_ms);
        proof {
            self.lemma_session_count();
        }
        let key = id.to_owned();
        if self.sessions.find(&key).is_none() && self.sessions.len() >= BETA_USER_LIMIT {
            return Err("beta limit reached: only 4 active dashboard sessions are allowed".to_owned());
        }
        self.sessions.insert(key, now_ms);
        proof {
            self.lemma_session_count();
        }
        let active = self.sessions.len();
        Ok(self.status_response(active))
    }

    /// Issues a fresh session token for `username`.
    pub fn create_session_token(&mut self, username: String) -> (r: String)
        requires
            old(self).inv(),
        ensures
            final(self).inv(),
            history_kept(old(self).tasks(), final(self).tasks()),
            exists|id: u128| r@ == session_token_text(id),
            final(self).tokens() == old(self).tokens().insert(r@, username@),
            final(self).users() == old(self).users(),
            final(self).api_keys() == old(self).api_keys(),
            final(self).same_tasks(old(self)),
            final(self).sessions() == old(self).sessions(),
            final(self).rate_windows() == old(self).rate_windows(),
            final(self).waitlist() == old(self).waitlist(),
    {
        let token = new_session_token();
        let ghost old_tokens = self.tokens();
        let ghost name = username@;
        self.auth_tokens.insert(token.clone(), username);
        assert(self.tokens() =~= old_tokens.insert(token@, name));
        token
    }

    /// Signs a user in and issues a session token. An unknown user is
    /// signed up when `public_signup` is on; otherwise an invitation is
    /// needed. The reply carries the user's API keys.
    pub fn login(&mut self, request: LoginRequest, public_signup: bool) -> (r: Result<LoginResponse, String>)
        requires
            old(self).inv(),
        ensures
            final(self).inv(),
            history_kept(old(self).tasks(), final(self).tasks()),
            ({
                let user = trimmed(request.username@);
                let password = request.password@;
                let blank = user.len() == 0 || trimmed(password).len() == 0;
                let known = old(self).users().dom().contains(user);
                &&& blank ==> (r matches Err(e) && e@ == "username and password are required"@)
                &&& !blank && !known && !public_signup ==> (r matches Err(e) && e@ == "invite required"@)
                &&& !blank && known ==> {
                    &&& final(self).users() == old(self).users()
                    &&& r is Ok <==> bcrypt_verify_outcome(password, old(self).users()[user]) == Some(true)
                    &&& r matches Err(e) ==> e@ == "invalid credentials"@
                }
                &&& !blank && !known && public_signup ==> {
                    &&& r matches Err(e) ==> e@ == "could not hash password"@
                    &&& r is Ok ==> final(self).users() == old(self).users().insert(user, final(self).users()[user])
                        && bcrypt_verify_outcome(password, final(self).users()[user]) == Some(true)
                }
                &&& r is Err ==> final(self).same_accounts(old(self))
                &&& r matches Ok(resp) ==> {
                    &&& exists|id: u128| resp.token@ == session_token_text(id)
                    &&& final(self).tokens() == old(self).tokens().insert(resp.token@, user)
                    &&& resp.api_keys@ == keys_of(old(self).api_keys(), user)
                    &&& final(self).api_keys() == old(self).api_keys()
                }
            }),
            final(self).same_tasks(old(self)),
            final(self).sessions() == old(self).sessions(),
            final(self).rate_windows() == old(self).rate_windows(),
            final(self).waitlist() == old(self).waitlist(),
    {
        let username = trim(request.username.as_str()).to_owned();
        if username.as_str().is_empty() || trim(request.password.as_str()).is_empty() {
            return Err("username and password are required".to_owned());
        }
        let ghost old_users = self.users();
        let stored: String = match self.users.get(&username) {
            Some(h) => h.clone(),
            None => {
                if !public_signup {
                    return Err("invite required".to_owned());
                }
                match bcrypt_hash(request.password.as_str()) {
                    None => {
                        return Err("could not hash password".to_owned());
                    },
                    Some(h) => {
                        self.users.insert(username.clone(), h.clone());
                        assert(self.users() =~= old_users.insert(username@, h@));
                        h
                    },
                }
            },
        };
        assert(self.users().dom().contains(username@) && self.users()[username@] == stored@);
        match bcrypt_verify(request.password.as_str(), stored.as_str()) {
            Some(true) => {},
            _ => {
                return Err("invalid credentials".to_owned());
            },
        }
        let token = self.create_session_token(username.clone());
        let api_keys = match self.api_keys.get(&username) {
            Some(k) => copy_api_keys(k),
            None => Vec::new(),
        };
        Ok(LoginResponse { token, api_keys })
    }

    /// The user that a session token or, failing that, an API key belongs
    /// to. A token is looked up first; an API key is searched among all
    /// users' keys.
    pub fn user_for_access(&self, token: Option<&str>, api_key: Option<&str>) -> (r: Option<String>)
        requires
            self.inv(),
        ensures
            token_user(self.tokens(), token) matches Some(user) ==> (r matches Some(u) && u@ == user),
            token_user(self.tokens(), token) is None && api_key is None ==> r is None,
            token_user(self.tokens(), token) is None && api_key is Some ==> (r is Some <==> (exists|u: Seq<char>|
                #![trigger self.api_keys().dom().contains(u)]
                owns_key(self.api_keys(), u, api_key->0@))),
            token_user(self.tokens(), token) is None && api_key is Some ==> (r matches Some(u) ==> owns_key(
                self.api_keys(),
                u@,
                api_key->0@,
            )),
    {
        if let Some(t) = token {
            let key = t.to_owned();
            if let Some(user) = self.auth_tokens.get(&key) {
                return Some(user.clone());
            }
        }
        match api_key {
            Some(k) => self.owner_of_key(k),
            None => None,
        }
    }

    /// A user who holds the API key `key`, if any does.
    fn owner_of_key(&self, key: &str) -> (r: Option<String>)
        requires
            self.inv(),
        ensures
            r is Some <==> exists|u: Seq<char>| #[trigger] owns_key(self.api_keys(), u, key@),
            r matches Some(u) ==> owns_key(self.api_keys(), u@, key@),
    {
        let n = self.api_keys.len();
        let mut i: usize = 0;
        while i < n
            invariant
                n == self.api_keys.count(),
                i <= n,
                self.inv(),
                forall|p: int, j: int| 0 <= p < i && 0 <= j < self.api_keys.pairs()[p].1.len()
                    ==> #[trigger] self.api_keys.pairs()[p].1[j].key@ != key@,
            decreases n - i,
        {
            let keys = self.api_keys.value_at(i);
            let mut j: usize = 0;
            while j < keys.len()
                invariant
                    i < n,
                    n == self.api_keys.count(),
                    self.inv(),
                    *keys == self.api_keys.pairs()[i as int].1,
                    j <= keys.len(),
                    forall|q: int| 0 <= q < j ==> #[trigger] keys@[q].key@ != key@,
                decreases keys.len() - j,
            {
                if crate::text::str_eq(keys[j].key.as_str(), key) {
                    let user = self.api_keys.key_at(i);
                    proof {
                        crate::strmap::lemma_map_of_at(self.api_keys.pairs(), i as int);
                        assert(self.api_keys()[user@] == keys@);
                        assert(self.api_keys()[user@][j as int].key@ == key@);
                        assert(owns_key(self.api_keys(), user@, key@));
                    }
                    return Some(user.clone());
                }
                j = j + 1;
            }
            i = i + 1;
        }
        assert forall|u: Seq<char>| !owns_key(self.api_keys(), u, key@) by {
            if owns_key(self.api_keys(), u, key@) {
                let pairs = self.api_keys.pairs();
                let p = choose|p: int| 0 <= p < pairs.len() && pairs[p].0 == u;
                crate::strmap::lemma_map_of_at(pairs, p);
                let j = choose|j: int| 0 <= j < self.api_keys()[u].len() && #[trigger] self.api_keys()[u][j].key@ == key@;
                assert(pairs[p].1[j].key@ == key@);
            }
        }
        None
    }

    /// Issues a new API key, labelled `label` or `default`, to the user of
    /// the session token `token`.
    pub fn create_api_key(&mut self, token: &str, label: Option<String>, now_ms: u128) -> (r: Result<ApiKey, String>)
        requires
            old(self).inv(),
        ensures
            final(self).inv(),
            history_kept(old(self).tasks(), final(self).tasks()),
            r is Ok <==> old(self).tokens().dom().contains(token@),
            r matches Err(e) ==> e@ == "unauthorized"@ && final(self).api_keys() == old(self).api_keys(),
            r matches Ok(key) ==> {
                let user = old(self).tokens()[token@];
                &&& exists|id: u128| key.key@ == api_key_text(id)
                &&& key.label@ == cleaned_or(opt_view(label), "default"@)
                &&& key.created_at_ms == now_ms
                &&& final(self).api_keys() == old(self).api_keys().insert(user, keys_of(old(self).api_keys(), user).push(key))
                &&& owns_key(final(self).api_keys(), user, key.key@)
            },
            final(self).users() == old(self).users(),
            final(self).tokens() == old(self).tokens(),
            final(self).same_tasks(old(self)),
            final(self).sessions() == old(self).sessions(),
            final(self).rate_windows() == old(self).rate_windows(),
            final(self).waitlist() == old(self).waitlist(),
    {
        let user = match self.user_for_access(Some(token), None) {
            Some(u) => u,
            None => {
                return Err("unauthorized".to_owned());
            },
        };
        let key = ApiKey {
            key: new_api_key_text(),
            label: clean_or_default(label, "default"),
            created_at_ms: now_ms,
        };
        let ghost old_keys = self.api_keys();
        let mut keys = match self.api_keys.get(&user) {
            Some(k) => copy_api_keys(k),
            None => Vec::new(),
        };
        keys.push(key.copy());
        let ghost kv = keys@;
        self.api_keys.insert(user, keys);
        assert(self.api_keys() =~= old_keys.insert(old(self).tokens()[token@], kv));
        assert(self.api_keys()[old(self).tokens()[token@]][kv.len() - 1] == key);
        Ok(key)
    }

    /// Adds a request to the waitlist; the email must hold `@` and must not
    /// be blank.
    pub fn join_waitlist(&mut self, request: WaitlistRequest) -> (r: Result<(), String>)
        requires
            old(self).inv(),
        ensures
            final(self).inv(),
            history_kept(old(self).tasks(), final(self).tasks()),
            r is Ok <==> trimmed(request.email@).len() > 0 && request.email@.contains('@'),
            r matches Err(e) ==> e@ == "a valid email is required"@ && final(self).waitlist() == old(self).waitlist(),
            r is Ok ==> final(self).waitlist() == old(self).waitlist().push(request),
            final(self).same_tasks(old(self)),
            final(self).same_accounts(old(self)),
            final(self).sessions() == old(self).sessions(),
            final(self).rate_windows() == old(self).rate_windows(),
    {
        if trim(request.email.as_str()).is_empty() || !contains_char(request.email.as_str(), '@') {
            return Err("a valid email is required".to_owned());
        }
        self.waitlist.push(request);
        Ok(())
    }

    /// Adds an account with a hash of `password`, replacing any account of
    /// that name.
    pub fn seed_admin(&mut self, username: String, password: &str) -> (r: Result<(), String>)
        requires
            old(self).inv(),
        ensures
            final(self).inv(),
            history_kept(old(self).tasks(), final(self).tasks()),
            r matches Err(e) ==> e@ == "could not hash password"@ && final(self).users() == old(self).users(),
            r is Ok ==> final(self).users() == old(self).users().insert(username@, final(self).users()[username@])
                && bcrypt_verify_outcome(password@, final(self).users()[username@]) == Some(true),
            final(self).tokens() == old(self).tokens(),
            final(self).api_keys() == old(self).api_keys(),
            final(self).same_tasks(old(self)),
            final(self).sessions() == old(self).sessions(),
            final(self).rate_windows() == old(self).rate_windows(),
            final(self).waitlist() == old(self).waitlist(),
    {
        let hash = match bcrypt_hash(password) {
            Some(h) => h,
            None => {
                return Err("could not hash password".to_owned());
            },
        };
        let ghost old_users = self.users();
        let ghost hv = hash@;
        self.users.insert(username, hash);
        assert(self.users() =~= old_users.insert(username@, hv));
        Ok(())
    }

    /// Copies of all tasks, oldest first.
    pub fn all_tasks(&self) -> (r: Vec<Task>)
        ensures
            r@ == self.tasks(),
    {
        let mut out: Vec<Task> = Vec::new();
        let mut i: usize = 0;
        while i < self.tasks.len()
            invariant
                i <= self.tasks@.len(),
                out@ == self.tasks@.take(i as int),
            decreases self.tasks@.len() - i,
        {
            out.push(self.tasks[i].copy());
            assert(out@ =~= self.tasks@.take(i + 1));
            i = i + 1;
        }
        assert(self.tasks@.take(self.tasks@.len() as int) =~= self.tasks@);
        out
    }

    /// The number of tasks with the given status.
    pub fn count_status(&self, status: TaskStatus) -> (r: usize)
        ensures
            r == count_with_status(self.tasks(), status),
    {
        let mut count: usize = 0;
        let n = self.tasks.len();
        let mut i: usize = 0;
        while i < n
            invariant
                n == self.tasks@.len(),
                i <= n,
                count == count_with_status(self.tasks@.take(i as int), status),
                count <= i,
            decreases n - i,
        {
            assert(self.tasks@.take(i + 1).drop_last() =~= self.tasks@.take(i as int));
            if self.tasks[i].status == status {
                count = count + 1;
            }
            i = i + 1;
        }
        assert(self.tasks@.take(n as int) =~= self.tasks@);
        count
    }
}

/// The characters of each string in a list.
pub open spec fn names_of(v: Seq<String>) -> Seq<Seq<char>> {
    v.map_values(|s: String| s@)
}

/// Whether a list of strings holds `s`.
pub fn contains_string(v: &Vec<String>, s: &String) -> (r: bool)
    ensures
        r == names_of(v@).contains(s@),
{
    let mut i: usize = 0;
    while i < v.len()
        invariant
            i <= v.len(),
            forall|j: int| 0 <= j < i ==> names_of(v@)[j] != s@,
        decreases v.len() - i,
    {
        if v[i] == *s {
            assert(names_of(v@)[i as int] == s@);
            return true;
        }
        i = i + 1;
    }
    false
}

/// The beta admits a user who is already active, or any user while fewer
/// than `BETA_USER_LIMIT` users are active.
pub fn beta_limit_allows(already_active: bool, active_users: usize) -> (r: bool)
    ensures
        r == (already_active || active_users < BETA_USER_LIMIT),
{
    already_active || active_users < BETA_USER_LIMIT
}

/// The task with id `i + 1` stands at index `i`.
pub open spec fn ids_in_order(tasks: Seq<Task>) -> bool {
    forall|i: int| 0 <= i < tasks.len() ==> #[trigger] tasks[i].id == i + 1
}

/// The queue holds ids of existing tasks, each once, in increasing order.
pub open spec fn queue_well_formed(queue: Seq<u64>, task_count: nat) -> bool {
    &&& forall|p: int| 0 <= p < queue.len() ==> 1 <= #[trigger] queue[p] <= task_count
    &&& forall|p: int, q: int| 0 <= p < q < queue.len() ==> queue[p] < queue[q]
}

/// Every queued task is waiting in the queue.
pub open spec fn queued_are_waiting(tasks: Seq<Task>, queue: Seq<u64>) -> bool {
    forall|i: int| 0 <= i < tasks.len() && #[trigger] tasks[i].status == TaskStatus::Queued
        ==> queue.contains((i + 1) as u64)
}

/// No user has more requests in the rate window than the limit.
pub open spec fn windows_within_limit(windows: Map<Seq<char>, Seq<u128>>) -> bool {
    forall|u: Seq<char>| #[trigger] windows.dom().contains(u) ==> windows[u].len() <= TASK_RATE_LIMIT_PER_MINUTE
}

/// The task at index `i` is the queued task with the lowest id.
pub open spec fn is_next_queued(tasks: Seq<Task>, i: int) -> bool {
    &&& 0 <= i < tasks.len()
    &&& tasks[i].status == TaskStatus::Queued
    &&& forall|j: int| 0 <= j < i ==> #[trigger] tasks[j].status != TaskStatus::Queued
}

/// Some task is queued.
pub open spec fn has_queued(tasks: Seq<Task>) -> bool {
    exists|i: int| 0 <= i < tasks.len() && #[trigger] tasks[i].status == TaskStatus::Queued
}

/// A task as a worker takes it at `now`: running, started at `now`, and due
/// after its running time.
pub open spec fn started_task(t: Task, now: u128) -> Task {
    Task {
        status: TaskStatus::Running,
        started_at_ms: Some(now),
        estimated_completion_ms: Some((now + runtime_ms(t.priority, true)) as u128),
        ..t
    }
}

/// A task cancelled at `now`.
pub open spec fn cancelled_task(t: Task, now: u128) -> Task {
    Task { status: TaskStatus::Cancelled, completed_at_ms: Some(now), ..t }
}

/// The queue without `id`.
pub open spec fn without_id(queue: Seq<u64>, id: u64) -> Seq<u64>
    decreases queue.len(),
{
    if queue.len() == 0 {
        seq![]
    } else {
        without_id(queue.drop_last(), id) + if queue.last() != id { seq![queue.last()] } else { seq![] }
    }
}

/// The status a worker's report gives a task: completed unless the report
/// says it failed.
pub open spec fn reported_status(request: SubmitResultRequest) -> TaskStatus {
    match request.success {
        Some(false) => TaskStatus::Failed,
        _ => TaskStatus::Completed,
    }
}

/// The status a worker's report gives a task: failed when it says it did
/// not succeed, completed when it says it did or says nothing.
pub fn report_status(success: Option<bool>) -> (r: TaskStatus)
    ensures
        r == (match success {
            Some(false) => TaskStatus::Failed,
            _ => TaskStatus::Completed,
        }),
{
    match success {
        Some(false) => TaskStatus::Failed,
        _ => TaskStatus::Completed,
    }
}

/// `t` is `old` after the worker's report `request` was recorded at `now`.
pub open spec fn is_finished_task(old: Task, t: Task, request: SubmitResultRequest, now: u128) -> bool {
    &&& t.status == reported_status(request)
    &&& t.result == Some(request.result)
    &&& opt_view(t.failure_reason) == cleaned(opt_view(request.reason))
    &&& t.completed_at_ms == Some(now)
    &&& t.estimated_completion_ms == Some(now)
    &&& t == Task {
        status: t.status,
        result: t.result,
        failure_reason: t.failure_reason,
        completed_at_ms: t.completed_at_ms,
        estimated_completion_ms: t.estimated_completion_ms,
        ..old
    }
}

/// Replacing a task by one that is neither queued nor running adds no
/// active user.
pub proof fn lemma_deactivate(tasks: Seq<Task>, i: int, t: Task)
    requires
        0 <= i < tasks.len(),
        !is_active(t),
    ensures
        active_users(tasks.update(i, t)).subset_of(active_users(tasks)),
        active_users(tasks.update(i, t)).len() <= active_users(tasks).len(),
{
    let nt = tasks.update(i, t);
    assert forall|u: Seq<char>| #[trigger] active_users(nt).contains(u) implies active_users(tasks).contains(u) by {
        let j = choose|j: int| 0 <= j < nt.len() && is_active(nt[j]) && nt[j].user_id@ == u;
        assert(j != i);
        assert(nt[j] == tasks[j]);
    }
    lemma_active_users_finite(tasks);
    vstd::set_lib::lemma_len_subset(active_users(nt), active_users(tasks));
}

/// `r` reports the queue's counts, with `active_users` live sessions.
pub open spec fn is_status_of(r: StatusResponse, tasks: Seq<Task>, active_users: nat) -> bool {
    &&& r.queued == count_with_status(tasks, TaskStatus::Queued)
    &&& r.running == count_with_status(tasks, TaskStatus::Running)
    &&& r.completed == count_with_status(tasks, TaskStatus::Completed)
    &&& r.active_users == active_users
    &&& r.beta_user_limit == BETA_USER_LIMIT
    &&& r.total_tasks == tasks.len()
}

/// `user` holds an API key with text `key`.
pub open spec fn owns_key(keys: Map<Seq<char>, Seq<ApiKey>>, user: Seq<char>, key: Seq<char>) -> bool {
    &&& keys.dom().contains(user)
    &&& exists|j: int| 0 <= j < keys[user].len() && #[trigger] keys[user][j].key@ == key
}

/// The user a session token belongs to, if it is known.
pub open spec fn token_user(tokens: Map<Seq<char>, Seq<char>>, token: Option<&str>) -> Option<Seq<char>> {
    match token {
        Some(t) => if tokens.dom().contains(t@) { Some(tokens[t@]) } else { None },
        None => None,
    }
}

/// The API keys of `user`, none when the user has none yet.
pub open spec fn keys_of(keys: Map<Seq<char>, Seq<ApiKey>>, user: Seq<char>) -> Seq<ApiKey> {
    if keys.dom().contains(user) { keys[user] } else { seq![] }
}

/// The users with active tasks form a finite set.
pub proof fn lemma_active_users_finite(tasks: Seq<Task>)
    ensures
        active_users(tasks).finite(),
{
    let all = tasks.map_values(|t: Task| t.user_id@).to_set();
    assert(active_users(tasks).subset_of(all)) by {
        assert forall|u: Seq<char>| #[trigger] active_users(tasks).contains(u) implies all.contains(u) by {
            let i = choose|i: int| 0 <= i < tasks.len() && is_active(tasks[i]) && tasks[i].user_id@ == u;
            assert(tasks.map_values(|t: Task| t.user_id@)[i] == u);
        }
    }
    vstd::set_lib::lemma_len_subset(active_users(tasks), all);
}

pub proof fn lemma_kept_since_len(w: Seq<u128>, from: u128)
    ensures
        kept_since(w, from).len() <= w.len(),
    decreases w.len(),
{
    if w.len() > 0 {
        lemma_kept_since_len(w.drop_last(), from);
    }
}

} // verus!
