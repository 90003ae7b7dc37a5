//! Properties of the queue that span its operations.

use vstd::prelude::*;
use crate::models::{
    status_name, priority_name, ApiKey, CreateTaskRequest, StatusResponse, SubmitResultRequest, Task, TaskFilterQuery, TaskListResponse, TaskPriority, runtime_ms, completion_estimate, TaskStatus, BETA_USER_LIMIT, TASK_RATE_LIMIT_PER_MINUTE, RATE_WINDOW_MS,
};
use crate::state::{
    TaskState, active_users, is_next_queued, cancelled_task, ids_in_order, token_user, owns_key,
    keys_of, lemma_deactivate, count_with_status, is_new_task, kept_since, cutoff, rate_admits, windows_after,
    window_of, history_kept, is_reported, is_final, queue_well_formed, started_task, is_status_of, is_finished_task,
    without_id, live_sessions,
};
use crate::text::{cleaned_or, cleaned, is_white_space, law_cleaned_is_clean, opt_view, trimmed, trim_start, trim_end};
use crate::listing::{
    filtered, task_matches, ids_decreasing, page_items, lemma_filtered_ids_increasing, is_page_of, csv_header, csv_body,
    page_start, effective_per_page, effective_page, priority_label, status_label,
};

verus! {

/// In every state the queue reaches, at most `BETA_USER_LIMIT` users have
/// queued or running work, at most `BETA_USER_LIMIT` dashboard sessions are
/// live, and no user has more than `TASK_RATE_LIMIT_PER_MINUTE` requests in
/// the rate window.
pub proof fn law_beta_limits(s: TaskState)
    requires
        s.inv(),
    ensures
        active_users(s.tasks()).len() <= BETA_USER_LIMIT,
        s.sessions().dom().len() <= BETA_USER_LIMIT,
        forall|u: Seq<char>| #[trigger] s.rate_windows().dom().contains(u)
            ==> s.rate_windows()[u].len() <= TASK_RATE_LIMIT_PER_MINUTE,
{
    s.lemma_session_count();
}

/// Tasks are handed out in the order they were created: the task that
/// `fetch_next_task` takes has a lower id than every other queued task.
pub proof fn law_fetch_is_oldest_first(tasks: Seq<Task>, i: int, j: int)
    requires
        ids_in_order(tasks),
        is_next_queued(tasks, i),
        0 <= j < tasks.len(),
        j != i,
        tasks[j].status == TaskStatus::Queued,
    ensures
        tasks[i].id < tasks[j].id,
{
    assert(tasks[i].id == i + 1);
    assert(tasks[j].id == j + 1);
}

/// A cancelled task is never handed to a worker.
pub proof fn law_cancelled_never_fetched(tasks: Seq<Task>, i: int, now: u128)
    requires
        0 <= i < tasks.len(),
    ensures
        !is_next_queued(tasks.update(i, cancelled_task(tasks[i], now)), i),
{
}

/// A task that reaches a final status frees its user's beta place unless
/// the user has other active tasks: no user becomes active.
pub proof fn law_finishing_frees_places(tasks: Seq<Task>, i: int, t: Task)
    requires
        0 <= i < tasks.len(),
        t.status == TaskStatus::Completed || t.status == TaskStatus::Failed || t.status == TaskStatus::Cancelled,
    ensures
        active_users(tasks.update(i, t)).subset_of(active_users(tasks)),
{
    lemma_deactivate(tasks, i, t);
}

/// The token that `login` issues gives access as the signed-in user:
/// `user_for_access` reads back the user that `login` recorded for it.
pub proof fn law_login_token_grants_access(tokens: Map<Seq<char>, Seq<char>>, token: &str, user: Seq<char>)
    ensures
        token_user(tokens.insert(token@, user), Some(token)) == Some(user),
{
}

/// A key that `create_api_key` issues is held by its user, so
/// `user_for_access` finds a holder for it.
pub proof fn law_new_api_key_is_held(keys: Map<Seq<char>, Seq<ApiKey>>, user: Seq<char>, key: ApiKey)
    ensures
        owns_key(keys.insert(user, keys_of(keys, user).push(key)), user, key.key@),
{
    let after = keys.insert(user, keys_of(keys, user).push(key));
    assert(after[user][keys_of(keys, user).len() as int] == key);
}

/// Listed tasks pass the query's filters and come newest first, on every
/// page.
pub proof fn law_listing_newest_first(s: TaskState, q: TaskFilterQuery, start: int, per: int)
    requires
        s.inv(),
        0 <= start,
        0 <= per,
    ensures
        ids_decreasing(page_items(filtered(s.tasks(), q).reverse(), start, per)),
        forall|a: int| 0 <= a < page_items(filtered(s.tasks(), q).reverse(), start, per).len()
            ==> task_matches(#[trigger] page_items(filtered(s.tasks(), q).reverse(), start, per)[a], q),
{
    let tasks = s.tasks();
    assert forall|a: int, b: int| 0 <= a < b < tasks.len() implies tasks[a].id < tasks[b].id by {
        assert(tasks[a].id == a + 1);
        assert(tasks[b].id == b + 1);
    }
    lemma_filtered_ids_increasing(tasks, q);
    lemma_filtered_match(tasks, q);
    let f = filtered(tasks, q);
    let rev = f.reverse();
    let page = page_items(rev, start, per);
    assert forall|a: int, b: int| 0 <= a < b < page.len() implies page[a].id > page[b].id by {
        assert(page[a] == rev[start + a]);
        assert(page[b] == rev[start + b]);
        assert(rev[start + a] == f[f.len() - 1 - (start + a)]);
        assert(rev[start + b] == f[f.len() - 1 - (start + b)]);
    }
    assert forall|a: int| 0 <= a < page.len() implies task_matches(#[trigger] page[a], q) by {
        assert(page[a] == rev[start + a]);
        assert(rev[start + a] == f[f.len() - 1 - (start + a)]);
    }
}

/// Every task that the filters keep passes them.
pub proof fn lemma_filtered_match(tasks: Seq<Task>, q: TaskFilterQuery)
    ensures
        forall|a: int| 0 <= a < filtered(tasks, q).len() ==> task_matches(#[trigger] filtered(tasks, q)[a], q),
    decreases tasks.len(),
{
    if tasks.len() > 0 {
        lemma_filtered_match(tasks.drop_last(), q);
        let f = filtered(tasks, q);
        let fr = filtered(tasks.drop_last(), q);
        assert forall|a: int| 0 <= a < f.len() implies task_matches(#[trigger] f[a], q) by {
            if a < fr.len() {
                assert(f[a] == fr[a]);
            }
        }
    }
}

/// Every task has exactly one status: the per-status counts add up to the
/// number of tasks.
pub proof fn law_status_counts_add_up(tasks: Seq<Task>)
    ensures
        count_with_status(tasks, TaskStatus::Queued) + count_with_status(tasks, TaskStatus::Running)
            + count_with_status(tasks, TaskStatus::Completed) + count_with_status(tasks, TaskStatus::Failed)
            + count_with_status(tasks, TaskStatus::Cancelled) == tasks.len(),
    decreases tasks.len(),
{
    if tasks.len() > 0 {
        law_status_counts_add_up(tasks.drop_last());
    }
}

/// Every task that `create_task` makes has a user, file name and quality
/// that are not blank and carry no surrounding white space.
pub proof fn law_new_task_text_is_clean(t: Task, id: u64, auth: Seq<char>, request: CreateTaskRequest, now: u128, depth: nat)
    requires
        is_new_task(t, id, cleaned_or(Some(auth), "anonymous"@), request, now, depth),
    ensures
        t.user_id@.len() > 0 && trimmed(t.user_id@) == t.user_id@,
        t.file_name@.len() > 0 && trimmed(t.file_name@) == t.file_name@,
        t.quality@.len() > 0 && trimmed(t.quality@) == t.quality@,
{
    reveal_strlit("anonymous");
    reveal_strlit("sample-file.mp4");
    reveal_strlit("beta");
    lemma_plain_word_is_trimmed("anonymous"@);
    lemma_plain_word_is_trimmed("sample-file.mp4"@);
    lemma_plain_word_is_trimmed("beta"@);
    law_cleaned_is_clean(Some(auth), "anonymous"@);
    law_cleaned_is_clean(opt_view(request.file_name), "sample-file.mp4"@);
    law_cleaned_is_clean(opt_view(request.quality), "beta"@);
}

/// A word without white space at either end is its own trim.
proof fn lemma_plain_word_is_trimmed(w: Seq<char>)
    requires
        w.len() > 0,
        !is_white_space(w[0]),
        !is_white_space(w.last()),
    ensures
        trimmed(w) == w,
{
}

/// Whether a request at `t` is admitted by a user's window `w`.
pub open spec fn step_admits(w: Seq<u128>, t: u128) -> bool {
    kept_since(w, cutoff(t, RATE_WINDOW_MS)).len() < TASK_RATE_LIMIT_PER_MINUTE
}

/// A user's window after a request at `t`.
pub open spec fn rate_step(w: Seq<u128>, t: u128) -> Seq<u128> {
    let recent = kept_since(w, cutoff(t, RATE_WINDOW_MS));
    if step_admits(w, t) { recent.push(t) } else { recent }
}

/// One call of `within_rate_limit` moves the user's window by `rate_step`
/// and answers `step_admits`.
pub proof fn lemma_rate_limit_call_is_step(windows: Map<Seq<char>, Seq<u128>>, user: Seq<char>, t: u128)
    ensures
        rate_admits(windows, user, t) == step_admits(window_of(windows, user), t),
        windows_after(windows, user, t)[user] == rate_step(window_of(windows, user), t),
        window_of(windows_after(windows, user, t), user) == rate_step(window_of(windows, user), t),
{
}

/// A user's window after requests at `times`, from no window.
pub open spec fn window_after_run(times: Seq<u128>) -> Seq<u128>
    decreases times.len(),
{
    if times.len() == 0 {
        seq![]
    } else {
        rate_step(window_after_run(times.drop_last()), times.last())
    }
}

/// The number of requests in `times` that were admitted and were made at
/// or after `from`.
pub open spec fn admitted_since(times: Seq<u128>, from: u128) -> nat
    decreases times.len(),
{
    if times.len() == 0 {
        0
    } else {
        admitted_since(times.drop_last(), from)
            + if step_admits(window_after_run(times.drop_last()), times.last()) && times.last() >= from { 1nat } else { 0nat }
    }
}

/// Request times that never go back.
pub open spec fn non_decreasing(times: Seq<u128>) -> bool {
    forall|a: int, b: int| 0 <= a <= b < times.len() ==> times[a] <= times[b]
}

proof fn lemma_kept_since_twice(w: Seq<u128>, a: u128, b: u128)
    requires
        a <= b,
    ensures
        kept_since(kept_since(w, a), b) == kept_since(w, b),
    decreases w.len(),
{
    if w.len() > 0 {
        lemma_kept_since_twice(w.drop_last(), a, b);
        let k = kept_since(w.drop_last(), a);
        if w.last() >= a {
            assert(kept_since(w, a) == k.push(w.last()));
            assert(kept_since(w, a).drop_last() == k);
        }
    }
}

proof fn lemma_kept_since_push(r: Seq<u128>, t: u128, c: u128)
    ensures
        kept_since(r.push(t), c) == kept_since(r, c) + if t >= c { seq![t] } else { seq![] },
{
    assert(r.push(t).drop_last() == r);
}

proof fn lemma_window_tracks_admitted(times: Seq<u128>, c: u128)
    requires
        non_decreasing(times),
        times.len() == 0 || c >= cutoff(times.last(), RATE_WINDOW_MS),
    ensures
        kept_since(window_after_run(times), c).len() == admitted_since(times, c),
        window_after_run(times).len() <= TASK_RATE_LIMIT_PER_MINUTE,
    decreases times.len(),
{
    if times.len() > 0 {
        let prev = times.drop_last();
        let t = times.last();
        let w = window_after_run(prev);
        let from = cutoff(t, RATE_WINDOW_MS);
        assert(non_decreasing(prev));
        if prev.len() > 0 {
            assert(prev.last() == times[times.len() - 2]);
            assert(prev.last() <= t);
        }
        lemma_window_tracks_admitted(prev, c);
        lemma_window_tracks_admitted(prev, from);
        crate::state::lemma_kept_since_len(w, from);
        let recent = kept_since(w, from);
        lemma_kept_since_twice(w, from, c);
        if step_admits(w, t) {
            lemma_kept_since_push(recent, t, c);
        }
    }
}

/// For one user whose requests come at non-decreasing times, at most
/// `TASK_RATE_LIMIT_PER_MINUTE` requests are admitted in the rate window
/// that ends at the latest request.
pub proof fn law_rate_limit_per_window(times: Seq<u128>)
    requires
        non_decreasing(times),
        times.len() > 0,
    ensures
        admitted_since(times, cutoff(times.last(), RATE_WINDOW_MS)) <= TASK_RATE_LIMIT_PER_MINUTE,
{
    let c = cutoff(times.last(), RATE_WINDOW_MS);
    lemma_window_tracks_admitted(times, c);
    crate::state::lemma_kept_since_len(window_after_run(times), c);
}

/// What no operation undoes holds across any number of operations: it
/// carries from one state to the next and on to any later state.
pub proof fn law_history_kept_transitive(a: Seq<Task>, b: Seq<Task>, c: Seq<Task>)
    requires
        history_kept(a, b),
        history_kept(b, c),
    ensures
        history_kept(a, c),
{
    assert forall|i: int| 0 <= i < a.len() implies {
        &&& #[trigger] c[i].id == a[i].id
        &&& (c[i].status == TaskStatus::Queued ==> a[i].status == TaskStatus::Queued)
        &&& (is_reported(a[i].status) ==> is_reported(c[i].status))
    } by {
        assert(b[i].id == a[i].id);
    }
}

/// Along a run of operations, each of which keeps the history of the task
/// list, every state keeps the history of every earlier one.
pub proof fn law_history_kept_along_run(states: Seq<Seq<Task>>, a: int, b: int)
    requires
        forall|j: int| 0 <= j < states.len() - 1 ==> history_kept(#[trigger] states[j], states[j + 1]),
        0 <= a <= b < states.len(),
    ensures
        history_kept(states[a], states[b]),
    decreases b - a,
{
    if a < b {
        law_history_kept_along_run(states, a + 1, b);
        assert(history_kept(states[a], states[a + 1]));
        law_history_kept_transitive(states[a], states[a + 1], states[b]);
    }
}

/// No task is handed to a worker twice: the task that `fetch_next_task`
/// returned is running in the state it left, and in no later state is it
/// the next queued task, so no later fetch returns it again.
pub proof fn law_fetched_task_not_fetched_again(after: Seq<Task>, later: Seq<Task>, t: Task)
    requires
        1 <= t.id <= after.len(),
        after[t.id - 1] == t,
        t.status == TaskStatus::Running,
        history_kept(after, later),
    ensures
        later[t.id - 1].status != TaskStatus::Queued,
        !is_next_queued(later, t.id - 1),
{
    assert(later[t.id - 1].id == after[t.id - 1].id);
}

/// A cancelled task is never handed to a worker, however many operations
/// follow its cancellation.
pub proof fn law_cancelled_never_fetched_later(after: Seq<Task>, later: Seq<Task>, i: int)
    requires
        0 <= i < after.len(),
        after[i].status == TaskStatus::Cancelled,
        history_kept(after, later),
    ensures
        later[i].status != TaskStatus::Queued,
        !is_next_queued(later, i),
{
    assert(later[i].id == after[i].id);
}

/// A task that a worker reported on stays completed or failed in every
/// later state: it is final, so `cancel_task` refuses it, and it is never
/// fetched again.
pub proof fn law_reported_task_stays_finished(after: Seq<Task>, later: Seq<Task>, i: int)
    requires
        0 <= i < after.len(),
        is_reported(after[i].status),
        history_kept(after, later),
    ensures
        is_reported(later[i].status),
        is_final(later[i].status),
        !is_next_queued(later, i),
{
    assert(later[i].id == after[i].id);
}

/// One call's effect on the task list: it appended `added`'s task, or, for
/// `None`, it added no task (a refused `create_task` adds none, and neither
/// does any other operation).
pub open spec fn adds_task(before: Seq<Task>, after: Seq<Task>, added: Option<Task>) -> bool {
    match added {
        Some(t) => after == before.push(t),
        None => after.len() == before.len(),
    }
}

/// The number of calls that added a task.
pub open spec fn count_added(added: Seq<Option<Task>>) -> nat
    decreases added.len(),
{
    if added.len() == 0 {
        0
    } else {
        count_added(added.drop_last()) + if added.last() is Some { 1nat } else { 0nat }
    }
}

proof fn lemma_task_count_follows_creations(states: Seq<Seq<Task>>, added: Seq<Option<Task>>, k: int)
    requires
        states.len() == added.len() + 1,
        states[0].len() == 0,
        forall|j: int| 0 <= j < added.len() ==> adds_task(#[trigger] states[j], states[j + 1], added[j]),
        0 <= k <= added.len(),
    ensures
        states[k].len() == count_added(added.take(k)),
    decreases k,
{
    if k > 0 {
        lemma_task_count_follows_creations(states, added, k - 1);
        assert(added.take(k).drop_last() == added.take(k - 1));
        assert(adds_task(states[k - 1], states[k], added[k - 1]));
    } else {
        assert(added.take(0).len() == 0);
    }
}

/// Task ids count the successful creations: from the empty queue, through
/// any calls each of which appended one task or added none, the task that
/// the k-th successful `create_task` appended has id k. A refused call uses
/// up no id, and no two tasks share an id.
pub proof fn law_ids_count_creations(states: Seq<Seq<Task>>, added: Seq<Option<Task>>)
    requires
        states.len() == added.len() + 1,
        states[0].len() == 0,
        forall|j: int| 0 <= j < added.len() ==> adds_task(#[trigger] states[j], states[j + 1], added[j]),
        forall|j: int| 0 <= j < states.len() ==> ids_in_order(#[trigger] states[j]),
    ensures
        forall|k: int| 0 <= k < added.len() && #[trigger] added[k] is Some
            ==> added[k]->0.id == count_added(added.take(k + 1)),
        states.last().len() == count_added(added),
        forall|a: int, b: int| 0 <= a < b < states.last().len() ==> states.last()[a].id < states.last()[b].id,
{
    assert forall|k: int| 0 <= k < added.len() && #[trigger] added[k] is Some
        implies added[k]->0.id == count_added(added.take(k + 1)) by {
        lemma_task_count_follows_creations(states, added, k);
        assert(adds_task(states[k], states[k + 1], added[k]));
        let n = states[k].len();
        assert(ids_in_order(states[k + 1]));
        assert(states[k + 1][n as int] == added[k]->0);
        assert(added.take(k + 1).drop_last() == added.take(k));
    }
    lemma_task_count_follows_creations(states, added, added.len() as int);
    assert(added.take(added.len() as int) == added);
    let last = states.last();
    assert(ids_in_order(states[states.len() - 1]));
    assert forall|a: int, b: int| 0 <= a < b < last.len() implies last[a].id < last[b].id by {
        assert(last[a].id == a + 1);
        assert(last[b].id == b + 1);
    }
}

/// A successful `create_task` adds exactly one task: queued, behind every
/// id already waiting, with an id no other task has, and with the earlier
/// tasks left as they were. So the queued count and the total that
/// `status` reports each grow by one, and its other counts stay.
pub proof fn law_create_adds_one_queued_task(
    before: Seq<Task>,
    queue: Seq<u64>,
    t: Task,
    user: Seq<char>,
    request: CreateTaskRequest,
    now: u128,
)
    requires
        ids_in_order(before),
        queue_well_formed(queue, before.len()),
        before.len() < u64::MAX,
        is_new_task(t, (before.len() + 1) as u64, user, request, now, queue.len()),
    ensures
        before.push(t).len() == before.len() + 1,
        count_with_status(before.push(t), TaskStatus::Queued) == count_with_status(before, TaskStatus::Queued) + 1,
        forall|st: TaskStatus| st != TaskStatus::Queued
            ==> #[trigger] count_with_status(before.push(t), st) == count_with_status(before, st),
        forall|j: int| 0 <= j < before.len() ==> before.push(t)[j] == before[j] && #[trigger] before[j].id != t.id,
        forall|p: int| 0 <= p < queue.len() ==> #[trigger] queue[p] < t.id,
        queue_well_formed(queue.push(t.id), before.len() + 1),
{
    assert(before.push(t).drop_last() == before);
    assert forall|j: int| 0 <= j < before.len() implies before.push(t)[j] == before[j] && #[trigger] before[j].id != t.id by {
        assert(before[j].id == j + 1);
    }
    let q2 = queue.push(t.id);
    assert forall|p: int, r: int| 0 <= p < r < q2.len() implies q2[p] < q2[r] by {
        if r == queue.len() {
            assert(q2[p] == queue[p]);
        } else {
            assert(q2[p] == queue[p]);
            assert(q2[r] == queue[r]);
        }
    }
    assert forall|p: int| 0 <= p < q2.len() implies 1 <= #[trigger] q2[p] <= before.len() + 1 by {
        if p < queue.len() {
            assert(q2[p] == queue[p]);
        }
    }
}

/// The API keys after `create_api_key` issued `key` to `user`.
pub open spec fn keys_after_issue(keys: Map<Seq<char>, Seq<ApiKey>>, user: Seq<char>, key: ApiKey) -> Map<
    Seq<char>,
    Seq<ApiKey>,
> {
    keys.insert(user, keys_of(keys, user).push(key))
}

/// Issuing a key appends it to its user's keys, which `login` lists, and
/// leaves every other user's keys as they were.
pub proof fn law_issued_key_is_listed_last(keys: Map<Seq<char>, Seq<ApiKey>>, user: Seq<char>, key: ApiKey, other: Seq<char>)
    ensures
        keys_of(keys_after_issue(keys, user, key), user) == keys_of(keys, user).push(key),
        other != user ==> keys_of(keys_after_issue(keys, user, key), other) == keys_of(keys, other),
{
}

/// After a key is issued, a user holds a key text exactly when the user
/// held it before or it is the new key's text and the user is its owner.
pub proof fn law_key_held_iff_issued(keys: Map<Seq<char>, Seq<ApiKey>>, user: Seq<char>, key: ApiKey, u: Seq<char>, k: Seq<char>)
    ensures
        owns_key(keys_after_issue(keys, user, key), u, k) <==> owns_key(keys, u, k) || (u == user && k == key.key@),
{
    let after = keys_after_issue(keys, user, key);
    if u == user {
        let old_keys = keys_of(keys, user);
        if owns_key(after, u, k) {
            let j = choose|j: int| 0 <= j < after[u].len() && #[trigger] after[u][j].key@ == k;
            if j < old_keys.len() {
                assert(keys.dom().contains(user));
                assert(keys[u][j] == after[u][j]);
            }
        }
        if owns_key(keys, u, k) {
            let j = choose|j: int| 0 <= j < keys[u].len() && #[trigger] keys[u][j].key@ == k;
            assert(after[u][j] == keys[u][j]);
        }
        if k == key.key@ {
            assert(after[u][old_keys.len() as int] == key);
        }
    }
}

/// The keys issued to `u` by a run of `create_api_key` calls, in the order
/// they were issued.
pub open spec fn issued_to(issues: Seq<Option<(Seq<char>, ApiKey)>>, u: Seq<char>) -> Seq<ApiKey>
    decreases issues.len(),
{
    if issues.len() == 0 {
        seq![]
    } else {
        let earlier = issued_to(issues.drop_last(), u);
        match issues.last() {
            Some((owner, key)) => if owner == u { earlier.push(key) } else { earlier },
            None => earlier,
        }
    }
}

/// One call's effect on the API keys: it issued a key to a user, or, for
/// `None`, left the keys as they were.
pub open spec fn issues_key(before: Map<Seq<char>, Seq<ApiKey>>, after: Map<Seq<char>, Seq<ApiKey>>, issued: Option<
    (Seq<char>, ApiKey),
>) -> bool {
    match issued {
        Some((user, key)) => after == keys_after_issue(before, user, key),
        None => after == before,
    }
}

/// From no keys, through any calls each of which issued one key or none,
/// `login` lists a user's keys in the order they were issued, and a user
/// holds a key text exactly when a key with that text was issued to that
/// user.
pub proof fn law_keys_in_creation_order(maps: Seq<Map<Seq<char>, Seq<ApiKey>>>, issues: Seq<Option<(Seq<char>, ApiKey)>>, u: Seq<char>, k: Seq<char>)
    requires
        maps.len() == issues.len() + 1,
        maps[0] == Map::<Seq<char>, Seq<ApiKey>>::empty(),
        forall|j: int| 0 <= j < issues.len() ==> issues_key(#[trigger] maps[j], maps[j + 1], issues[j]),
    ensures
        keys_of(maps.last(), u) == issued_to(issues, u),
        owns_key(maps.last(), u, k) <==> exists|j: int| 0 <= j < issued_to(issues, u).len() && #[trigger] issued_to(issues, u)[j].key@ == k,
    decreases issues.len(),
{
    if issues.len() == 0 {
        assert(keys_of(maps.last(), u) == Seq::<ApiKey>::empty());
    } else {
        let n = issues.len() - 1;
        law_keys_in_creation_order(maps.take(n + 1), issues.take(n), u, k);
        assert(issues.take(n) == issues.drop_last());
        assert(maps.take(n + 1).last() == maps[n]);
        assert(issues_key(maps[n], maps[n + 1], issues[n]));
        match issues[n] {
            Some((user, key)) => {
                law_issued_key_is_listed_last(maps[n], user, key, u);
            },
            None => {},
        }
    }
    let last = maps.last();
    let listed = issued_to(issues, u);
    if owns_key(last, u, k) {
        let j = choose|j: int| 0 <= j < last[u].len() && #[trigger] last[u][j].key@ == k;
        assert(listed[j] == last[u][j]);
    }
    if exists|j: int| 0 <= j < listed.len() && #[trigger] listed[j].key@ == k {
        let j = choose|j: int| 0 <= j < listed.len() && #[trigger] listed[j].key@ == k;
        assert(last.dom().contains(u));
        assert(last[u][j] == listed[j]);
    }
}

/// The times of `u`'s own calls in a run of calls by `callers` at `times`.
pub open spec fn times_of(callers: Seq<Seq<char>>, times: Seq<u128>, u: Seq<char>) -> Seq<u128>
    decreases callers.len(),
{
    if callers.len() == 0 || times.len() == 0 {
        seq![]
    } else {
        let earlier = times_of(callers.drop_last(), times.drop_last(), u);
        if callers.last() == u { earlier.push(times.last()) } else { earlier }
    }
}

proof fn lemma_window_follows_own_calls(
    ws: Seq<Map<Seq<char>, Seq<u128>>>,
    callers: Seq<Seq<char>>,
    times: Seq<u128>,
    u: Seq<char>,
    k: int,
)
    requires
        callers.len() == times.len(),
        ws.len() == times.len() + 1,
        window_of(ws[0], u) == Seq::<u128>::empty(),
        forall|j: int| 0 <= j < times.len() ==> #[trigger] ws[j + 1] == windows_after(ws[j], callers[j], times[j]),
        0 <= k <= times.len(),
    ensures
        window_of(ws[k], u) == window_after_run(times_of(callers.take(k), times.take(k), u)),
    decreases k,
{
    if k == 0 {
        assert(callers.take(0).len() == 0);
    } else {
        lemma_window_follows_own_calls(ws, callers, times, u, k - 1);
        let j = k - 1;
        assert(callers.take(k).drop_last() == callers.take(j));
        assert(times.take(k).drop_last() == times.take(j));
        assert(ws[j + 1] == windows_after(ws[j], callers[j], times[j]));
        let before = times_of(callers.take(j), times.take(j), u);
        if callers[j] == u {
            lemma_rate_limit_call_is_step(ws[j], u, times[j]);
            assert(before.push(times[j]).drop_last() == before);
        }
    }
}

/// The rate limit of `create_task` over a run of calls: each call by
/// `callers[j]` at `times[j]` moves the rate windows from `ws[j]` to
/// `ws[j + 1]`, as `create_task` states, and succeeds only when admitted.
/// Each user's window is the window after that user's own requests alone,
/// every call is admitted as `step_admits` says of that window, and when a
/// user's requests come at non-decreasing times, at most
/// `TASK_RATE_LIMIT_PER_MINUTE` of them are admitted in the minute that ends
/// at the latest one.
pub proof fn law_create_task_rate_limit(
    ws: Seq<Map<Seq<char>, Seq<u128>>>,
    callers: Seq<Seq<char>>,
    times: Seq<u128>,
    u: Seq<char>,
)
    requires
        callers.len() == times.len(),
        ws.len() == times.len() + 1,
        window_of(ws[0], u) == Seq::<u128>::empty(),
        forall|j: int| 0 <= j < times.len() ==> #[trigger] ws[j + 1] == windows_after(ws[j], callers[j], times[j]),
        non_decreasing(times_of(callers, times, u)),
    ensures
        window_of(ws.last(), u) == window_after_run(times_of(callers, times, u)),
        forall|j: int| 0 <= j < times.len() && #[trigger] callers[j] == u ==> rate_admits(ws[j], u, times[j])
            == step_admits(window_after_run(times_of(callers.take(j), times.take(j), u)), times[j]),
        times_of(callers, times, u).len() > 0 ==> admitted_since(
            times_of(callers, times, u),
            cutoff(times_of(callers, times, u).last(), RATE_WINDOW_MS),
        ) <= TASK_RATE_LIMIT_PER_MINUTE,
{
    lemma_window_follows_own_calls(ws, callers, times, u, times.len() as int);
    assert(callers.take(times.len() as int) == callers);
    assert(times.take(times.len() as int) == times);
    assert forall|j: int| 0 <= j < times.len() && #[trigger] callers[j] == u implies rate_admits(ws[j], u, times[j])
        == step_admits(window_after_run(times_of(callers.take(j), times.take(j), u)), times[j]) by {
        lemma_window_follows_own_calls(ws, callers, times, u, j);
        lemma_rate_limit_call_is_step(ws[j], u, times[j]);
    }
    if times_of(callers, times, u).len() > 0 {
        law_rate_limit_per_window(times_of(callers, times, u));
    }
}

/// The CSV export of a state is the page that `list_tasks` gives for the
/// same query, as CSV: the header line, then one line per listed task in
/// the listed order.
pub proof fn law_export_is_listing_as_csv(s: TaskState, q: TaskFilterQuery, listed: TaskListResponse)
    requires
        is_page_of(listed, filtered(s.tasks(), q).reverse(), q),
    ensures
        csv_header() + csv_body(
            page_items(filtered(s.tasks(), q).reverse(), page_start(q), effective_per_page(q) as int),
        ) == csv_header() + csv_body(listed.items@),
{
}

/// How long a task is expected to run once started: 8 s for high
/// priority, 15 s for medium and 22 s for low; a task not yet running is
/// expected to take 5 s longer.
pub proof fn law_runtime_estimates(p: TaskPriority, running: bool)
    ensures
        runtime_ms(p, running) == (match p {
            TaskPriority::High => 8_000int,
            TaskPriority::Medium => 15_000int,
            TaskPriority::Low => 22_000int,
        }) + if running { 0int } else { 5_000int },
{
}

/// A task that `fetch_next_task` hands out at `now` is running, started at
/// `now`, and due at `now` plus the running time of its own priority
/// (high 8 s, medium 15 s, low 22 s); nothing else about it changes.
pub proof fn law_fetched_task_is_due_by_its_priority(waiting: Task, t: Task, now: u128)
    requires
        t == started_task(waiting, now),
    ensures
        t.status == TaskStatus::Running,
        t.started_at_ms == Some(now),
        t.estimated_completion_ms == Some((now + match waiting.priority {
            TaskPriority::High => 8_000int,
            TaskPriority::Medium => 15_000int,
            TaskPriority::Low => 22_000int,
        }) as u128),
        t.id == waiting.id,
        t.priority == waiting.priority,
        t.user_id == waiting.user_id,
        t.file_name == waiting.file_name,
        t.quality == waiting.quality,
        t.payload == waiting.payload,
        t.result == waiting.result,
        t.failure_reason == waiting.failure_reason,
        t.webhook_url == waiting.webhook_url,
        t.created_at_ms == waiting.created_at_ms,
        t.completed_at_ms == waiting.completed_at_ms,
{
}

/// A task that `create_task` makes carries the request's payload (`{}`
/// only when the request gives none) and its priority (medium when it
/// gives none), is queued, and is due after the waiting time of its
/// priority (its running time plus 5 s) for itself and for each of the
/// `depth` tasks waiting before it.
pub proof fn law_created_task_keeps_the_request(
    t: Task,
    id: u64,
    user: Seq<char>,
    request: CreateTaskRequest,
    now: u128,
    depth: nat,
)
    requires
        is_new_task(t, id, user, request, now, depth),
    ensures
        request.payload matches Some(p) ==> t.payload@ == p@,
        request.payload is None ==> t.payload@ == seq!['{', '}'],
        request.priority matches Some(p) ==> t.priority == p,
        request.priority is None ==> t.priority == TaskPriority::Medium,
        t.id == id,
        t.user_id@ == user,
        t.status == TaskStatus::Queued,
        t.created_at_ms == now,
        t.started_at_ms is None,
        t.completed_at_ms is None,
        t.result is None,
        t.webhook_url == request.webhook_url,
        t.estimated_completion_ms == Some((now + (match t.priority {
            TaskPriority::High => 13_000int,
            TaskPriority::Medium => 20_000int,
            TaskPriority::Low => 27_000int,
        }) * (depth + 1)) as u128),
{
    reveal_strlit("{}");
    law_runtime_estimates(t.priority, false);
}

/// The page size and page number a listing uses: the query's `per_page`
/// kept between 1 and 100 (20 when absent), and its `page`, at least 1
/// (1 when absent).
pub proof fn law_page_size_and_number(q: TaskFilterQuery)
    ensures
        1 <= effective_per_page(q) <= 100,
        q.per_page is None ==> effective_per_page(q) == 20,
        q.per_page matches Some(p) ==> effective_per_page(q) == if p < 1 { 1 } else if p > 100 { 100 } else { p as int },
        effective_page(q) >= 1,
        q.page is None ==> effective_page(q) == 1,
        q.page matches Some(p) ==> effective_page(q) == if p < 1 { 1 } else { p as int },
        page_start(q) == (effective_page(q) - 1) * effective_per_page(q),
{
}

/// A listed page holds the tasks of the list from the page's first
/// position on, in order, and no more than the page size: exactly the page
/// size, or what is left of the list after the first position when that is
/// less; none when the page starts past the end.
pub proof fn law_listed_page_holds_one_page(r: TaskListResponse, tasks: Seq<Task>, q: TaskFilterQuery)
    requires
        is_page_of(r, tasks, q),
    ensures
        r.total == tasks.len(),
        1 <= r.per_page <= 100,
        r.page >= 1,
        r.items@.len() <= r.per_page,
        ({
            let start = (r.page - 1) * r.per_page;
            &&& start >= tasks.len() ==> r.items@.len() == 0
            &&& start < tasks.len() ==> r.items@.len() == if r.per_page <= tasks.len() - start {
                r.per_page as int
            } else {
                tasks.len() - start
            }
            &&& forall|i: int| 0 <= i < r.items@.len() ==> #[trigger] r.items@[i] == tasks[start + i]
        }),
{
    law_page_size_and_number(q);
    let start = (r.page - 1) * r.per_page;
    assert(start == page_start(q));
    assert(start >= 0) by (nonlinear_arith)
        requires
            r.page >= 1,
            r.per_page >= 1,
            start == (r.page - 1) * r.per_page,
    ;
}

/// The CSV priority column is the name of the task's priority: `High`,
/// `Medium` or `Low`.
pub proof fn law_priority_column_names_the_priority(p: TaskPriority)
    ensures
        priority_label(p) == match p {
            TaskPriority::High => seq!['H', 'i', 'g', 'h'],
            TaskPriority::Medium => seq!['M', 'e', 'd', 'i', 'u', 'm'],
            TaskPriority::Low => seq!['L', 'o', 'w'],
        },
{
    reveal_strlit("High");
    reveal_strlit("Medium");
    reveal_strlit("Low");
}

/// The CSV status column is the name of the task's status.
pub proof fn law_status_column_names_the_status(st: TaskStatus)
    ensures
        status_label(st) == match st {
            TaskStatus::Queued => seq!['Q', 'u', 'e', 'u', 'e', 'd'],
            TaskStatus::Running => seq!['R', 'u', 'n', 'n', 'i', 'n', 'g'],
            TaskStatus::Completed => seq!['C', 'o', 'm', 'p', 'l', 'e', 't', 'e', 'd'],
            TaskStatus::Failed => seq!['F', 'a', 'i', 'l', 'e', 'd'],
            TaskStatus::Cancelled => seq!['C', 'a', 'n', 'c', 'e', 'l', 'l', 'e', 'd'],
        },
{
    reveal_strlit("Queued");
    reveal_strlit("Running");
    reveal_strlit("Completed");
    reveal_strlit("Failed");
    reveal_strlit("Cancelled");
}

/// A status count counts exactly the tasks with that status: none in an
/// empty list, and one more task adds one to the count of its own status
/// and nothing to any other.
pub proof fn law_status_count_counts_its_status(tasks: Seq<Task>, t: Task, st: TaskStatus)
    ensures
        count_with_status(Seq::<Task>::empty(), st) == 0,
        count_with_status(tasks.push(t), st) == count_with_status(tasks, st) + if t.status == st { 1int } else { 0int },
{
    assert(tasks.push(t).drop_last() == tasks);
}

/// A status count is the number of tasks that have that status.
pub proof fn law_status_count_is_filter_len(tasks: Seq<Task>, st: TaskStatus)
    ensures
        count_with_status(tasks, st) == tasks.filter(|x: Task| x.status == st).len(),
    decreases tasks.len(),
{
    reveal(Seq::filter);
    if tasks.len() > 0 {
        law_status_count_is_filter_len(tasks.drop_last(), st);
    }
}

/// The counts that `status` reports: the number of queued, running and
/// completed tasks (failed and cancelled ones count in none of them), and
/// all tasks.
pub proof fn law_status_reports_the_counts(r: StatusResponse, tasks: Seq<Task>, sessions: nat)
    requires
        is_status_of(r, tasks, sessions),
    ensures
        r.queued == tasks.filter(|x: Task| x.status == TaskStatus::Queued).len(),
        r.running == tasks.filter(|x: Task| x.status == TaskStatus::Running).len(),
        r.completed == tasks.filter(|x: Task| x.status == TaskStatus::Completed).len(),
        r.total_tasks == tasks.len(),
        r.active_users == sessions,
        r.beta_user_limit == 4,
{
    law_status_count_is_filter_len(tasks, TaskStatus::Queued);
    law_status_count_is_filter_len(tasks, TaskStatus::Running);
    law_status_count_is_filter_len(tasks, TaskStatus::Completed);
}

/// A task that `cancel_task` cancels at `now` is cancelled and completed
/// at `now`; nothing else about it changes.
pub proof fn law_cancelled_task_is_closed_now(before: Seq<Task>, i: int, now: u128)
    requires
        0 <= i < before.len(),
    ensures
        ({
            let t = cancelled_task(before[i], now);
            let b = before[i];
            &&& t.status == TaskStatus::Cancelled
            &&& t.completed_at_ms == Some(now)
            &&& t.id == b.id && t.user_id == b.user_id && t.file_name == b.file_name && t.quality == b.quality
            &&& t.priority == b.priority && t.payload == b.payload && t.result == b.result
            &&& t.failure_reason == b.failure_reason && t.webhook_url == b.webhook_url
            &&& t.created_at_ms == b.created_at_ms && t.started_at_ms == b.started_at_ms
            &&& t.estimated_completion_ms == b.estimated_completion_ms
        }),
{
}

/// A task that `submit_result` records is failed when the report says it
/// did not succeed and completed otherwise; it keeps the reported result,
/// the trimmed reason (none when blank), and is completed and due at `now`;
/// nothing else about it changes.
pub proof fn law_reported_task_records_the_report(b: Task, t: Task, request: SubmitResultRequest, now: u128)
    requires
        is_finished_task(b, t, request, now),
    ensures
        t.status == (match request.success {
            Some(false) => TaskStatus::Failed,
            _ => TaskStatus::Completed,
        }),
        t.result == Some(request.result),
        request.reason is None ==> t.failure_reason is None,
        request.reason matches Some(why) ==> (trimmed(why@).len() == 0 ==> t.failure_reason is None)
            && (trimmed(why@).len() > 0 ==> opt_view(t.failure_reason) == Some(trimmed(why@))),
        t.completed_at_ms == Some(now),
        t.estimated_completion_ms == Some(now),
        t.id == b.id && t.user_id == b.user_id && t.file_name == b.file_name && t.quality == b.quality,
        t.priority == b.priority && t.payload == b.payload && t.webhook_url == b.webhook_url,
        t.created_at_ms == b.created_at_ms && t.started_at_ms == b.started_at_ms,
{
}

proof fn lemma_without_id_is_filter(queue: Seq<u64>, id: u64)
    ensures
        without_id(queue, id) == queue.filter(|x: u64| x != id),
    decreases queue.len(),
{
    reveal(Seq::filter);
    if queue.len() > 0 {
        lemma_without_id_is_filter(queue.drop_last(), id);
    }
}

/// Cancelling takes exactly the cancelled id out of the queue, keeping
/// every other id, in order.
pub proof fn law_cancel_takes_only_its_id(queue: Seq<u64>, id: u64)
    ensures
        without_id(queue, id) == queue.filter(|x: u64| x != id),
        forall|x: u64| #[trigger] without_id(queue, id).contains(x) <==> queue.contains(x) && x != id,
{
    lemma_without_id_is_filter(queue, id);
    let pred = |x: u64| x != id;
    assert forall|x: u64| #[trigger] without_id(queue, id).contains(x) <==> queue.contains(x) && x != id by {
        if queue.contains(x) && x != id {
            let p = choose|p: int| 0 <= p < queue.len() && queue[p] == x;
            queue.lemma_filter_contains(pred, p);
        }
        if without_id(queue, id).contains(x) {
            queue.lemma_filter_contains_rev(pred, x);
            let w = choose|w: int| 0 <= w < queue.filter(pred).len() && queue.filter(pred)[w] == x;
            queue.lemma_filter_pred(pred, w);
        }
    }
}

/// A user's rate window keeps exactly the request times at or after the
/// cutoff, in order.
pub proof fn law_rate_window_keeps_recent_times(w: Seq<u128>, from: u128)
    ensures
        kept_since(w, from) == w.filter(|x: u128| x >= from),
    decreases w.len(),
{
    reveal(Seq::filter);
    if w.len() > 0 {
        law_rate_window_keeps_recent_times(w.drop_last(), from);
    }
}

/// A task request at `now` is admitted exactly when the user made fewer
/// than 20 admitted requests in the minute up to `now`.
pub proof fn law_rate_admits_twenty_per_minute(windows: Map<Seq<char>, Seq<u128>>, user: Seq<char>, now: u128)
    ensures
        rate_admits(windows, user, now) <==> window_of(windows, user).filter(
            |x: u128| x >= if now >= 60_000 { now - 60_000 } else { 0int },
        ).len() < 20,
{
    law_rate_window_keeps_recent_times(window_of(windows, user), cutoff(now, RATE_WINDOW_MS));
    assert(window_of(windows, user).filter(|x: u128| x >= cutoff(now, RATE_WINDOW_MS)) =~= window_of(windows, user).filter(
        |x: u128| x >= if now >= 60_000 { now - 60_000 } else { 0int },
    ));
}

/// A dashboard session stays live for 30 s after it was last seen.
pub proof fn law_sessions_live_thirty_seconds(sessions: Map<Seq<char>, u128>, now: u128, k: Seq<char>)
    ensures
        live_sessions(sessions, now).dom().contains(k) <==> sessions.dom().contains(k) && sessions[k] + 30_000 >= now,
        live_sessions(sessions, now).dom().contains(k) ==> live_sessions(sessions, now)[k] == sessions[k],
{
}

proof fn lemma_trim_start_at(s: Seq<char>) -> (a: int)
    ensures
        0 <= a <= s.len(),
        trim_start(s) == s.subrange(a, s.len() as int),
        forall|i: int| 0 <= i < a ==> is_white_space(#[trigger] s[i]),
    decreases s.len(),
{
    if s.len() > 0 && is_white_space(s[0]) {
        let a1 = lemma_trim_start_at(s.drop_first());
        assert(s.drop_first().subrange(a1, s.drop_first().len() as int) == s.subrange(a1 + 1, s.len() as int));
        assert forall|i: int| 0 <= i < a1 + 1 implies is_white_space(#[trigger] s[i]) by {
            if i > 0 {
                assert(s[i] == s.drop_first()[i - 1]);
            }
        }
        a1 + 1
    } else {
        assert(s.subrange(0, s.len() as int) == s);
        0
    }
}

proof fn lemma_trim_end_at(s: Seq<char>) -> (b: int)
    ensures
        0 <= b <= s.len(),
        trim_end(s) == s.subrange(0, b),
        forall|i: int| b <= i < s.len() ==> is_white_space(#[trigger] s[i]),
    decreases s.len(),
{
    if s.len() > 0 && is_white_space(s.last()) {
        let b1 = lemma_trim_end_at(s.drop_last());
        assert(s.drop_last().subrange(0, b1) == s.subrange(0, b1));
        assert forall|i: int| b1 <= i < s.len() implies is_white_space(#[trigger] s[i]) by {
            if i < s.len() - 1 {
                assert(s[i] == s.drop_last()[i]);
            }
        }
        b1
    } else {
        assert(s.subrange(0, s.len() as int) == s);
        s.len() as int
    }
}

/// Trimming removes exactly the white space at both ends: what is left is
/// a stretch of the text with only white space before and after it, and it
/// neither begins nor ends with white space.
pub proof fn law_trim_removes_outer_white_space(s: Seq<char>)
    ensures
        exists|a: int, b: int| {
            &&& 0 <= a <= b <= s.len()
            &&& #[trigger] s.subrange(a, b) == trimmed(s)
            &&& forall|i: int| 0 <= i < a ==> is_white_space(#[trigger] s[i])
            &&& forall|i: int| b <= i < s.len() ==> is_white_space(#[trigger] s[i])
        },
        trimmed(s).len() > 0 ==> !is_white_space(trimmed(s)[0]) && !is_white_space(trimmed(s).last()),
{
    let a = lemma_trim_start_at(s);
    let f = trim_start(s);
    let b = lemma_trim_end_at(f);
    crate::text::lemma_trim_start_clean(s);
    crate::text::lemma_trim_end_clean(f);
    assert(trimmed(s) == s.subrange(a, a + b));
    assert forall|i: int| a + b <= i < s.len() implies is_white_space(#[trigger] s[i]) by {
        assert(s[i] == f[i - a]);
    }
    if trimmed(s).len() > 0 {
        assert(trimmed(s)[0] == f[0]);
    }
    assert(s.subrange(a, a + b) == trimmed(s));
}

/// The names under which statuses are stored and filtered: lower-case
/// `queued`, `running`, `completed`, `failed` and `cancelled`.
pub proof fn law_status_names(st: TaskStatus)
    ensures
        status_name(st) == match st {
            TaskStatus::Queued => seq!['q', 'u', 'e', 'u', 'e', 'd'],
            TaskStatus::Running => seq!['r', 'u', 'n', 'n', 'i', 'n', 'g'],
            TaskStatus::Completed => seq!['c', 'o', 'm', 'p', 'l', 'e', 't', 'e', 'd'],
            TaskStatus::Failed => seq!['f', 'a', 'i', 'l', 'e', 'd'],
            TaskStatus::Cancelled => seq!['c', 'a', 'n', 'c', 'e', 'l', 'l', 'e', 'd'],
        },
{
    reveal_strlit("queued");
    reveal_strlit("running");
    reveal_strlit("completed");
    reveal_strlit("failed");
    reveal_strlit("cancelled");
}

/// The names under which priorities are stored: lower-case `high`,
/// `medium` and `low`.
pub proof fn law_priority_names(p: TaskPriority)
    ensures
        priority_name(p) == match p {
            TaskPriority::High => seq!['h', 'i', 'g', 'h'],
            TaskPriority::Medium => seq!['m', 'e', 'd', 'i', 'u', 'm'],
            TaskPriority::Low => seq!['l', 'o', 'w'],
        },
{
    reveal_strlit("high");
    reveal_strlit("medium");
    reveal_strlit("low");
}

/// The listing's filters keep, in their order, exactly the tasks whose
/// status name is the lower-cased status asked for, whose user is the user
/// asked for, and that were created within the time range asked for; a
/// filter that is not given keeps every task.
pub proof fn law_filters_keep_matching_tasks(tasks: Seq<Task>, q: TaskFilterQuery)
    ensures
        filtered(tasks, q) == tasks.filter(
            |t: Task|
                (q.status matches Some(s) ==> status_name(t.status) == crate::text::lowercase_of(s@))
                && (q.user_id matches Some(u) ==> t.user_id@ == u@)
                && (q.from_ms matches Some(f) ==> t.created_at_ms >= f)
                && (q.to_ms matches Some(x) ==> t.created_at_ms <= x),
        ),
    decreases tasks.len(),
{
    reveal(Seq::filter);
    if tasks.len() > 0 {
        law_filters_keep_matching_tasks(tasks.drop_last(), q);
    }
}

} // verus!
