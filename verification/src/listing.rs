//! Listing tasks: filters, newest-first order, pages, and CSV export.

use vstd::prelude::*;
use crate::models::{Task, TaskFilterQuery, TaskListResponse, TaskPriority, TaskStatus, status_name, status_to_str};
use crate::state::TaskState;
use crate::text::{lowercase_of, to_lowercase, str_eq, decimal, decimal_string, csv_field, escape_csv};

verus! {

/// Whether a task passes the filters of a query: status (compared with the
/// lower-cased filter), user, and creation time bounds.
pub open spec fn task_matches(t: Task, q: TaskFilterQuery) -> bool {
    &&& q.status matches Some(s) ==> status_name(t.status) == lowercase_of(s@)
    &&& q.user_id matches Some(u) ==> t.user_id@ == u@
    &&& q.from_ms matches Some(f) ==> t.created_at_ms >= f
    &&& q.to_ms matches Some(x) ==> t.created_at_ms <= x
}

/// The tasks that pass the query's filters, in their order.
pub open spec fn filtered(tasks: Seq<Task>, q: TaskFilterQuery) -> Seq<Task>
    decreases tasks.len(),
{
    if tasks.len() == 0 {
        seq![]
    } else {
        filtered(tasks.drop_last(), q) + if task_matches(tasks.last(), q) { seq![tasks.last()] } else { seq![] }
    }
}

/// The page a query asks for, 1 at least and by default.
pub open spec fn effective_page(q: TaskFilterQuery) -> nat {
    match q.page {
        Some(p) => if p >= 1 { p as nat } else { 1 },
        None => 1,
    }
}

/// The page size a query asks for: 20 by default, between 1 and 100.
pub open spec fn effective_per_page(q: TaskFilterQuery) -> nat {
    let p: nat = match q.per_page {
        Some(p) => p as nat,
        None => 20,
    };
    if p < 1 { 1 } else if p > 100 { 100 } else { p }
}

/// The items of the page of `per` items that starts at `start`.
pub open spec fn page_items(s: Seq<Task>, start: int, per: int) -> Seq<Task> {
    if start >= s.len() {
        seq![]
    } else if start + per < s.len() {
        s.subrange(start, start + per)
    } else {
        s.subrange(start, s.len() as int)
    }
}

/// The first item index of the page a query asks for.
pub open spec fn page_start(q: TaskFilterQuery) -> int {
    (effective_page(q) - 1) * effective_per_page(q)
}

/// `r` is the page of `tasks` that `q` asks for.
pub open spec fn is_page_of(r: TaskListResponse, tasks: Seq<Task>, q: TaskFilterQuery) -> bool {
    &&& r.total == tasks.len()
    &&& r.page == effective_page(q)
    &&& r.per_page == effective_per_page(q)
    &&& r.items@ == page_items(tasks, page_start(q), effective_per_page(q) as int)
}

fn task_passes(t: &Task, status: &Option<String>, q: &TaskFilterQuery) -> (r: bool)
    requires
        opt_lower(*status, *q),
    ensures
        r == task_matches(*t, *q),
{
    let status_ok = match status {
        Some(s) => str_eq(status_to_str(&t.status), s.as_str()),
        None => true,
    };
    let user_ok = match &q.user_id {
        Some(u) => t.user_id == *u,
        None => true,
    };
    let from_ok = match q.from_ms {
        Some(f) => t.created_at_ms >= f,
        None => true,
    };
    let to_ok = match q.to_ms {
        Some(x) => t.created_at_ms <= x,
        None => true,
    };
    status_ok && user_ok && from_ok && to_ok
}

/// `status` holds the lower-cased status filter of `q`.
pub open spec fn opt_lower(status: Option<String>, q: TaskFilterQuery) -> bool {
    match q.status {
        Some(s) => status matches Some(l) && l@ == lowercase_of(s@),
        None => status is None,
    }
}

/// Keeps the tasks that pass the query's filters, in their order.
pub fn apply_filters(tasks: &mut Vec<Task>, query: &TaskFilterQuery)
    ensures
        final(tasks)@ == filtered(old(tasks)@, *query),
{
    let status: Option<String> = match &query.status {
        Some(s) => Some(to_lowercase(s.as_str())),
        None => None,
    };
    let ghost all = tasks@;
    let mut kept: Vec<Task> = Vec::new();
    let mut i: usize = 0;
    assert(all.take(0) =~= Seq::<Task>::empty());
    while i < tasks.len()
        invariant
            tasks@ == all,
            i <= all.len(),
            opt_lower(status, *query),
            kept@ == filtered(all.take(i as int), *query),
        decreases all.len() - i,
    {
        assert(all.take(i + 1).drop_last() =~= all.take(i as int));
        if task_passes(&tasks[i], &status, query) {
            kept.push(tasks[i].copy());
        }
        assert(kept@ =~= filtered(all.take(i + 1), *query));
        i = i + 1;
    }
    assert(all.take(all.len() as int) =~= all);
    *tasks = kept;
}

/// The page of `tasks` that `query` asks for.
pub fn paginate(tasks: Vec<Task>, query: TaskFilterQuery) -> (r: TaskListResponse)
    requires
        page_start(query) <= usize::MAX,
    ensures
        is_page_of(r, tasks@, query),
{
    let total = tasks.len();
    let requested_page = match query.page {
        Some(p) => p,
        None => 1,
    };
    let page = if requested_page < 1 { 1 } else { requested_page };
    let requested_per_page = match query.per_page {
        Some(p) => p,
        None => 20,
    };
    let at_least_one = if requested_per_page < 1 { 1 } else { requested_per_page };
    let per_page = if at_least_one > 100 { 100 } else { at_least_one };
    let start = (page - 1) * per_page;
    let mut items: Vec<Task> = Vec::new();
    let mut i: usize = start;
    while i < total && i - start < per_page
        invariant
            total == tasks@.len(),
            start <= i,
            i <= total || i == start,
            i - start <= per_page,
            start < total ==> items@ == tasks@.subrange(start as int, i as int),
            start >= total ==> items@.len() == 0,
        decreases total - i,
    {
        items.push(tasks[i].copy());
        assert(items@ =~= tasks@.subrange(start as int, i + 1));
        i = i + 1;
    }
    assert(items@ =~= page_items(tasks@, start as int, per_page as int));
    TaskListResponse { items, total, page, per_page }
}

/// The tasks in reverse order.
fn newest_first(tasks: Vec<Task>) -> (r: Vec<Task>)
    ensures
        r@ == tasks@.reverse(),
{
    let mut out: Vec<Task> = Vec::new();
    let mut i: usize = tasks.len();
    while i > 0
        invariant
            i <= tasks@.len(),
            out@ == tasks@.subrange(i as int, tasks@.len() as int).reverse(),
        decreases i,
    {
        i = i - 1;
        out.push(tasks[i].copy());
        assert(out@ =~= tasks@.subrange(i as int, tasks@.len() as int).reverse());
    }
    assert(tasks@.subrange(0, tasks@.len() as int) =~= tasks@);
    out
}

/// Listing order: newest first, by strictly decreasing id.
pub open spec fn ids_decreasing(s: Seq<Task>) -> bool {
    forall|a: int, b: int| 0 <= a < b < s.len() ==> s[a].id > s[b].id
}

/// The order of a list is kept by filtering: ids still increase.
pub proof fn lemma_filtered_ids_increasing(tasks: Seq<Task>, q: TaskFilterQuery)
    requires
        forall|a: int, b: int| 0 <= a < b < tasks.len() ==> tasks[a].id < tasks[b].id,
    ensures
        forall|a: int, b: int| 0 <= a < b < filtered(tasks, q).len() ==> filtered(tasks, q)[a].id < filtered(tasks, q)[b].id,
        forall|a: int| 0 <= a < filtered(tasks, q).len() ==> tasks.contains(#[trigger] filtered(tasks, q)[a]),
    decreases tasks.len(),
{
    if tasks.len() > 0 {
        let rest = tasks.drop_last();
        lemma_filtered_ids_increasing(rest, q);
        let f = filtered(tasks, q);
        let fr = filtered(rest, q);
        assert forall|a: int| 0 <= a < f.len() implies tasks.contains(#[trigger] f[a]) by {
            if a < fr.len() {
                assert(f[a] == fr[a]);
                let w = choose|w: int| 0 <= w < rest.len() && rest[w] == fr[a];
                assert(tasks[w] == rest[w]);
            } else {
                assert(f[a] == tasks.last());
                assert(tasks[tasks.len() - 1] == tasks.last());
            }
        }
        assert forall|a: int, b: int| 0 <= a < b < f.len() implies f[a].id < f[b].id by {
            if b < fr.len() {
                assert(f[a] == fr[a] && f[b] == fr[b]);
            } else {
                assert(f[a] == fr[a]);
                let w = choose|w: int| 0 <= w < rest.len() && rest[w] == fr[a];
                assert(tasks[w] == rest[w]);
                assert(f[b] == tasks[tasks.len() - 1]);
            }
        }
    }
}

impl TaskState {
    /// The page of tasks that pass `query`'s filters, newest first.
    pub fn list_tasks(&self, query: TaskFilterQuery) -> (r: TaskListResponse)
        requires
            page_start(query) <= usize::MAX,
        ensures
            is_page_of(r, filtered(self.tasks(), query).reverse(), query),
    {
        let mut tasks = self.all_tasks();
        apply_filters(&mut tasks, &query);
        let ordered = newest_first(tasks);
        paginate(ordered, query)
    }

    /// The listed page as CSV: a header line, then one line per task.
    pub fn export_tasks_csv(&self, query: TaskFilterQuery) -> (r: String)
        requires
            page_start(query) <= usize::MAX,
        ensures
            r@ == csv_header() + csv_body(
                page_items(filtered(self.tasks(), query).reverse(), page_start(query), effective_per_page(query) as int),
            ),
    {
        let list = self.list_tasks(query);
        tasks_csv(&list.items)
    }
}

/// Whether an export asks for CSV rather than JSON.
pub fn export_format_is_csv(format: &Option<String>) -> (r: bool)
    ensures
        r == (*format matches Some(f) && f@ == "csv"@),
{
    match format {
        Some(f) => str_eq(f.as_str(), "csv"),
        None => false,
    }
}

/// The debug name of a priority.
pub open spec fn priority_label(p: TaskPriority) -> Seq<char> {
    match p {
        TaskPriority::High => "High"@,
        TaskPriority::Medium => "Medium"@,
        TaskPriority::Low => "Low"@,
    }
}

/// The debug name of a status.
pub open spec fn status_label(s: TaskStatus) -> Seq<char> {
    match s {
        TaskStatus::Queued => "Queued"@,
        TaskStatus::Running => "Running"@,
        TaskStatus::Completed => "Completed"@,
        TaskStatus::Failed => "Failed"@,
        TaskStatus::Cancelled => "Cancelled"@,
    }
}

fn priority_debug(p: &TaskPriority) -> (r: &'static str)
    ensures
        r@ == priority_label(*p),
{
    match p {
        TaskPriority::High => "High",
        TaskPriority::Medium => "Medium",
        TaskPriority::Low => "Low",
    }
}

fn status_debug(s: &TaskStatus) -> (r: &'static str)
    ensures
        r@ == status_label(*s),
{
    match s {
        TaskStatus::Queued => "Queued",
        TaskStatus::Running => "Running",
        TaskStatus::Completed => "Completed",
        TaskStatus::Failed => "Failed",
        TaskStatus::Cancelled => "Cancelled",
    }
}

/// The CSV header line.
pub open spec fn csv_header() -> Seq<char> {
    "id,user_id,file_name,quality,priority,status,created_at_ms,started_at_ms,completed_at_ms,failure_reason\n"@
}

/// A millisecond count that may be missing, as a number (0 when missing).
pub open spec fn ms_or_zero(v: Option<u128>) -> nat {
    match v {
        Some(x) => x as nat,
        None => 0,
    }
}

/// The failure reason of a task, empty when there is none.
pub open spec fn reason_text(t: Task) -> Seq<char> {
    match t.failure_reason {
        Some(r) => r@,
        None => seq![],
    }
}

/// The CSV line of one task.
pub open spec fn csv_line(t: Task) -> Seq<char> {
    decimal(t.id as nat) + ","@ + csv_field(t.user_id@) + ","@ + csv_field(t.file_name@) + ","@
        + csv_field(t.quality@) + ","@ + priority_label(t.priority) + ","@ + status_label(t.status) + ","@
        + decimal(t.created_at_ms as nat) + ","@ + decimal(ms_or_zero(t.started_at_ms)) + ","@
        + decimal(ms_or_zero(t.completed_at_ms)) + ","@ + csv_field(reason_text(t)) + "\n"@
}

/// The CSV lines of the tasks, in order.
pub open spec fn csv_body(items: Seq<Task>) -> Seq<char>
    decreases items.len(),
{
    if items.len() == 0 {
        seq![]
    } else {
        csv_body(items.drop_last()) + csv_line(items.last())
    }
}

fn csv_line_of(t: &Task) -> (r: String)
    ensures
        r@ == csv_line(*t),
{
    let mut out = decimal_string(t.id as u128);
    out.append(",");
    out.append(escape_csv(t.user_id.as_str()).as_str());
    out.append(",");
    out.append(escape_csv(t.file_name.as_str()).as_str());
    out.append(",");
    out.append(escape_csv(t.quality.as_str()).as_str());
    out.append(",");
    out.append(priority_debug(&t.priority));
    out.append(",");
    out.append(status_debug(&t.status));
    out.append(",");
    out.append(decimal_string(t.created_at_ms).as_str());
    out.append(",");
    let started = match t.started_at_ms {
        Some(x) => x,
        None => 0,
    };
    out.append(decimal_string(started).as_str());
    out.append(",");
    let completed = match t.completed_at_ms {
        Some(x) => x,
        None => 0,
    };
    out.append(decimal_string(completed).as_str());
    out.append(",");
    let reason = match &t.failure_reason {
        Some(r) => escape_csv(r.as_str()),
        None => escape_csv(""),
    };
    proof {
        reveal_strlit("");
    }
    out.append(reason.as_str());
    out.append("\n");
    out
}

/// The CSV text of a list of tasks: the header, then a line per task.
pub fn tasks_csv(items: &Vec<Task>) -> (r: String)
    ensures
        r@ == csv_header() + csv_body(items@),
{
    let mut csv = "id,user_id,file_name,quality,priority,status,created_at_ms,started_at_ms,completed_at_ms,failure_reason\n".to_owned();
    let mut i: usize = 0;
    assert(items@.take(0) =~= Seq::<Task>::empty());
    while i < items.len()
        invariant
            i <= items@.len(),
            csv@ == csv_header() + csv_body(items@.take(i as int)),
        decreases items@.len() - i,
    {
        let line = csv_line_of(&items[i]);
        let ghost before = csv@;
        csv.append(line.as_str());
        assert(items@.take(i + 1).drop_last() =~= items@.take(i as int));
        assert(csv@ =~= csv_header() + csv_body(items@.take(i + 1)));
        i = i + 1;
    }
    assert(items@.take(items@.len() as int) =~= items@);
    csv
}

} // verus!
