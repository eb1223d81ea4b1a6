//! What holds of the tracker across operations.
use crate::db::{lemma_find_project_none, lemma_find_task_at, lemma_find_task_none};
use crate::order::{is_ordered, lemma_sort_ordered_contains, lemma_sort_ordered_len, lemma_sort_ordered_sorted, strict_total_on};
use crate::records::{LogRow, ProjectRow, SearchHit, TaskRow};
use crate::state::{
    archived_project, edited_project, find_project, find_task, is_listed, listed, log_of, new_log_row,
    new_project_row, new_task_row, project_hit, project_ids_ascending, project_is_live, recency_before,
    task_hit, task_not_of, task_of, toggled_task, touched_project, DbState, log_hit,
    log_not_of, log_id_other_than, task_id_other_than, project_id_other_than, as_project_hit,
};
use crate::text::{contains_pattern, like_matches, text_lt, lemma_text_lt_irreflexive, lemma_text_lt_transitive, lemma_text_lt_total};
use vstd::prelude::*;

verus! {

broadcast use vstd::seq_lib::group_filter_ensures;

// ── Lookups through changes ─────────────────────────────────

/// Rewriting every project with a function that keeps ids rewrites the
/// project found under an id.
pub proof fn lemma_find_project_map(rows: Seq<ProjectRow>, f: spec_fn(ProjectRow) -> ProjectRow, id: i64)
    requires
        forall|p: ProjectRow| #[trigger] f(p).id == p.id,
    ensures
        find_project(rows.map_values(f), id) == match find_project(rows, id) {
            Some(p) => Some(f(p)),
            None => None,
        },
    decreases rows.len(),
{
    if rows.len() > 0 {
        assert(rows.map_values(f).drop_first() =~= rows.drop_first().map_values(f));
        assert(f(rows[0]).id == rows[0].id);
        lemma_find_project_map(rows.drop_first(), f, id);
    }
}

/// Rewriting every task with a function that keeps ids rewrites the task
/// found under an id.
pub proof fn lemma_find_task_map(rows: Seq<TaskRow>, f: spec_fn(TaskRow) -> TaskRow, id: i64)
    requires
        forall|t: TaskRow| #[trigger] f(t).id == t.id,
    ensures
        find_task(rows.map_values(f), id) == match find_task(rows, id) {
            Some(t) => Some(f(t)),
            None => None,
        },
    decreases rows.len(),
{
    if rows.len() > 0 {
        assert(rows.map_values(f).drop_first() =~= rows.drop_first().map_values(f));
        assert(f(rows[0]).id == rows[0].id);
        lemma_find_task_map(rows.drop_first(), f, id);
    }
}

/// Appending a row with an id no row has makes it the one found under it.
pub proof fn lemma_find_project_push(rows: Seq<ProjectRow>, x: ProjectRow)
    requires
        forall|k: int| 0 <= k < rows.len() ==> (#[trigger] rows[k]).id != x.id,
    ensures
        find_project(rows.push(x), x.id) == Some(x),
    decreases rows.len(),
{
    if rows.len() > 0 {
        assert(rows.push(x).drop_first() =~= rows.drop_first().push(x));
        assert(rows.push(x)[0] == rows[0]);
        lemma_find_project_push(rows.drop_first(), x);
    }
}

/// Touching a project leaves which task or project an id names, and every
/// field but the touched project's update time, as they were.
proof fn lemma_touched_project(s: DbState, pid: i64, now: Seq<char>, id: i64)
    ensures
        s.touched(pid, now).project(id) == match s.project(id) {
            Some(p) => Some(touched_project(p, pid, now)),
            None => None,
        },
{
    let f = |p: ProjectRow| touched_project(p, pid, now);
    assert forall|p: ProjectRow| #[trigger] f(p).id == p.id by {}
    lemma_find_project_map(s.projects, f, id);
}

// ── Projects ────────────────────────────────────────────────

/// A project that was just created reads back with the name and goal it
/// was given: active, at no progress, with no current task, created and
/// updated at the time it was created; and its id is new.
pub proof fn law_created_project_reads_back(s: DbState, name: Seq<char>, goal: Seq<char>, now: Seq<char>)
    requires
        s.wf(),
        s.project_seq < i64::MAX,
    ensures
        s.project((s.project_seq + 1) as i64) is None,
        s.with_new_project(name, goal, now).project((s.project_seq + 1) as i64) == Some(
            new_project_row((s.project_seq + 1) as i64, name, goal, now),
        ),
{
    let id = (s.project_seq + 1) as i64;
    assert forall|k: int| 0 <= k < s.projects.len() implies (#[trigger] s.projects[k]).id != id by {
        assert(s.projects[k].id <= s.project_seq);
    }
    lemma_find_project_none(s.projects, id);
    lemma_find_project_push(s.projects, new_project_row(id, name, goal, now));
}

/// A project whose fields were set reads back with those fields, the time
/// of the change as its update time, and its creation time unchanged.
pub proof fn law_edited_project_reads_back(
    s: DbState,
    id: i64,
    name: Seq<char>,
    goal: Seq<char>,
    status: Seq<char>,
    progress: i32,
    current_task: Seq<char>,
    now: Seq<char>,
)
    requires
        s.wf(),
        s.project(id) is Some,
    ensures
        s.with_project_edited(id, name, goal, status, progress, current_task, now).project(id)
            == Some(
            ProjectRow {
                id,
                name,
                goal,
                status,
                progress,
                current_task,
                created_at: s.project(id).unwrap().created_at,
                updated_at: now,
            },
        ),
{
    let f = |p: ProjectRow| edited_project(p, id, name, goal, status, progress, current_task, now);
    assert forall|p: ProjectRow| #[trigger] f(p).id == p.id by {}
    lemma_find_project_map(s.projects, f, id);
    lemma_find_project_none(s.projects, id);
}

/// Listing shows exactly the projects that are not archived, each once,
/// most recently updated first (the older project first among those
/// updated at the same time).
pub proof fn law_listed_projects(s: DbState)
    requires
        s.wf(),
    ensures
        forall|p: ProjectRow| #[trigger] s.listed_projects().contains(p) <==> (s.projects.contains(p) && is_listed(p)),
        forall|p: ProjectRow| #[trigger] s.listed_projects().contains(p) <==> (s.projects.contains(p) && p.status != "archived"@),
        s.listed_projects().len() == s.projects.filter(listed()).len(),
        is_ordered(s.listed_projects(), recency_before()),
        forall|i: int, j: int| 0 <= i < j < s.listed_projects().len() ==> {
            let a = #[trigger] s.listed_projects()[i];
            let b = #[trigger] s.listed_projects()[j];
            text_lt(b.updated_at, a.updated_at) || (a.updated_at == b.updated_at && a.id < b.id)
        },
{
    let f = s.projects.filter(listed());
    assert forall|p: ProjectRow| #[trigger] s.listed_projects().contains(p) <==> (s.projects.contains(p) && is_listed(p)) by {
        lemma_sort_ordered_contains(f, recency_before(), p);
        if s.projects.contains(p) && is_listed(p) {
            let k = choose|k: int| 0 <= k < s.projects.len() && s.projects[k] == p;
            s.projects.lemma_filter_contains(listed(), k);
        }
        if f.contains(p) {
            s.projects.lemma_filter_contains_rev(listed(), p);
            let i = choose|i: int| 0 <= i < f.len() && f[i] == p;
            assert((listed())(f[i]));
        }
    }
    lemma_sort_ordered_len(f, recency_before());
    lemma_filter_projects_distinct(s, listed());
    lemma_recency_strict_total(s, f);
    lemma_sort_ordered_sorted(f, recency_before());
}

/// The full project list holds every project, archived ones too, each
/// once, most recently updated first and, among projects updated at the
/// same time, the older one first.
pub proof fn law_all_projects(s: DbState)
    requires
        s.wf(),
    ensures
        forall|p: ProjectRow| #[trigger] s.all_projects().contains(p) <==> s.projects.contains(p),
        s.all_projects().len() == s.projects.len(),
        forall|i: int, j: int| 0 <= i < j < s.all_projects().len() ==> {
            let a = #[trigger] s.all_projects()[i];
            let b = #[trigger] s.all_projects()[j];
            text_lt(b.updated_at, a.updated_at) || (a.updated_at == b.updated_at && a.id < b.id)
        },
{
    let f = s.projects;
    assert forall|p: ProjectRow| #[trigger] s.all_projects().contains(p) <==> f.contains(p) by {
        lemma_sort_ordered_contains(f, recency_before(), p);
    }
    lemma_sort_ordered_len(f, recency_before());
    assert forall|i: int, j: int| 0 <= i < f.len() && 0 <= j < f.len() && i != j implies f[i] != f[j] by {
        if i < j {
            assert(f[i].id < f[j].id);
        } else {
            assert(f[j].id < f[i].id);
        }
    }
    lemma_recency_strict_total(s, f);
    lemma_sort_ordered_sorted(f, recency_before());
}

/// The projects kept by a filter carry distinct ids, so none occurs twice.
proof fn lemma_filter_projects_distinct(s: DbState, pred: spec_fn(ProjectRow) -> bool)
    requires
        s.wf(),
    ensures
        s.projects.filter(pred).no_duplicates(),
        project_ids_ascending(s.projects.filter(pred)),
{
    crate::tables::lemma_filter_projects_ascending(s.projects, pred);
    let f = s.projects.filter(pred);
    assert forall|i: int, j: int| 0 <= i < f.len() && 0 <= j < f.len() && i != j implies f[i] != f[j] by {
        if i < j {
            assert(f[i].id < f[j].id);
        } else {
            assert(f[j].id < f[i].id);
        }
    }
}

proof fn lemma_recency_strict_total(s: DbState, f: Seq<ProjectRow>)
    requires
        project_ids_ascending(f),
    ensures
        strict_total_on(f, recency_before()),
{
    let b = recency_before();
    assert forall|a: ProjectRow| f.contains(a) implies !b(a, a) by {
        lemma_text_lt_irreflexive(a.updated_at);
    }
    assert forall|x: ProjectRow, y: ProjectRow, z: ProjectRow|
        f.contains(x) && f.contains(y) && f.contains(z) && #[trigger] b(x, y) && #[trigger] b(y, z)
            implies b(x, z) by {
        if text_lt(y.updated_at, x.updated_at) && text_lt(z.updated_at, y.updated_at) {
            lemma_text_lt_transitive(z.updated_at, y.updated_at, x.updated_at);
        }
    }
    assert forall|x: ProjectRow, y: ProjectRow| f.contains(x) && f.contains(y) implies x == y || b(x, y) || b(y, x) by {
        lemma_text_lt_total(x.updated_at, y.updated_at);
        let i = choose|i: int| 0 <= i < f.len() && f[i] == x;
        let j = choose|j: int| 0 <= j < f.len() && f[j] == y;
        if i < j {
            assert(f[i].id < f[j].id);
        } else if j < i {
            assert(f[j].id < f[i].id);
        }
    }
}

/// An archived project no longer shows in the list of projects.
pub proof fn law_archived_project_not_listed(s: DbState, id: i64, now: Seq<char>)
    requires
        s.wf(),
    ensures
        forall|p: ProjectRow| #[trigger] s.with_project_archived(id, now).listed_projects().contains(p) ==> p.id != id,
{
    let t = s.with_project_archived(id, now);
    reveal_strlit("archived");
    assert(t.wf()) by {
        let f = |p: ProjectRow| archived_project(p, id, now);
        assert forall|i: int, j: int| 0 <= i < j < t.projects.len() implies (#[trigger] t.projects[i]).id < (#[trigger] t.projects[j]).id by {
            assert(s.projects[i].id < s.projects[j].id);
        }
        assert forall|i: int| 0 <= i < t.projects.len() implies 1 <= (#[trigger] t.projects[i]).id <= t.project_seq by {
            assert(1 <= s.projects[i].id <= s.project_seq);
        }
        assert forall|i: int| 0 <= i < t.tasks.len() implies crate::state::has_project(t.projects, (#[trigger] t.tasks[i]).project_id) by {
            let k = choose|k: int| 0 <= k < s.projects.len() && (#[trigger] s.projects[k]).id == s.tasks[i].project_id;
            assert(t.projects[k].id == s.projects[k].id);
        }
        assert forall|i: int| 0 <= i < t.logs.len() implies crate::state::has_project(t.projects, (#[trigger] t.logs[i]).project_id) by {
            let k = choose|k: int| 0 <= k < s.projects.len() && (#[trigger] s.projects[k]).id == s.logs[i].project_id;
            assert(t.projects[k].id == s.projects[k].id);
        }
    }
    law_listed_projects(t);
    assert forall|p: ProjectRow| #[trigger] t.listed_projects().contains(p) implies p.id != id by {
        let k = choose|k: int| 0 <= k < t.projects.len() && t.projects[k] == p;
        if p.id == id {
            assert(t.projects[k] == archived_project(s.projects[k], id, now));
            assert(p.status == "archived"@);
        }
    }
}

/// A deleted project is gone, and so are all of its tasks and log entries.
pub proof fn law_deleted_project_is_gone(s: DbState, id: i64)
    requires
        s.wf(),
    ensures
        s.without_project(id).project(id) is None,
        forall|k: int| 0 <= k < s.without_project(id).tasks.len() ==> (#[trigger] s.without_project(id).tasks[k]).project_id != id,
        forall|k: int| 0 <= k < s.without_project(id).logs.len() ==> (#[trigger] s.without_project(id).logs[k]).project_id != id,
        s.without_project(id).project_tasks(id).len() == 0,
        s.without_project(id).project_logs(id).len() == 0,
{
    let t = s.without_project(id);
    assert forall|k: int| 0 <= k < t.projects.len() implies (#[trigger] t.projects[k]).id != id by {
        assert((project_id_other_than(id))(t.projects[k]));
    }
    assert(!crate::state::has_project(t.projects, id));
    lemma_find_project_none(t.projects, id);
    assert forall|k: int| 0 <= k < t.tasks.len() implies (#[trigger] t.tasks[k]).project_id != id by {
        assert((task_not_of(id))(t.tasks[k]));
    }
    assert forall|k: int| 0 <= k < t.logs.len() implies (#[trigger] t.logs[k]).project_id != id by {
        assert((log_not_of(id))(t.logs[k]));
    }
    let ft = t.tasks.filter(task_of(id));
    if ft.len() > 0 {
        assert(ft.contains(ft[0]));
        t.tasks.lemma_filter_contains_rev(task_of(id), ft[0]);
        assert((task_of(id))(ft[0]));
    }
    lemma_sort_ordered_len(ft, crate::state::task_before());
    let fl = t.logs.filter(log_of(id));
    if fl.len() > 0 {
        assert(fl.contains(fl[0]));
        t.logs.lemma_filter_contains_rev(log_of(id), fl[0]);
        assert((log_of(id))(fl[0]));
    }
}

// ── Tasks ───────────────────────────────────────────────────

proof fn lemma_task_order_strict_total(f: Seq<TaskRow>)
    requires
        crate::state::task_ids_ascending(f),
    ensures
        strict_total_on(f, crate::state::task_before()),
{
    let b = crate::state::task_before();
    assert forall|a: TaskRow| f.contains(a) implies !b(a, a) by {
        lemma_text_lt_irreflexive(a.status);
        lemma_text_lt_irreflexive(a.created_at);
    }
    assert forall|x: TaskRow, y: TaskRow, z: TaskRow|
        f.contains(x) && f.contains(y) && f.contains(z) && #[trigger] b(x, y) && #[trigger] b(y, z)
            implies b(x, z) by {
        if text_lt(x.status, y.status) && text_lt(y.status, z.status) {
            lemma_text_lt_transitive(x.status, y.status, z.status);
        }
        if text_lt(x.created_at, y.created_at) && text_lt(y.created_at, z.created_at) {
            lemma_text_lt_transitive(x.created_at, y.created_at, z.created_at);
        }
    }
    assert forall|x: TaskRow, y: TaskRow| f.contains(x) && f.contains(y) implies x == y || b(x, y) || b(y, x) by {
        lemma_text_lt_total(x.status, y.status);
        lemma_text_lt_total(x.created_at, y.created_at);
        let i = choose|i: int| 0 <= i < f.len() && f[i] == x;
        let j = choose|j: int| 0 <= j < f.len() && f[j] == y;
        if i < j {
            assert(f[i].id < f[j].id);
        } else if j < i {
            assert(f[j].id < f[i].id);
        }
    }
}

/// A project's task list holds exactly its tasks, each once, ordered by
/// status, then by creation time, then by id (so done tasks come before
/// those still to do).
pub proof fn law_project_tasks(s: DbState, pid: i64)
    requires
        s.wf(),
    ensures
        forall|t: TaskRow| #[trigger] s.project_tasks(pid).contains(t) <==> (s.tasks.contains(t) && t.project_id == pid),
        s.project_tasks(pid).len() == s.tasks.filter(task_of(pid)).len(),
        is_ordered(s.project_tasks(pid), crate::state::task_before()),
        forall|i: int, j: int| 0 <= i < j < s.project_tasks(pid).len() ==> {
            let a = #[trigger] s.project_tasks(pid)[i];
            let b = #[trigger] s.project_tasks(pid)[j];
            text_lt(a.status, b.status) || (a.status == b.status && (text_lt(a.created_at, b.created_at)
                || (a.created_at == b.created_at && a.id < b.id)))
        },
{
    let f = s.tasks.filter(task_of(pid));
    let b = crate::state::task_before();
    assert forall|t: TaskRow| #[trigger] s.project_tasks(pid).contains(t) <==> (s.tasks.contains(t) && t.project_id == pid) by {
        lemma_sort_ordered_contains(f, b, t);
        if s.tasks.contains(t) && t.project_id == pid {
            let k = choose|k: int| 0 <= k < s.tasks.len() && s.tasks[k] == t;
            s.tasks.lemma_filter_contains(task_of(pid), k);
        }
        if f.contains(t) {
            s.tasks.lemma_filter_contains_rev(task_of(pid), t);
            let i = choose|i: int| 0 <= i < f.len() && f[i] == t;
            assert((task_of(pid))(f[i]));
        }
    }
    lemma_sort_ordered_len(f, b);
    crate::tables::lemma_filter_tasks_ascending(s.tasks, task_of(pid));
    assert forall|i: int, j: int| 0 <= i < f.len() && 0 <= j < f.len() && i != j implies f[i] != f[j] by {
        if i < j {
            assert(f[i].id < f[j].id);
        } else {
            assert(f[j].id < f[i].id);
        }
    }
    lemma_task_order_strict_total(f);
    lemma_sort_ordered_sorted(f, b);
}

/// A task that was just added shows among its project's tasks, still to
/// do, and the project reads as updated at the time it was added.
pub proof fn law_created_task_is_listed(s: DbState, pid: i64, description: Seq<char>, now: Seq<char>)
    requires
        s.wf(),
        s.project(pid) is Some,
        s.task_seq < i64::MAX,
    ensures
        s.with_new_task(pid, description, now).project_tasks(pid).contains(
            new_task_row((s.task_seq + 1) as i64, pid, description, now),
        ),
        s.with_new_task(pid, description, now).project(pid).unwrap().updated_at == now,
{
    let id = (s.task_seq + 1) as i64;
    let x = new_task_row(id, pid, description, now);
    let t = s.with_new_task(pid, description, now);
    let ts = s.tasks.push(x);
    assert(t.tasks == ts);
    ts.lemma_filter_contains(task_of(pid), s.tasks.len() as int);
    assert(ts[s.tasks.len() as int] == x);
    lemma_sort_ordered_contains(ts.filter(task_of(pid)), crate::state::task_before(), x);
    let mid = DbState { tasks: ts, task_seq: id, ..s };
    lemma_touched_project(mid, pid, now, pid);
    lemma_find_project_none(s.projects, pid);
}

/// Toggling a task that is still to do makes it done, and toggling it
/// again makes it still to do: for a task whose status is `todo` or
/// `done`, two toggles give back the tasks as they were.
pub proof fn law_toggle_twice_restores(s: DbState, id: i64, now1: Seq<char>, now2: Seq<char>)
    requires
        s.wf(),
        s.task(id) is Some,
        s.task(id).unwrap().status == "todo"@ || s.task(id).unwrap().status == "done"@,
    ensures
        s.task(id).unwrap().status == "todo"@ ==> s.with_task_toggled(id, now1).task(id).unwrap().status == "done"@,
        s.with_task_toggled(id, now1).task(id) is Some,
        s.with_task_toggled(id, now1).with_task_toggled(id, now2).tasks == s.tasks,
{
    reveal_strlit("todo");
    reveal_strlit("done");
    let f = |t: TaskRow| toggled_task(t, id);
    assert forall|t: TaskRow| #[trigger] f(t).id == t.id by {}
    let t1 = s.with_task_toggled(id, now1);
    lemma_find_task_map(s.tasks, f, id);
    lemma_find_task_map(t1.tasks, f, id);
    lemma_find_task_none(s.tasks, id);
    let once = s.tasks.map_values(f);
    assert(t1.tasks == once);
    assert(once.map_values(f) =~= s.tasks) by {
        assert forall|k: int| 0 <= k < s.tasks.len() implies #[trigger] once.map_values(f)[k] == s.tasks[k] by {
            if s.tasks[k].id == id {
                lemma_find_task_at(s.tasks, k);
            }
        }
    }
}

/// A deleted task is gone.
pub proof fn law_deleted_task_is_gone(s: DbState, id: i64, now: Seq<char>)
    requires
        s.wf(),
        s.task(id) is Some,
    ensures
        s.without_task(id, now).task(id) is None,
{
    let t = s.without_task(id, now);
    assert forall|k: int| 0 <= k < t.tasks.len() implies (#[trigger] t.tasks[k]).id != id by {
        assert((task_id_other_than(id))(t.tasks[k]));
    }
    lemma_find_task_none(t.tasks, id);
}

// ── Logs ────────────────────────────────────────────────────

/// A log entry that was just added is its project's latest, and the
/// project reads as updated at the time it was added.
pub proof fn law_created_log_is_latest(
    s: DbState,
    pid: i64,
    notes: Seq<char>,
    next_action: Seq<char>,
    today: Seq<char>,
    now: Seq<char>,
)
    requires
        s.wf(),
        s.project(pid) is Some,
        s.log_seq < i64::MAX,
    ensures
        s.with_new_log(pid, notes, next_action, today, now).latest_log(pid) == Some(
            new_log_row((s.log_seq + 1) as i64, pid, notes, next_action, today, now),
        ),
        s.with_new_log(pid, notes, next_action, today, now).project(pid).unwrap().updated_at == now,
{
    let id = (s.log_seq + 1) as i64;
    let x = new_log_row(id, pid, notes, next_action, today, now);
    let ls = s.logs.push(x);
    ls.drop_last().lemma_filter_push(x, log_of(pid));
    assert(ls.drop_last() =~= s.logs);
    let f = s.logs.filter(log_of(pid)).push(x);
    assert(f.reverse()[0] == x);
    let mid = DbState { logs: ls, log_seq: id, ..s };
    lemma_touched_project(mid, pid, now, pid);
    lemma_find_project_none(s.projects, pid);
}

/// A deleted log entry no longer shows among any project's entries.
pub proof fn law_deleted_log_is_gone(s: DbState, id: i64, pid: i64)
    requires
        s.wf(),
    ensures
        forall|k: int| 0 <= k < s.without_log(id).project_logs(pid).len() ==> (#[trigger] s.without_log(id).project_logs(pid)[k]).id != id,
{
    let t = s.without_log(id);
    let f = t.logs.filter(log_of(pid));
    assert forall|k: int| 0 <= k < t.project_logs(pid).len() implies (#[trigger] t.project_logs(pid)[k]).id != id by {
        let e = f[f.len() - 1 - k];
        assert(t.project_logs(pid)[k] == e);
        assert(f.contains(e));
        t.logs.lemma_filter_contains_rev(log_of(pid), e);
        let m = choose|m: int| 0 <= m < t.logs.len() && t.logs[m] == e;
        assert((log_id_other_than(id))(t.logs[m]));
    }
}

// ── Search ──────────────────────────────────────────────────

/// A search finds every project that is not archived and whose name
/// contains the query.
pub proof fn law_search_finds_named_project(s: DbState, query: Seq<char>, k: int)
    requires
        s.wf(),
        0 <= k < s.projects.len(),
        is_listed(s.projects[k]),
        like_matches(contains_pattern(query), s.projects[k].name),
    ensures
        s.search_hits(query).contains(SearchHit::ProjectHit(s.projects[k])),
{
    let pat = contains_pattern(query);
    s.projects.lemma_filter_contains(project_hit(pat), k);
    let f = s.projects.filter(project_hit(pat));
    let i = choose|i: int| 0 <= i < f.len() && f[i] == s.projects[k];
    let m = f.map_values(|p: ProjectRow| as_project_hit(p));
    assert(m[i] == SearchHit::ProjectHit(s.projects[k]));
    let all = s.search_hits(query);
    assert(all[i] == m[i]);
}

/// Nothing that a search finds is archived or belongs to an archived
/// project.
pub proof fn law_search_skips_archived(s: DbState, query: Seq<char>)
    requires
        s.wf(),
    ensures
        forall|i: int| 0 <= i < s.search_hits(query).len() ==> match #[trigger] s.search_hits(query)[i] {
            SearchHit::ProjectHit(p) => is_listed(p),
            SearchHit::TaskHit(t) => project_is_live(s.projects, t.project_id),
            SearchHit::LogHit(l) => project_is_live(s.projects, l.project_id),
        },
{
    let pat = contains_pattern(query);
    let fp = s.projects.filter(project_hit(pat));
    let ft = s.tasks.filter(task_hit(pat, s.projects));
    let fl = s.logs.filter(log_hit(pat, s.projects));
    let a = fp.map_values(|p: ProjectRow| as_project_hit(p));
    let b = ft.map_values(|t: TaskRow| crate::state::as_task_hit(t));
    let c = fl.map_values(|l: LogRow| crate::state::as_log_hit(l));
    let all = s.search_hits(query);
    assert(all == a + b + c);
    assert forall|i: int| 0 <= i < all.len() implies match #[trigger] all[i] {
        SearchHit::ProjectHit(p) => is_listed(p),
        SearchHit::TaskHit(t) => project_is_live(s.projects, t.project_id),
        SearchHit::LogHit(l) => project_is_live(s.projects, l.project_id),
    } by {
        if i < a.len() {
            assert((project_hit(pat))(fp[i]));
            assert(all[i] == a[i]);
        } else if i < a.len() + b.len() {
            let j = i - a.len();
            assert((task_hit(pat, s.projects))(ft[j]));
            assert(all[i] == b[j]);
        } else {
            let j = i - a.len() - b.len();
            assert((log_hit(pat, s.projects))(fl[j]));
            assert(all[i] == c[j]);
        }
    }
}

} // verus!
