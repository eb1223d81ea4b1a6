//! What each change leaves alone, what each lookup finds, and what a
//! search finds, stated directly over the tables.
use crate::records::{LogRow, ProjectRow, SearchHit, TaskRow};
use crate::state::{
    as_log_hit, as_project_hit, as_task_hit, log_hit, log_id_other_than, log_not_of, log_of,
    project_hit, project_id_other_than, task_hit, task_id_other_than, task_not_of, DbState,
};
use crate::text::{contains_pattern, free_of_wildcards, law_contains_pattern_is_occurrence, like_matches, occurs_folded};
use vstd::prelude::*;

verus! {

broadcast use vstd::seq_lib::group_filter_ensures;

// ── Lookups ─────────────────────────────────────────────────

/// Looking up a project finds the project with that id when there is one,
/// and nothing when no project has it.
pub proof fn law_project_lookup(s: DbState, id: i64)
    requires
        s.wf(),
    ensures
        s.project(id) is None <==> forall|k: int| 0 <= k < s.projects.len() ==> (#[trigger] s.projects[k]).id != id,
        forall|k: int| 0 <= k < s.projects.len() && (#[trigger] s.projects[k]).id == id ==> s.project(id) == Some(s.projects[k]),
{
    crate::db::lemma_find_project_none(s.projects, id);
    assert forall|k: int| 0 <= k < s.projects.len() && (#[trigger] s.projects[k]).id == id implies s.project(id) == Some(s.projects[k]) by {
        crate::db::lemma_find_project_at(s.projects, k);
    }
}

/// Looking up a task finds the task with that id when there is one, and
/// nothing when no task has it.
pub proof fn law_task_lookup(s: DbState, id: i64)
    requires
        s.wf(),
    ensures
        s.task(id) is None <==> forall|k: int| 0 <= k < s.tasks.len() ==> (#[trigger] s.tasks[k]).id != id,
        forall|k: int| 0 <= k < s.tasks.len() && (#[trigger] s.tasks[k]).id == id ==> s.task(id) == Some(s.tasks[k]),
{
    crate::db::lemma_find_task_none(s.tasks, id);
    assert forall|k: int| 0 <= k < s.tasks.len() && (#[trigger] s.tasks[k]).id == id implies s.task(id) == Some(s.tasks[k]) by {
        crate::db::lemma_find_task_at(s.tasks, k);
    }
}

/// A project's log list holds exactly its log entries, newest (largest id)
/// first; its latest entry is the one with the largest id, and there is
/// none exactly when the project has no entry.
pub proof fn law_project_logs(s: DbState, pid: i64)
    requires
        s.wf(),
    ensures
        forall|l: LogRow| #[trigger] s.project_logs(pid).contains(l) <==> (s.logs.contains(l) && l.project_id == pid),
        forall|i: int, j: int| 0 <= i < j < s.project_logs(pid).len() ==> (#[trigger] s.project_logs(pid)[i]).id > (#[trigger] s.project_logs(pid)[j]).id,
        s.latest_log(pid) is None <==> forall|k: int| 0 <= k < s.logs.len() ==> (#[trigger] s.logs[k]).project_id != pid,
        s.latest_log(pid) matches Some(l) ==> {
            &&& s.logs.contains(l)
            &&& l.project_id == pid
            &&& forall|k: int| 0 <= k < s.logs.len() && (#[trigger] s.logs[k]).project_id == pid ==> s.logs[k].id <= l.id
        },
{
    let f = s.logs.filter(log_of(pid));
    let r = s.project_logs(pid);
    crate::tables::lemma_filter_logs_ascending(s.logs, log_of(pid));
    assert forall|l: LogRow| #[trigger] r.contains(l) <==> (s.logs.contains(l) && l.project_id == pid) by {
        if r.contains(l) {
            let i = choose|i: int| 0 <= i < r.len() && r[i] == l;
            assert(r[i] == f[f.len() - 1 - i]);
            assert(f.contains(f[f.len() - 1 - i]));
            s.logs.lemma_filter_contains_rev(log_of(pid), l);
            assert((log_of(pid))(f[f.len() - 1 - i]));
        }
        if s.logs.contains(l) && l.project_id == pid {
            let k = choose|k: int| 0 <= k < s.logs.len() && s.logs[k] == l;
            s.logs.lemma_filter_contains(log_of(pid), k);
            let i = choose|i: int| 0 <= i < f.len() && f[i] == l;
            assert(r[f.len() - 1 - i] == f[i]);
        }
    }
    assert forall|i: int, j: int| 0 <= i < j < r.len() implies (#[trigger] r[i]).id > (#[trigger] r[j]).id by {
        assert(r[i] == f[f.len() - 1 - i]);
        assert(r[j] == f[f.len() - 1 - j]);
    }
    if f.len() == 0 {
        assert forall|k: int| 0 <= k < s.logs.len() implies (#[trigger] s.logs[k]).project_id != pid by {
            if s.logs[k].project_id == pid {
                s.logs.lemma_filter_contains(log_of(pid), k);
            }
        }
    } else {
        let l = r[0];
        assert(r.contains(l));
        assert(l == f[f.len() - 1]);
        assert((log_of(pid))(f[f.len() - 1]));
        assert(exists|k: int| 0 <= k < s.logs.len() && (#[trigger] s.logs[k]).project_id == pid) by {
            assert(f.contains(l));
            s.logs.lemma_filter_contains_rev(log_of(pid), l);
            let k = choose|k: int| 0 <= k < s.logs.len() && s.logs[k] == l;
            assert(s.logs[k].project_id == pid);
        }
        assert forall|k: int| 0 <= k < s.logs.len() && (#[trigger] s.logs[k]).project_id == pid implies s.logs[k].id <= l.id by {
            s.logs.lemma_filter_contains(log_of(pid), k);
            let i = choose|i: int| 0 <= i < f.len() && f[i] == s.logs[k];
            if i < f.len() - 1 {
                assert(f[i].id < f[f.len() - 1].id);
            }
        }
    }
}

// ── What changes leave alone ────────────────────────────────

/// Creating a project appends exactly one project, with the next id,
/// active, at no progress, with no current task, created and updated now,
/// and leaves every project, task and log entry there was as it was.
pub proof fn law_create_project_scope(s: DbState, name: Seq<char>, goal: Seq<char>, now: Seq<char>)
    requires
        s.wf(),
        s.project_seq < i64::MAX,
    ensures
        s.with_new_project(name, goal, now).projects.len() == s.projects.len() + 1,
        forall|k: int| 0 <= k < s.projects.len() ==> #[trigger] s.with_new_project(name, goal, now).projects[k] == s.projects[k],
        s.with_new_project(name, goal, now).projects.last() == (ProjectRow {
            id: (s.project_seq + 1) as i64,
            name,
            goal,
            status: "active"@,
            progress: 0,
            current_task: Seq::empty(),
            created_at: now,
            updated_at: now,
        }),
        s.with_new_project(name, goal, now).tasks == s.tasks,
        s.with_new_project(name, goal, now).logs == s.logs,
{
}

/// Editing project `id` changes that project only: the table keeps its
/// length and order, every project with another id is as it was, and so
/// are all tasks and log entries.
pub proof fn law_edit_project_scope(
    s: DbState,
    id: i64,
    name: Seq<char>,
    goal: Seq<char>,
    status: Seq<char>,
    progress: i32,
    current_task: Seq<char>,
    now: Seq<char>,
)
    requires
        s.wf(),
    ensures
        s.with_project_edited(id, name, goal, status, progress, current_task, now).projects.len() == s.projects.len(),
        forall|k: int|
            0 <= k < s.projects.len() && (#[trigger] s.projects[k]).id != id ==> s.with_project_edited(
                id,
                name,
                goal,
                status,
                progress,
                current_task,
                now,
            ).projects[k] == s.projects[k],
        forall|q: i64| q != id ==> #[trigger] s.with_project_edited(id, name, goal, status, progress, current_task, now).project(q) == s.project(q),
        s.with_project_edited(id, name, goal, status, progress, current_task, now).tasks == s.tasks,
        s.with_project_edited(id, name, goal, status, progress, current_task, now).logs == s.logs,
{
    let t = s.with_project_edited(id, name, goal, status, progress, current_task, now);
    let f = |p: ProjectRow| crate::state::edited_project(p, id, name, goal, status, progress, current_task, now);
    assert forall|p: ProjectRow| #[trigger] f(p).id == p.id by {}
    assert forall|q: i64| q != id implies #[trigger] t.project(q) == s.project(q) by {
        crate::laws::lemma_find_project_map(s.projects, f, q);
        crate::db::lemma_find_project_none(s.projects, q);
    }
}

/// Archiving project `id` marks it archived and updated now, keeping its
/// other fields, and leaves every other project, task and log entry as it
/// was.
pub proof fn law_archive_project_scope(s: DbState, id: i64, now: Seq<char>)
    requires
        s.wf(),
    ensures
        s.with_project_archived(id, now).projects.len() == s.projects.len(),
        forall|k: int|
            0 <= k < s.projects.len() && (#[trigger] s.projects[k]).id != id ==> s.with_project_archived(id, now).projects[k] == s.projects[k],
        forall|k: int|
            0 <= k < s.projects.len() && (#[trigger] s.projects[k]).id == id ==> s.with_project_archived(id, now).projects[k] == (ProjectRow {
                status: "archived"@,
                updated_at: now,
                ..s.projects[k]
            }),
        s.with_project_archived(id, now).tasks == s.tasks,
        s.with_project_archived(id, now).logs == s.logs,
{
}

/// Deleting project `id` keeps every other project, every task and log
/// entry of other projects, and nothing of project `id`.
pub proof fn law_delete_project_scope(s: DbState, id: i64)
    requires
        s.wf(),
    ensures
        forall|k: int| 0 <= k < s.projects.len() && (#[trigger] s.projects[k]).id != id ==> s.without_project(id).projects.contains(s.projects[k]),
        forall|k: int| 0 <= k < s.tasks.len() && (#[trigger] s.tasks[k]).project_id != id ==> s.without_project(id).tasks.contains(s.tasks[k]),
        forall|k: int| 0 <= k < s.logs.len() && (#[trigger] s.logs[k]).project_id != id ==> s.without_project(id).logs.contains(s.logs[k]),
        forall|p: ProjectRow| #[trigger] s.without_project(id).projects.contains(p) ==> s.projects.contains(p) && p.id != id,
        forall|t: TaskRow| #[trigger] s.without_project(id).tasks.contains(t) ==> s.tasks.contains(t) && t.project_id != id,
        forall|l: LogRow| #[trigger] s.without_project(id).logs.contains(l) ==> s.logs.contains(l) && l.project_id != id,
        forall|q: i64| q != id ==> #[trigger] s.without_project(id).project(q) == s.project(q),
{
    let t = s.without_project(id);
    assert forall|k: int| 0 <= k < s.projects.len() && (#[trigger] s.projects[k]).id != id implies t.projects.contains(s.projects[k]) by {
        s.projects.lemma_filter_contains(project_id_other_than(id), k);
    }
    assert forall|k: int| 0 <= k < s.tasks.len() && (#[trigger] s.tasks[k]).project_id != id implies t.tasks.contains(s.tasks[k]) by {
        s.tasks.lemma_filter_contains(task_not_of(id), k);
    }
    assert forall|k: int| 0 <= k < s.logs.len() && (#[trigger] s.logs[k]).project_id != id implies t.logs.contains(s.logs[k]) by {
        s.logs.lemma_filter_contains(log_not_of(id), k);
    }
    assert forall|p: ProjectRow| #[trigger] t.projects.contains(p) implies s.projects.contains(p) && p.id != id by {
        s.projects.lemma_filter_contains_rev(project_id_other_than(id), p);
        let i = choose|i: int| 0 <= i < t.projects.len() && t.projects[i] == p;
        assert((project_id_other_than(id))(t.projects[i]));
    }
    assert forall|x: TaskRow| #[trigger] t.tasks.contains(x) implies s.tasks.contains(x) && x.project_id != id by {
        s.tasks.lemma_filter_contains_rev(task_not_of(id), x);
        let i = choose|i: int| 0 <= i < t.tasks.len() && t.tasks[i] == x;
        assert((task_not_of(id))(t.tasks[i]));
    }
    assert forall|x: LogRow| #[trigger] t.logs.contains(x) implies s.logs.contains(x) && x.project_id != id by {
        s.logs.lemma_filter_contains_rev(log_not_of(id), x);
        let i = choose|i: int| 0 <= i < t.logs.len() && t.logs[i] == x;
        assert((log_not_of(id))(t.logs[i]));
    }
    crate::invariants::lemma_without_project_wf(s, id);
    assert forall|q: i64| q != id implies #[trigger] t.project(q) == s.project(q) by {
        law_project_lookup(s, q);
        law_project_lookup(t, q);
        if s.project(q) is Some {
            let k = choose|k: int| 0 <= k < s.projects.len() && (#[trigger] s.projects[k]).id == q;
            assert(t.projects.contains(s.projects[k]));
            let m = choose|m: int| 0 <= m < t.projects.len() && t.projects[m] == s.projects[k];
            assert(t.projects[m].id == q);
        } else {
            if t.project(q) is Some {
                let m = choose|m: int| 0 <= m < t.projects.len() && (#[trigger] t.projects[m]).id == q;
                assert(t.projects.contains(t.projects[m]));
                let k = choose|k: int| 0 <= k < s.projects.len() && s.projects[k] == t.projects[m];
                assert(s.projects[k].id == q);
            }
        }
    }
}

/// Adding a task appends exactly one task, with the next id, still to do
/// and created now, to project `pid`, leaves every task and log entry
/// there was as it was, and of the projects changes only the update time
/// of project `pid`.
pub proof fn law_create_task_scope(s: DbState, pid: i64, description: Seq<char>, now: Seq<char>)
    requires
        s.wf(),
        s.task_seq < i64::MAX,
    ensures
        s.with_new_task(pid, description, now).tasks.len() == s.tasks.len() + 1,
        forall|k: int| 0 <= k < s.tasks.len() ==> #[trigger] s.with_new_task(pid, description, now).tasks[k] == s.tasks[k],
        s.with_new_task(pid, description, now).tasks.last() == (TaskRow {
            id: (s.task_seq + 1) as i64,
            project_id: pid,
            description,
            status: "todo"@,
            created_at: now,
        }),
        s.with_new_task(pid, description, now).logs == s.logs,
        s.with_new_task(pid, description, now).projects.len() == s.projects.len(),
        forall|k: int| 0 <= k < s.projects.len() ==> #[trigger] s.with_new_task(pid, description, now).projects[k] == if s.projects[k].id == pid {
            ProjectRow { updated_at: now, ..s.projects[k] }
        } else {
            s.projects[k]
        },
{
}

/// Adding a log entry appends exactly one entry, with the next id, to
/// project `pid`, leaves every task and log entry there was as it was, and
/// of the projects changes only the update time of project `pid`.
pub proof fn law_create_log_scope(
    s: DbState,
    pid: i64,
    notes: Seq<char>,
    next_action: Seq<char>,
    today: Seq<char>,
    now: Seq<char>,
)
    requires
        s.wf(),
        s.log_seq < i64::MAX,
    ensures
        s.with_new_log(pid, notes, next_action, today, now).logs.len() == s.logs.len() + 1,
        forall|k: int| 0 <= k < s.logs.len() ==> #[trigger] s.with_new_log(pid, notes, next_action, today, now).logs[k] == s.logs[k],
        s.with_new_log(pid, notes, next_action, today, now).logs.last() == (LogRow {
            id: (s.log_seq + 1) as i64,
            project_id: pid,
            date: today,
            notes,
            next_action,
            created_at: now,
        }),
        s.with_new_log(pid, notes, next_action, today, now).tasks == s.tasks,
        s.with_new_log(pid, notes, next_action, today, now).projects.len() == s.projects.len(),
        forall|k: int| 0 <= k < s.projects.len() ==> #[trigger] s.with_new_log(pid, notes, next_action, today, now).projects[k] == if s.projects[k].id == pid {
            ProjectRow { updated_at: now, ..s.projects[k] }
        } else {
            s.projects[k]
        },
{
}

/// Toggling task `id` changes that task's status only (`todo` becomes
/// `done`, anything else `todo`), leaves every other task and all log
/// entries as they were, and of the projects changes only the update time
/// of the task's project.
pub proof fn law_toggle_task_scope(s: DbState, id: i64, now: Seq<char>)
    requires
        s.wf(),
        s.task(id) is Some,
    ensures
        s.with_task_toggled(id, now).tasks.len() == s.tasks.len(),
        forall|k: int| 0 <= k < s.tasks.len() && (#[trigger] s.tasks[k]).id != id ==> s.with_task_toggled(id, now).tasks[k] == s.tasks[k],
        forall|k: int| 0 <= k < s.tasks.len() && (#[trigger] s.tasks[k]).id == id ==> s.with_task_toggled(id, now).tasks[k] == (TaskRow {
            status: if s.tasks[k].status == "todo"@ { "done"@ } else { "todo"@ },
            ..s.tasks[k]
        }),
        s.with_task_toggled(id, now).logs == s.logs,
        s.with_task_toggled(id, now).projects.len() == s.projects.len(),
        forall|k: int| 0 <= k < s.projects.len() ==> #[trigger] s.with_task_toggled(id, now).projects[k] == if s.projects[k].id == s.task(id).unwrap().project_id {
            ProjectRow { updated_at: now, ..s.projects[k] }
        } else {
            s.projects[k]
        },
{
}

/// Deleting task `id` keeps every other task, takes that one away, leaves
/// the log entries as they were, and of the projects changes only the
/// update time of the task's project.
pub proof fn law_delete_task_scope(s: DbState, id: i64, now: Seq<char>)
    requires
        s.wf(),
        s.task(id) is Some,
    ensures
        forall|k: int| 0 <= k < s.tasks.len() && (#[trigger] s.tasks[k]).id != id ==> s.without_task(id, now).tasks.contains(s.tasks[k]),
        forall|t: TaskRow| #[trigger] s.without_task(id, now).tasks.contains(t) ==> s.tasks.contains(t) && t.id != id,
        s.without_task(id, now).tasks.len() == s.tasks.len() - 1,
        s.without_task(id, now).logs == s.logs,
        s.without_task(id, now).projects.len() == s.projects.len(),
        forall|k: int| 0 <= k < s.projects.len() ==> #[trigger] s.without_task(id, now).projects[k] == if s.projects[k].id == s.task(id).unwrap().project_id {
            ProjectRow { updated_at: now, ..s.projects[k] }
        } else {
            s.projects[k]
        },
{
    let t = s.without_task(id, now);
    let f = s.tasks.filter(task_id_other_than(id));
    assert(t.tasks == f);
    assert forall|k: int| 0 <= k < s.tasks.len() && (#[trigger] s.tasks[k]).id != id implies f.contains(s.tasks[k]) by {
        s.tasks.lemma_filter_contains(task_id_other_than(id), k);
    }
    assert forall|x: TaskRow| #[trigger] f.contains(x) implies s.tasks.contains(x) && x.id != id by {
        s.tasks.lemma_filter_contains_rev(task_id_other_than(id), x);
        let i = choose|i: int| 0 <= i < f.len() && f[i] == x;
        assert((task_id_other_than(id))(f[i]));
    }
    law_task_lookup(s, id);
    let m = choose|m: int| 0 <= m < s.tasks.len() && (#[trigger] s.tasks[m]).id == id;
    lemma_filter_drops_one_task(s.tasks, id, m);
}

proof fn lemma_filter_drops_one_task(rows: Seq<TaskRow>, id: i64, m: int)
    requires
        crate::state::task_ids_ascending(rows),
        0 <= m < rows.len(),
        rows[m].id == id,
    ensures
        rows.filter(task_id_other_than(id)).len() == rows.len() - 1,
    decreases rows.len(),
{
    reveal(Seq::filter);
    let rest = rows.drop_last();
    if m == rows.len() - 1 {
        assert forall|k: int| 0 <= k < rest.len() implies (#[trigger] rest[k]).id != id by {
            assert(rows[k].id < rows[m].id);
        }
        lemma_filter_keeps_all_tasks(rest, id);
    } else {
        assert(rows.last().id != id) by {
            assert(rows[m].id < rows[rows.len() - 1].id);
        }
        lemma_filter_drops_one_task(rest, id, m);
    }
}

proof fn lemma_filter_keeps_all_tasks(rows: Seq<TaskRow>, id: i64)
    requires
        forall|k: int| 0 <= k < rows.len() ==> (#[trigger] rows[k]).id != id,
    ensures
        rows.filter(task_id_other_than(id)).len() == rows.len(),
    decreases rows.len(),
{
    reveal(Seq::filter);
    if rows.len() > 0 {
        lemma_filter_keeps_all_tasks(rows.drop_last(), id);
        assert(rows.last() == rows[rows.len() - 1]);
    }
}

/// Deleting log entry `id` keeps every other log entry, takes that one
/// away, and leaves projects and tasks as they were.
pub proof fn law_delete_log_scope(s: DbState, id: i64)
    requires
        s.wf(),
    ensures
        forall|k: int| 0 <= k < s.logs.len() && (#[trigger] s.logs[k]).id != id ==> s.without_log(id).logs.contains(s.logs[k]),
        forall|l: LogRow| #[trigger] s.without_log(id).logs.contains(l) ==> s.logs.contains(l) && l.id != id,
        s.without_log(id).projects == s.projects,
        s.without_log(id).tasks == s.tasks,
{
    let f = s.logs.filter(log_id_other_than(id));
    assert forall|k: int| 0 <= k < s.logs.len() && (#[trigger] s.logs[k]).id != id implies f.contains(s.logs[k]) by {
        s.logs.lemma_filter_contains(log_id_other_than(id), k);
    }
    assert forall|x: LogRow| #[trigger] f.contains(x) implies s.logs.contains(x) && x.id != id by {
        s.logs.lemma_filter_contains_rev(log_id_other_than(id), x);
        let i = choose|i: int| 0 <= i < f.len() && f[i] == x;
        assert((log_id_other_than(id))(f[i]));
    }
}

// ── Search ──────────────────────────────────────────────────

/// A search finds every task whose description contains the query and
/// whose project exists and is not archived, whatever the task's status.
pub proof fn law_search_finds_task(s: DbState, query: Seq<char>, k: int, m: int)
    requires
        s.wf(),
        0 <= k < s.tasks.len(),
        0 <= m < s.projects.len(),
        s.projects[m].id == s.tasks[k].project_id,
        s.projects[m].status != "archived"@,
        like_matches(contains_pattern(query), s.tasks[k].description),
    ensures
        s.search_hits(query).contains(SearchHit::TaskHit(s.tasks[k])),
{
    let pat = contains_pattern(query);
    assert((task_hit(pat, s.projects))(s.tasks[k]));
    s.tasks.lemma_filter_contains(task_hit(pat, s.projects), k);
    let f = s.tasks.filter(task_hit(pat, s.projects));
    let i = choose|i: int| 0 <= i < f.len() && f[i] == s.tasks[k];
    let a = crate::state::project_hits(s.projects, pat);
    let b = f.map_values(|t: TaskRow| as_task_hit(t));
    assert(b[i] == SearchHit::TaskHit(s.tasks[k]));
    let all = s.search_hits(query);
    assert(all[a.len() + i] == b[i]);
}

/// A search finds every log entry whose notes or next action contain the
/// query and whose project exists and is not archived.
pub proof fn law_search_finds_log(s: DbState, query: Seq<char>, k: int, m: int)
    requires
        s.wf(),
        0 <= k < s.logs.len(),
        0 <= m < s.projects.len(),
        s.projects[m].id == s.logs[k].project_id,
        s.projects[m].status != "archived"@,
        like_matches(contains_pattern(query), s.logs[k].notes) || like_matches(
            contains_pattern(query),
            s.logs[k].next_action,
        ),
    ensures
        s.search_hits(query).contains(SearchHit::LogHit(s.logs[k])),
{
    let pat = contains_pattern(query);
    assert((log_hit(pat, s.projects))(s.logs[k]));
    s.logs.lemma_filter_contains(log_hit(pat, s.projects), k);
    let f = s.logs.filter(log_hit(pat, s.projects));
    let i = choose|i: int| 0 <= i < f.len() && f[i] == s.logs[k];
    let a = crate::state::project_hits(s.projects, pat);
    let b = crate::state::task_hits(s.tasks, pat, s.projects);
    let c = f.map_values(|l: LogRow| as_log_hit(l));
    assert(c[i] == SearchHit::LogHit(s.logs[k]));
    let all = s.search_hits(query);
    assert(all[a.len() + b.len() + i] == c[i]);
}

/// A search finds every project that is not archived and whose name or
/// goal contains the query.
pub proof fn law_search_finds_project(s: DbState, query: Seq<char>, k: int)
    requires
        s.wf(),
        0 <= k < s.projects.len(),
        s.projects[k].status != "archived"@,
        like_matches(contains_pattern(query), s.projects[k].name) || like_matches(
            contains_pattern(query),
            s.projects[k].goal,
        ),
    ensures
        s.search_hits(query).contains(SearchHit::ProjectHit(s.projects[k])),
{
    let pat = contains_pattern(query);
    assert((project_hit(pat))(s.projects[k]));
    s.projects.lemma_filter_contains(project_hit(pat), k);
    let f = s.projects.filter(project_hit(pat));
    let i = choose|i: int| 0 <= i < f.len() && f[i] == s.projects[k];
    let a = f.map_values(|p: ProjectRow| as_project_hit(p));
    assert(a[i] == SearchHit::ProjectHit(s.projects[k]));
    let all = s.search_hits(query);
    assert(all[i] == a[i]);
}

/// Everything a search finds is a row of the store that matches the query
/// and that is not, and does not belong to, an archived project.
pub proof fn law_search_hits_match(s: DbState, query: Seq<char>)
    requires
        s.wf(),
    ensures
        forall|i: int| 0 <= i < s.search_hits(query).len() ==> match #[trigger] s.search_hits(query)[i] {
            SearchHit::ProjectHit(p) => {
                &&& s.projects.contains(p)
                &&& p.status != "archived"@
                &&& like_matches(contains_pattern(query), p.name) || like_matches(contains_pattern(query), p.goal)
            },
            SearchHit::TaskHit(t) => {
                &&& s.tasks.contains(t)
                &&& like_matches(contains_pattern(query), t.description)
                &&& exists|m: int| 0 <= m < s.projects.len() && (#[trigger] s.projects[m]).id == t.project_id && s.projects[m].status != "archived"@
            },
            SearchHit::LogHit(l) => {
                &&& s.logs.contains(l)
                &&& like_matches(contains_pattern(query), l.notes) || like_matches(contains_pattern(query), l.next_action)
                &&& exists|m: int| 0 <= m < s.projects.len() && (#[trigger] s.projects[m]).id == l.project_id && s.projects[m].status != "archived"@
            },
        },
{
    let pat = contains_pattern(query);
    let fp = s.projects.filter(project_hit(pat));
    let ft = s.tasks.filter(task_hit(pat, s.projects));
    let fl = s.logs.filter(log_hit(pat, s.projects));
    let a = fp.map_values(|p: ProjectRow| as_project_hit(p));
    let b = ft.map_values(|t: TaskRow| as_task_hit(t));
    let c = fl.map_values(|l: LogRow| as_log_hit(l));
    let all = s.search_hits(query);
    assert(all == a + b + c);
    assert forall|i: int| 0 <= i < all.len() implies match #[trigger] all[i] {
        SearchHit::ProjectHit(p) => {
            &&& s.projects.contains(p)
            &&& p.status != "archived"@
            &&& like_matches(pat, p.name) || like_matches(pat, p.goal)
        },
        SearchHit::TaskHit(t) => {
            &&& s.tasks.contains(t)
            &&& like_matches(pat, t.description)
            &&& exists|m: int| 0 <= m < s.projects.len() && (#[trigger] s.projects[m]).id == t.project_id && s.projects[m].status != "archived"@
        },
        SearchHit::LogHit(l) => {
            &&& s.logs.contains(l)
            &&& like_matches(pat, l.notes) || like_matches(pat, l.next_action)
            &&& exists|m: int| 0 <= m < s.projects.len() && (#[trigger] s.projects[m]).id == l.project_id && s.projects[m].status != "archived"@
        },
    } by {
        if i < a.len() {
            assert(all[i] == a[i]);
            assert(fp.contains(fp[i]));
            s.projects.lemma_filter_contains_rev(project_hit(pat), fp[i]);
            assert((project_hit(pat))(fp[i]));
        } else if i < a.len() + b.len() {
            let j = i - a.len();
            assert(all[i] == b[j]);
            assert(ft.contains(ft[j]));
            s.tasks.lemma_filter_contains_rev(task_hit(pat, s.projects), ft[j]);
            assert((task_hit(pat, s.projects))(ft[j]));
        } else {
            let j = i - a.len() - b.len();
            assert(all[i] == c[j]);
            assert(fl.contains(fl[j]));
            s.logs.lemma_filter_contains_rev(log_hit(pat, s.projects), fl[j]);
            assert((log_hit(pat, s.projects))(fl[j]));
        }
    }
}

/// Whether some project with id `pid` exists and is not archived.
pub open spec fn has_live_project(s: DbState, pid: i64) -> bool {
    exists|m: int| 0 <= m < s.projects.len() && (#[trigger] s.projects[m]).id == pid && s.projects[m].status != "archived"@
}

/// For a query without wildcards, a search finds exactly: the projects
/// that are not archived and whose name or goal holds the query; the tasks,
/// of any status, whose description holds it; and the log entries whose
/// notes or next action hold it, those two of projects that are not
/// archived; the query held up to ASCII case.
pub proof fn law_search_is_exact(s: DbState, query: Seq<char>)
    requires
        s.wf(),
        free_of_wildcards(query),
    ensures
        forall|p: ProjectRow| #[trigger] s.search_hits(query).contains(SearchHit::ProjectHit(p)) <==> {
            &&& s.projects.contains(p)
            &&& p.status != "archived"@
            &&& occurs_folded(query, p.name) || occurs_folded(query, p.goal)
        },
        forall|t: TaskRow| #[trigger] s.search_hits(query).contains(SearchHit::TaskHit(t)) <==> {
            &&& s.tasks.contains(t)
            &&& occurs_folded(query, t.description)
            &&& has_live_project(s, t.project_id)
        },
        forall|l: LogRow| #[trigger] s.search_hits(query).contains(SearchHit::LogHit(l)) <==> {
            &&& s.logs.contains(l)
            &&& occurs_folded(query, l.notes) || occurs_folded(query, l.next_action)
            &&& has_live_project(s, l.project_id)
        },
{
    let all = s.search_hits(query);
    law_search_hits_match(s, query);
    assert forall|p: ProjectRow| #[trigger] all.contains(SearchHit::ProjectHit(p)) <==> {
        &&& s.projects.contains(p)
        &&& p.status != "archived"@
        &&& occurs_folded(query, p.name) || occurs_folded(query, p.goal)
    } by {
        law_contains_pattern_is_occurrence(query, p.name);
        law_contains_pattern_is_occurrence(query, p.goal);
        if all.contains(SearchHit::ProjectHit(p)) {
            let i = choose|i: int| 0 <= i < all.len() && all[i] == SearchHit::ProjectHit(p);
            assert(match all[i] {
                SearchHit::ProjectHit(p) => s.projects.contains(p),
                _ => true,
            });
        }
        if s.projects.contains(p) && p.status != "archived"@ && (occurs_folded(query, p.name) || occurs_folded(query, p.goal)) {
            let k = choose|k: int| 0 <= k < s.projects.len() && s.projects[k] == p;
            law_search_finds_project(s, query, k);
        }
    }
    assert forall|t: TaskRow| #[trigger] all.contains(SearchHit::TaskHit(t)) <==> {
        &&& s.tasks.contains(t)
        &&& occurs_folded(query, t.description)
        &&& has_live_project(s, t.project_id)
    } by {
        law_contains_pattern_is_occurrence(query, t.description);
        if all.contains(SearchHit::TaskHit(t)) {
            let i = choose|i: int| 0 <= i < all.len() && all[i] == SearchHit::TaskHit(t);
            assert(match all[i] {
                SearchHit::TaskHit(t) => s.tasks.contains(t),
                _ => true,
            });
        }
        if s.tasks.contains(t) && occurs_folded(query, t.description) && has_live_project(s, t.project_id) {
            let k = choose|k: int| 0 <= k < s.tasks.len() && s.tasks[k] == t;
            let m = choose|m: int| 0 <= m < s.projects.len() && (#[trigger] s.projects[m]).id == t.project_id && s.projects[m].status != "archived"@;
            law_search_finds_task(s, query, k, m);
        }
    }
    assert forall|l: LogRow| #[trigger] all.contains(SearchHit::LogHit(l)) <==> {
        &&& s.logs.contains(l)
        &&& occurs_folded(query, l.notes) || occurs_folded(query, l.next_action)
        &&& has_live_project(s, l.project_id)
    } by {
        law_contains_pattern_is_occurrence(query, l.notes);
        law_contains_pattern_is_occurrence(query, l.next_action);
        if all.contains(SearchHit::LogHit(l)) {
            let i = choose|i: int| 0 <= i < all.len() && all[i] == SearchHit::LogHit(l);
            assert(match all[i] {
                SearchHit::LogHit(l) => s.logs.contains(l),
                _ => true,
            });
        }
        if s.logs.contains(l) && (occurs_folded(query, l.notes) || occurs_folded(query, l.next_action)) && has_live_project(s, l.project_id) {
            let k = choose|k: int| 0 <= k < s.logs.len() && s.logs[k] == l;
            let m = choose|m: int| 0 <= m < s.projects.len() && (#[trigger] s.projects[m]).id == l.project_id && s.projects[m].status != "archived"@;
            law_search_finds_log(s, query, k, m);
        }
    }
}

/// Where a hit stands in a search's answer: projects first, then tasks,
/// then log entries.
pub open spec fn hit_rank(h: SearchHit) -> int {
    match h {
        SearchHit::ProjectHit(_) => 0,
        SearchHit::TaskHit(_) => 1,
        SearchHit::LogHit(_) => 2,
    }
}

/// The id of the row a hit is.
pub open spec fn hit_id(h: SearchHit) -> i64 {
    match h {
        SearchHit::ProjectHit(p) => p.id,
        SearchHit::TaskHit(t) => t.id,
        SearchHit::LogHit(l) => l.id,
    }
}

/// A search answers with its project hits, then its task hits, then its
/// log hits, each group in ascending id order (so nothing comes twice).
pub proof fn law_search_order(s: DbState, query: Seq<char>)
    requires
        s.wf(),
    ensures
        forall|i: int, j: int| 0 <= i < j < s.search_hits(query).len() ==> {
            let a = #[trigger] s.search_hits(query)[i];
            let b = #[trigger] s.search_hits(query)[j];
            hit_rank(a) < hit_rank(b) || (hit_rank(a) == hit_rank(b) && hit_id(a) < hit_id(b))
        },
{
    let pat = contains_pattern(query);
    let fp = s.projects.filter(project_hit(pat));
    let ft = s.tasks.filter(task_hit(pat, s.projects));
    let fl = s.logs.filter(log_hit(pat, s.projects));
    crate::tables::lemma_filter_projects_ascending(s.projects, project_hit(pat));
    crate::tables::lemma_filter_tasks_ascending(s.tasks, task_hit(pat, s.projects));
    crate::tables::lemma_filter_logs_ascending(s.logs, log_hit(pat, s.projects));
    let a = fp.map_values(|p: ProjectRow| as_project_hit(p));
    let b = ft.map_values(|t: TaskRow| as_task_hit(t));
    let c = fl.map_values(|l: LogRow| as_log_hit(l));
    let all = s.search_hits(query);
    assert(all == a + b + c);
    assert forall|i: int, j: int| 0 <= i < j < all.len() implies {
        let x = #[trigger] all[i];
        let y = #[trigger] all[j];
        hit_rank(x) < hit_rank(y) || (hit_rank(x) == hit_rank(y) && hit_id(x) < hit_id(y))
    } by {
        let na = a.len();
        let nb = a.len() + b.len();
        if j < na {
            assert(all[i] == a[i] && all[j] == a[j]);
            assert(fp[i].id < fp[j].id);
        } else if i < na {
            assert(all[i] == a[i]);
            if j < nb {
                assert(all[j] == b[j - na]);
            } else {
                assert(all[j] == c[j - nb]);
            }
        } else if j < nb {
            assert(all[i] == b[i - na] && all[j] == b[j - na]);
            assert(ft[i - na].id < ft[j - na].id);
        } else if i < nb {
            assert(all[i] == b[i - na] && all[j] == c[j - nb]);
        } else {
            assert(all[i] == c[i - nb] && all[j] == c[j - nb]);
            assert(fl[i - nb].id < fl[j - nb].id);
        }
    }
}

} // verus!
