//! Why removing rows keeps the store consistent.
use crate::records::{LogRow, ProjectRow, TaskRow};
use crate::state::{
    has_project, log_id_other_than, log_not_of, project_id_other_than, task_id_other_than,
    task_not_of, DbState,
};
use crate::tables::{
    lemma_filter_logs_ascending, lemma_filter_projects_ascending, lemma_filter_tasks_ascending,
};
use vstd::prelude::*;

verus! {

broadcast use vstd::seq_lib::group_filter_ensures;

proof fn lemma_kept_project_in(rows: Seq<ProjectRow>, pred: spec_fn(ProjectRow) -> bool, i: int)
    requires
        0 <= i < rows.filter(pred).len(),
    ensures
        exists|k: int| 0 <= k < rows.len() && rows[k] == rows.filter(pred)[i],
        pred(rows.filter(pred)[i]),
{
    assert(rows.filter(pred).contains(rows.filter(pred)[i]));
    rows.lemma_filter_contains_rev(pred, rows.filter(pred)[i]);
}

proof fn lemma_kept_task_in(rows: Seq<TaskRow>, pred: spec_fn(TaskRow) -> bool, i: int)
    requires
        0 <= i < rows.filter(pred).len(),
    ensures
        exists|k: int| 0 <= k < rows.len() && rows[k] == rows.filter(pred)[i],
        pred(rows.filter(pred)[i]),
{
    assert(rows.filter(pred).contains(rows.filter(pred)[i]));
    rows.lemma_filter_contains_rev(pred, rows.filter(pred)[i]);
}

proof fn lemma_kept_log_in(rows: Seq<LogRow>, pred: spec_fn(LogRow) -> bool, i: int)
    requires
        0 <= i < rows.filter(pred).len(),
    ensures
        exists|k: int| 0 <= k < rows.len() && rows[k] == rows.filter(pred)[i],
        pred(rows.filter(pred)[i]),
{
    assert(rows.filter(pred).contains(rows.filter(pred)[i]));
    rows.lemma_filter_contains_rev(pred, rows.filter(pred)[i]);
}

/// Removing a project together with its tasks and log entries keeps the
/// store consistent.
pub proof fn lemma_without_project_wf(s: DbState, id: i64)
    requires
        s.wf(),
    ensures
        s.without_project(id).wf(),
{
    let t = s.without_project(id);
    let pp = project_id_other_than(id);
    let tp = task_not_of(id);
    let lp = log_not_of(id);
    lemma_filter_projects_ascending(s.projects, pp);
    lemma_filter_tasks_ascending(s.tasks, tp);
    lemma_filter_logs_ascending(s.logs, lp);
    assert forall|i: int| 0 <= i < t.projects.len() implies 1 <= (#[trigger] t.projects[i]).id
        <= t.project_seq by {
        lemma_kept_project_in(s.projects, pp, i);
    }
    assert forall|i: int| 0 <= i < t.tasks.len() implies 1 <= (#[trigger] t.tasks[i]).id
        <= t.task_seq by {
        lemma_kept_task_in(s.tasks, tp, i);
    }
    assert forall|i: int| 0 <= i < t.logs.len() implies 1 <= (#[trigger] t.logs[i]).id
        <= t.log_seq by {
        lemma_kept_log_in(s.logs, lp, i);
    }
    assert forall|i: int| 0 <= i < t.tasks.len() implies has_project(
        t.projects,
        (#[trigger] t.tasks[i]).project_id,
    ) by {
        lemma_kept_task_in(s.tasks, tp, i);
        let k = choose|k: int| 0 <= k < s.tasks.len() && s.tasks[k] == t.tasks[i];
        let pid = t.tasks[i].project_id;
        assert(has_project(s.projects, s.tasks[k].project_id));
        let m = choose|m: int| 0 <= m < s.projects.len() && (#[trigger] s.projects[m]).id == pid;
        s.projects.lemma_filter_contains(pp, m);
        let n = choose|n: int| 0 <= n < t.projects.len() && t.projects[n] == s.projects[m];
        assert(t.projects[n].id == pid);
    }
    assert forall|i: int| 0 <= i < t.logs.len() implies has_project(
        t.projects,
        (#[trigger] t.logs[i]).project_id,
    ) by {
        lemma_kept_log_in(s.logs, lp, i);
        let k = choose|k: int| 0 <= k < s.logs.len() && s.logs[k] == t.logs[i];
        let pid = t.logs[i].project_id;
        assert(has_project(s.projects, s.logs[k].project_id));
        let m = choose|m: int| 0 <= m < s.projects.len() && (#[trigger] s.projects[m]).id == pid;
        s.projects.lemma_filter_contains(pp, m);
        let n = choose|n: int| 0 <= n < t.projects.len() && t.projects[n] == s.projects[m];
        assert(t.projects[n].id == pid);
    }
}

/// Removing a task keeps the store consistent.
pub proof fn lemma_without_task_rows_wf(s: DbState, id: i64)
    requires
        s.wf(),
    ensures
        (DbState { tasks: s.tasks.filter(task_id_other_than(id)), ..s }).wf(),
{
    let t = DbState { tasks: s.tasks.filter(task_id_other_than(id)), ..s };
    let tp = task_id_other_than(id);
    lemma_filter_tasks_ascending(s.tasks, tp);
    assert forall|i: int| 0 <= i < t.tasks.len() implies 1 <= (#[trigger] t.tasks[i]).id
        <= t.task_seq && has_project(t.projects, t.tasks[i].project_id) by {
        lemma_kept_task_in(s.tasks, tp, i);
    }
}

/// Removing a log entry keeps the store consistent.
pub proof fn lemma_without_log_wf(s: DbState, id: i64)
    requires
        s.wf(),
    ensures
        s.without_log(id).wf(),
{
    let t = s.without_log(id);
    let lp = log_id_other_than(id);
    lemma_filter_logs_ascending(s.logs, lp);
    assert forall|i: int| 0 <= i < t.logs.len() implies 1 <= (#[trigger] t.logs[i]).id
        <= t.log_seq && has_project(t.projects, t.logs[i].project_id) by {
        lemma_kept_log_in(s.logs, lp, i);
    }
}

} // verus!
