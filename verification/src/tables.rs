//! Facts about tables in ascending id order under filtering.
use crate::records::{LogRow, ProjectRow, TaskRow};
use crate::state::{log_ids_ascending, project_ids_ascending, task_ids_ascending};
use vstd::prelude::*;

verus! {

broadcast use vstd::seq_lib::group_filter_ensures;

/// Leaving rows out of a project table keeps it in ascending id order.
pub proof fn lemma_filter_projects_ascending(rows: Seq<ProjectRow>, pred: spec_fn(ProjectRow) -> bool)
    requires
        project_ids_ascending(rows),
    ensures
        project_ids_ascending(rows.filter(pred)),
    decreases rows.len(),
{
    if rows.len() > 0 {
        let rest = rows.drop_last();
        assert(project_ids_ascending(rest));
        lemma_filter_projects_ascending(rest, pred);
        let f = rest.filter(pred);
        reveal(Seq::filter);
        assert(rows.filter(pred) == if pred(rows.last()) { f.push(rows.last()) } else { f });
        if pred(rows.last()) {
            assert forall|i: int| 0 <= i < f.len() implies (#[trigger] f[i]).id < rows.last().id by {
                assert(f.contains(f[i]));
                rest.lemma_filter_contains_rev(pred, f[i]);
                let k = choose|k: int| 0 <= k < rest.len() && rest[k] == f[i];
                assert(rows[k] == rest[k]);
                assert(rows[rows.len() - 1] == rows.last());
            }
            let g = f.push(rows.last());
            assert forall|i: int, j: int| 0 <= i < j < g.len() implies (#[trigger] g[i]).id < (
            #[trigger] g[j]).id by {
                if j == f.len() {
                    assert(g[i] == f[i]);
                } else {
                    assert(g[i] == f[i] && g[j] == f[j]);
                }
            }
        }
    }
}

/// Leaving rows out of a task table keeps it in ascending id order.
pub proof fn lemma_filter_tasks_ascending(rows: Seq<TaskRow>, pred: spec_fn(TaskRow) -> bool)
    requires
        task_ids_ascending(rows),
    ensures
        task_ids_ascending(rows.filter(pred)),
    decreases rows.len(),
{
    if rows.len() > 0 {
        let rest = rows.drop_last();
        assert(task_ids_ascending(rest));
        lemma_filter_tasks_ascending(rest, pred);
        let f = rest.filter(pred);
        reveal(Seq::filter);
        assert(rows.filter(pred) == if pred(rows.last()) { f.push(rows.last()) } else { f });
        if pred(rows.last()) {
            assert forall|i: int| 0 <= i < f.len() implies (#[trigger] f[i]).id < rows.last().id by {
                assert(f.contains(f[i]));
                rest.lemma_filter_contains_rev(pred, f[i]);
                let k = choose|k: int| 0 <= k < rest.len() && rest[k] == f[i];
                assert(rows[k] == rest[k]);
                assert(rows[rows.len() - 1] == rows.last());
            }
            let g = f.push(rows.last());
            assert forall|i: int, j: int| 0 <= i < j < g.len() implies (#[trigger] g[i]).id < (
            #[trigger] g[j]).id by {
                if j == f.len() {
                    assert(g[i] == f[i]);
                } else {
                    assert(g[i] == f[i] && g[j] == f[j]);
                }
            }
        }
    }
}

/// Leaving rows out of a log table keeps it in ascending id order.
pub proof fn lemma_filter_logs_ascending(rows: Seq<LogRow>, pred: spec_fn(LogRow) -> bool)
    requires
        log_ids_ascending(rows),
    ensures
        log_ids_ascending(rows.filter(pred)),
    decreases rows.len(),
{
    if rows.len() > 0 {
        let rest = rows.drop_last();
        assert(log_ids_ascending(rest));
        lemma_filter_logs_ascending(rest, pred);
        let f = rest.filter(pred);
        reveal(Seq::filter);
        assert(rows.filter(pred) == if pred(rows.last()) { f.push(rows.last()) } else { f });
        if pred(rows.last()) {
            assert forall|i: int| 0 <= i < f.len() implies (#[trigger] f[i]).id < rows.last().id by {
                assert(f.contains(f[i]));
                rest.lemma_filter_contains_rev(pred, f[i]);
                let k = choose|k: int| 0 <= k < rest.len() && rest[k] == f[i];
                assert(rows[k] == rest[k]);
                assert(rows[rows.len() - 1] == rows.last());
            }
            let g = f.push(rows.last());
            assert forall|i: int, j: int| 0 <= i < j < g.len() implies (#[trigger] g[i]).id < (
            #[trigger] g[j]).id by {
                if j == f.len() {
                    assert(g[i] == f[i]);
                } else {
                    assert(g[i] == f[i] && g[j] == f[j]);
                }
            }
        }
    }
}

} // verus!
