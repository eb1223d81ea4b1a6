//! Importing what was exported: every project, task and log entry comes
//! back with all of its fields but its ids.
use crate::order::lemma_sort_ordered_multiset;
use crate::records::{LogRow, ProjectRow, TaskRow};
use crate::state::{
    log_of, logs_in_project_order, recency_before, tasks_in_project_order, DbState,
};
use crate::transfer::{import_logs, import_prefix, import_tasks, imported, imported_log_row, imported_task_row};
use vstd::prelude::*;

verus! {

broadcast use vstd::seq_lib::group_filter_ensures;

// ── Renumbering ─────────────────────────────────────────────

/// `block` filed under project `pid`, with ids counting up from `first`.
pub open spec fn renumbered_tasks(block: Seq<TaskRow>, first: int, pid: i64) -> Seq<TaskRow> {
    Seq::new(block.len(), |i: int| imported_task_row((first + i) as i64, pid, block[i]))
}

/// `block` filed under project `pid`, with ids counting up from `first`.
pub open spec fn renumbered_logs(block: Seq<LogRow>, first: int, pid: i64) -> Seq<LogRow> {
    Seq::new(block.len(), |i: int| imported_log_row((first + i) as i64, pid, block[i]))
}

/// The first `k` projects of `order`, numbered 1 to `k`.
pub open spec fn renumbered_projects(order: Seq<ProjectRow>, k: nat) -> Seq<ProjectRow> {
    Seq::new(k, |j: int| ProjectRow { id: (j + 1) as i64, ..order[j] })
}

/// The tasks of the first `k` projects of `order`, project after project,
/// each block filed under the project's number and all numbered in turn.
pub open spec fn reimported_tasks(s: DbState, order: Seq<ProjectRow>, k: nat) -> Seq<TaskRow>
    decreases k,
{
    if k == 0 {
        Seq::empty()
    } else {
        let prev = reimported_tasks(s, order, (k - 1) as nat);
        prev + renumbered_tasks(s.project_tasks(order[k - 1].id), (prev.len() + 1) as int, k as i64)
    }
}

/// The log entries of the first `k` projects of `order`, project after
/// project, each block filed under the project's number and all numbered
/// in turn.
pub open spec fn reimported_logs(s: DbState, order: Seq<ProjectRow>, k: nat) -> Seq<LogRow>
    decreases k,
{
    if k == 0 {
        Seq::empty()
    } else {
        let prev = reimported_logs(s, order, (k - 1) as nat);
        prev + renumbered_logs(s.project_logs(order[k - 1].id), (prev.len() + 1) as int, k as i64)
    }
}

// ── Adding tasks in pieces ──────────────────────────────────

proof fn lemma_import_tasks_concat(st: DbState, xs: Seq<TaskRow>, ys: Seq<TaskRow>, old: i64, new: i64)
    ensures
        import_tasks(st, xs + ys, old, new) == match import_tasks(st, xs, old, new) {
            Some(s1) => import_tasks(s1, ys, old, new),
            None => None,
        },
    decreases ys.len(),
{
    if ys.len() == 0 {
        assert(xs + ys =~= xs);
    } else {
        assert((xs + ys).drop_last() =~= xs + ys.drop_last());
        assert((xs + ys).last() == ys.last());
        lemma_import_tasks_concat(st, xs, ys.drop_last(), old, new);
    }
}

proof fn lemma_import_tasks_none_match(st: DbState, ys: Seq<TaskRow>, old: i64, new: i64)
    requires
        forall|i: int| 0 <= i < ys.len() ==> (#[trigger] ys[i]).project_id != old,
    ensures
        import_tasks(st, ys, old, new) == Some(st),
    decreases ys.len(),
{
    if ys.len() > 0 {
        lemma_import_tasks_none_match(st, ys.drop_last(), old, new);
        assert(ys.last() == ys[ys.len() - 1]);
    }
}

proof fn lemma_import_tasks_all_match(st: DbState, ys: Seq<TaskRow>, old: i64, new: i64)
    requires
        forall|i: int| 0 <= i < ys.len() ==> (#[trigger] ys[i]).project_id == old,
        0 <= st.task_seq,
        st.task_seq + ys.len() <= i64::MAX,
    ensures
        import_tasks(st, ys, old, new) == Some(
            DbState {
                tasks: st.tasks + renumbered_tasks(ys, st.task_seq + 1, new),
                task_seq: (st.task_seq + ys.len()) as i64,
                ..st
            },
        ),
    decreases ys.len(),
{
    if ys.len() == 0 {
        assert(st.tasks + renumbered_tasks(ys, st.task_seq + 1, new) =~= st.tasks);
    } else {
        let rest = ys.drop_last();
        lemma_import_tasks_all_match(st, rest, old, new);
        assert(ys.last() == ys[ys.len() - 1]);
        assert(renumbered_tasks(ys, st.task_seq + 1, new) =~= renumbered_tasks(rest, st.task_seq + 1, new).push(
            imported_task_row((st.task_seq + rest.len() + 1) as i64, new, ys.last()),
        ));
        assert((st.tasks + renumbered_tasks(rest, st.task_seq + 1, new)).push(
            imported_task_row((st.task_seq + rest.len() + 1) as i64, new, ys.last()),
        ) =~= st.tasks + renumbered_tasks(ys, st.task_seq + 1, new));
    }
}

proof fn lemma_import_logs_concat(st: DbState, xs: Seq<LogRow>, ys: Seq<LogRow>, old: i64, new: i64)
    ensures
        import_logs(st, xs + ys, old, new) == match import_logs(st, xs, old, new) {
            Some(s1) => import_logs(s1, ys, old, new),
            None => None,
        },
    decreases ys.len(),
{
    if ys.len() == 0 {
        assert(xs + ys =~= xs);
    } else {
        assert((xs + ys).drop_last() =~= xs + ys.drop_last());
        assert((xs + ys).last() == ys.last());
        lemma_import_logs_concat(st, xs, ys.drop_last(), old, new);
    }
}

proof fn lemma_import_logs_none_match(st: DbState, ys: Seq<LogRow>, old: i64, new: i64)
    requires
        forall|i: int| 0 <= i < ys.len() ==> (#[trigger] ys[i]).project_id != old,
    ensures
        import_logs(st, ys, old, new) == Some(st),
    decreases ys.len(),
{
    if ys.len() > 0 {
        lemma_import_logs_none_match(st, ys.drop_last(), old, new);
        assert(ys.last() == ys[ys.len() - 1]);
    }
}

proof fn lemma_import_logs_all_match(st: DbState, ys: Seq<LogRow>, old: i64, new: i64)
    requires
        forall|i: int| 0 <= i < ys.len() ==> (#[trigger] ys[i]).project_id == old,
        0 <= st.log_seq,
        st.log_seq + ys.len() <= i64::MAX,
    ensures
        import_logs(st, ys, old, new) == Some(
            DbState {
                logs: st.logs + renumbered_logs(ys, st.log_seq + 1, new),
                log_seq: (st.log_seq + ys.len()) as i64,
                ..st
            },
        ),
    decreases ys.len(),
{
    if ys.len() == 0 {
        assert(st.logs + renumbered_logs(ys, st.log_seq + 1, new) =~= st.logs);
    } else {
        let rest = ys.drop_last();
        lemma_import_logs_all_match(st, rest, old, new);
        assert(ys.last() == ys[ys.len() - 1]);
        assert(renumbered_logs(ys, st.log_seq + 1, new) =~= renumbered_logs(rest, st.log_seq + 1, new).push(
            imported_log_row((st.log_seq + rest.len() + 1) as i64, new, ys.last()),
        ));
        assert((st.logs + renumbered_logs(rest, st.log_seq + 1, new)).push(
            imported_log_row((st.log_seq + rest.len() + 1) as i64, new, ys.last()),
        ) =~= st.logs + renumbered_logs(ys, st.log_seq + 1, new));
    }
}

// ── The exported blocks ─────────────────────────────────────

/// No two projects in the export order share an id.
proof fn lemma_export_order_distinct(s: DbState)
    requires
        s.wf(),
    ensures
        forall|i: int, j: int|
            0 <= i < s.all_projects().len() && 0 <= j < s.all_projects().len() && i != j
                ==> (#[trigger] s.all_projects()[i]).id != (#[trigger] s.all_projects()[j]).id,
{
    let p = s.all_projects();
    assert(s.projects.no_duplicates()) by {
        assert forall|i: int, j: int| 0 <= i < s.projects.len() && 0 <= j < s.projects.len() && i != j implies s.projects[i] != s.projects[j] by {
            if i < j {
                assert(s.projects[i].id < s.projects[j].id);
            } else {
                assert(s.projects[j].id < s.projects[i].id);
            }
        }
    }
    lemma_sort_ordered_multiset(s.projects, recency_before());
    s.projects.lemma_multiset_has_no_duplicates();
    p.lemma_multiset_has_no_duplicates_conv();
    assert forall|i: int, j: int|
        0 <= i < p.len() && 0 <= j < p.len() && i != j implies (#[trigger] p[i]).id != (#[trigger] p[j]).id by {
        assert(p[i] != p[j]);
        crate::order::lemma_sort_ordered_contains(s.projects, recency_before(), p[i]);
        crate::order::lemma_sort_ordered_contains(s.projects, recency_before(), p[j]);
        assert(p.contains(p[i]));
        assert(p.contains(p[j]));
        let a = choose|a: int| 0 <= a < s.projects.len() && s.projects[a] == p[i];
        let b = choose|b: int| 0 <= b < s.projects.len() && s.projects[b] == p[j];
        if a < b {
            assert(s.projects[a].id < s.projects[b].id);
        } else if b < a {
            assert(s.projects[b].id < s.projects[a].id);
        }
    }
}

proof fn lemma_task_block_of(s: DbState, pid: i64)
    requires
        s.wf(),
    ensures
        forall|i: int| 0 <= i < s.project_tasks(pid).len() ==> (#[trigger] s.project_tasks(pid)[i]).project_id == pid,
{
    crate::laws::law_project_tasks(s, pid);
    assert forall|i: int| 0 <= i < s.project_tasks(pid).len() implies (#[trigger] s.project_tasks(pid)[i]).project_id == pid by {
        assert(s.project_tasks(pid).contains(s.project_tasks(pid)[i]));
    }
}

proof fn lemma_log_block_of(s: DbState, pid: i64)
    ensures
        forall|i: int| 0 <= i < s.project_logs(pid).len() ==> (#[trigger] s.project_logs(pid)[i]).project_id == pid,
{
    let f = s.logs.filter(log_of(pid));
    assert forall|i: int| 0 <= i < s.project_logs(pid).len() implies (#[trigger] s.project_logs(pid)[i]).project_id == pid by {
        assert(s.project_logs(pid)[i] == f[f.len() - 1 - i]);
        assert((log_of(pid))(f[f.len() - 1 - i]));
    }
}

proof fn lemma_task_blocks_len(s: DbState, order: Seq<ProjectRow>, k: nat)
    requires
        k <= order.len(),
    ensures
        reimported_tasks(s, order, k).len() == tasks_in_project_order(s, order.take(k as int)).len(),
        tasks_in_project_order(s, order.take(k as int)).len() <= tasks_in_project_order(s, order).len(),
    decreases order.len() - k,
{
    if k < order.len() {
        lemma_task_blocks_len(s, order, k + 1);
        assert(order.take((k + 1) as int).drop_last() =~= order.take(k as int));
        assert(order.take((k + 1) as int).last() == order[k as int]);
    } else {
        assert(order.take(k as int) =~= order);
    }
    lemma_task_blocks_len_prefix(s, order, k);
}

proof fn lemma_task_blocks_len_prefix(s: DbState, order: Seq<ProjectRow>, k: nat)
    requires
        k <= order.len(),
    ensures
        reimported_tasks(s, order, k).len() == tasks_in_project_order(s, order.take(k as int)).len(),
    decreases k,
{
    if k > 0 {
        lemma_task_blocks_len_prefix(s, order, (k - 1) as nat);
        assert(order.take(k as int).drop_last() =~= order.take(k - 1));
        assert(order.take(k as int).last() == order[k - 1]);
    } else {
        assert(order.take(0) =~= Seq::<ProjectRow>::empty());
    }
}

proof fn lemma_log_blocks_len(s: DbState, order: Seq<ProjectRow>, k: nat)
    requires
        k <= order.len(),
    ensures
        reimported_logs(s, order, k).len() == logs_in_project_order(s, order.take(k as int)).len(),
        logs_in_project_order(s, order.take(k as int)).len() <= logs_in_project_order(s, order).len(),
    decreases order.len() - k,
{
    if k < order.len() {
        lemma_log_blocks_len(s, order, k + 1);
        assert(order.take((k + 1) as int).drop_last() =~= order.take(k as int));
        assert(order.take((k + 1) as int).last() == order[k as int]);
    } else {
        assert(order.take(k as int) =~= order);
    }
    lemma_log_blocks_len_prefix(s, order, k);
}

proof fn lemma_log_blocks_len_prefix(s: DbState, order: Seq<ProjectRow>, k: nat)
    requires
        k <= order.len(),
    ensures
        reimported_logs(s, order, k).len() == logs_in_project_order(s, order.take(k as int)).len(),
    decreases k,
{
    if k > 0 {
        lemma_log_blocks_len_prefix(s, order, (k - 1) as nat);
        assert(order.take(k as int).drop_last() =~= order.take(k - 1));
        assert(order.take(k as int).last() == order[k - 1]);
    } else {
        assert(order.take(0) =~= Seq::<ProjectRow>::empty());
    }
}

/// Of all exported tasks, importing those of export position `k` adds
/// exactly that project's block.
proof fn lemma_import_tasks_of_block(s: DbState, st: DbState, k: int, m: nat)
    requires
        s.wf(),
        0 <= k < s.all_projects().len(),
        m <= s.all_projects().len(),
        0 <= st.task_seq,
        st.task_seq + s.project_tasks(s.all_projects()[k].id).len() <= i64::MAX,
    ensures
        import_tasks(st, tasks_in_project_order(s, s.all_projects().take(m as int)), s.all_projects()[k].id, (k + 1) as i64)
            == if k < m {
            Some(
                DbState {
                    tasks: st.tasks + renumbered_tasks(
                        s.project_tasks(s.all_projects()[k].id),
                        st.task_seq + 1,
                        (k + 1) as i64,
                    ),
                    task_seq: (st.task_seq + s.project_tasks(s.all_projects()[k].id).len()) as i64,
                    ..st
                },
            )
        } else {
            Some(st)
        },
    decreases m,
{
    let order = s.all_projects();
    let old = order[k].id;
    let new = (k + 1) as i64;
    if m == 0 {
        assert(order.take(0) =~= Seq::<ProjectRow>::empty());
    } else {
        let prefix = order.take(m - 1);
        assert(order.take(m as int).drop_last() =~= prefix);
        assert(order.take(m as int).last() == order[m - 1]);
        lemma_import_tasks_of_block(s, st, k, (m - 1) as nat);
        let block = s.project_tasks(order[m - 1].id);
        lemma_import_tasks_concat(st, tasks_in_project_order(s, prefix), block, old, new);
        lemma_task_block_of(s, order[m - 1].id);
        if m - 1 == k {
            lemma_import_tasks_all_match(st, block, old, new);
        } else {
            lemma_export_order_distinct(s);
            assert(order[m - 1].id != old);
            let mid = if k < m - 1 {
                DbState {
                    tasks: st.tasks + renumbered_tasks(s.project_tasks(old), st.task_seq + 1, new),
                    task_seq: (st.task_seq + s.project_tasks(old).len()) as i64,
                    ..st
                }
            } else {
                st
            };
            lemma_import_tasks_none_match(mid, block, old, new);
        }
    }
}

/// Of all exported log entries, importing those of export position `k`
/// adds exactly that project's block.
proof fn lemma_import_logs_of_block(s: DbState, st: DbState, k: int, m: nat)
    requires
        s.wf(),
        0 <= k < s.all_projects().len(),
        m <= s.all_projects().len(),
        0 <= st.log_seq,
        st.log_seq + s.project_logs(s.all_projects()[k].id).len() <= i64::MAX,
    ensures
        import_logs(st, logs_in_project_order(s, s.all_projects().take(m as int)), s.all_projects()[k].id, (k + 1) as i64)
            == if k < m {
            Some(
                DbState {
                    logs: st.logs + renumbered_logs(
                        s.project_logs(s.all_projects()[k].id),
                        st.log_seq + 1,
                        (k + 1) as i64,
                    ),
                    log_seq: (st.log_seq + s.project_logs(s.all_projects()[k].id).len()) as i64,
                    ..st
                },
            )
        } else {
            Some(st)
        },
    decreases m,
{
    let order = s.all_projects();
    let old = order[k].id;
    let new = (k + 1) as i64;
    if m == 0 {
        assert(order.take(0) =~= Seq::<ProjectRow>::empty());
    } else {
        let prefix = order.take(m - 1);
        assert(order.take(m as int).drop_last() =~= prefix);
        assert(order.take(m as int).last() == order[m - 1]);
        lemma_import_logs_of_block(s, st, k, (m - 1) as nat);
        let block = s.project_logs(order[m - 1].id);
        lemma_import_logs_concat(st, logs_in_project_order(s, prefix), block, old, new);
        lemma_log_block_of(s, order[m - 1].id);
        if m - 1 == k {
            lemma_import_logs_all_match(st, block, old, new);
        } else {
            lemma_export_order_distinct(s);
            assert(order[m - 1].id != old);
            let mid = if k < m - 1 {
                DbState {
                    logs: st.logs + renumbered_logs(s.project_logs(old), st.log_seq + 1, new),
                    log_seq: (st.log_seq + s.project_logs(old).len()) as i64,
                    ..st
                }
            } else {
                st
            };
            lemma_import_logs_none_match(mid, block, old, new);
        }
    }
}

/// The store that importing the first `k` exported projects into an empty
/// store gives.
pub open spec fn reimported_state(s: DbState, k: nat) -> DbState {
    let order = s.all_projects();
    DbState {
        projects: renumbered_projects(order, k),
        tasks: reimported_tasks(s, order, k),
        logs: reimported_logs(s, order, k),
        project_seq: k as i64,
        task_seq: reimported_tasks(s, order, k).len() as i64,
        log_seq: reimported_logs(s, order, k).len() as i64,
    }
}

proof fn lemma_import_prefix_of_export(s: DbState, k: nat)
    requires
        s.wf(),
        k <= s.all_projects().len(),
        s.all_projects().len() <= i64::MAX,
        s.export_rows().tasks.len() <= i64::MAX,
        s.export_rows().logs.len() <= i64::MAX,
    ensures
        import_prefix(DbState::empty(), s.export_rows(), k) == Some(reimported_state(s, k)),
    decreases k,
{
    let order = s.all_projects();
    let e = s.export_rows();
    if k == 0 {
        assert(renumbered_projects(order, 0) =~= Seq::<ProjectRow>::empty());
        assert(reimported_state(s, 0) == DbState::empty());
    } else {
        let j = (k - 1) as nat;
        lemma_import_prefix_of_export(s, j);
        let prev = reimported_state(s, j);
        let p = order[j as int];
        let pid = k as i64;
        let s1 = DbState { projects: prev.projects.push(ProjectRow { id: pid, ..p }), project_seq: pid, ..prev };
        assert(e.projects[j as int] == p);
        lemma_task_blocks_len(s, order, j);
        lemma_task_blocks_len(s, order, k);
        lemma_log_blocks_len(s, order, j);
        lemma_log_blocks_len(s, order, k);
        assert(order.take(order.len() as int) =~= order);
        let tb = s.project_tasks(p.id);
        let lb = s.project_logs(p.id);
        lemma_import_tasks_of_block(s, s1, j as int, order.len());
        let s2 = DbState {
            tasks: s1.tasks + renumbered_tasks(tb, s1.task_seq + 1, pid),
            task_seq: (s1.task_seq + tb.len()) as i64,
            ..s1
        };
        lemma_import_logs_of_block(s, s2, j as int, order.len());
        let s3 = DbState {
            logs: s2.logs + renumbered_logs(lb, s2.log_seq + 1, pid),
            log_seq: (s2.log_seq + lb.len()) as i64,
            ..s2
        };
        assert(s3.projects =~= renumbered_projects(order, k));
        assert(s3.tasks =~= reimported_tasks(s, order, k));
        assert(s3.logs =~= reimported_logs(s, order, k));
        assert(s3 == reimported_state(s, k));
    }
}

proof fn lemma_tasks_in_order_contains(s: DbState, order: Seq<ProjectRow>, t: TaskRow)
    requires
        s.wf(),
    ensures
        tasks_in_project_order(s, order).contains(t) <==> (s.tasks.contains(t) && exists|i: int|
            0 <= i < order.len() && (#[trigger] order[i]).id == t.project_id),
    decreases order.len(),
{
    if order.len() > 0 {
        let r = order.drop_last();
        lemma_tasks_in_order_contains(s, r, t);
        crate::laws::law_project_tasks(s, order.last().id);
        let a = tasks_in_project_order(s, r);
        let b = s.project_tasks(order.last().id);
        assert(tasks_in_project_order(s, order) == a + b);
        if (a + b).contains(t) {
            let j = choose|j: int| 0 <= j < (a + b).len() && (a + b)[j] == t;
            if j < a.len() {
                assert(a[j] == t);
                assert(a.contains(t));
                let i = choose|i: int| 0 <= i < r.len() && (#[trigger] r[i]).id == t.project_id;
                assert(order[i] == r[i]);
                assert(exists|i: int| 0 <= i < order.len() && (#[trigger] order[i]).id == t.project_id);
            } else {
                assert(b[j - a.len()] == t);
                assert(b.contains(t));
                assert(order[order.len() - 1] == order.last());
                assert(exists|i: int| 0 <= i < order.len() && (#[trigger] order[i]).id == t.project_id);
            }
            assert(s.tasks.contains(t));
        }
        if s.tasks.contains(t) && exists|i: int| 0 <= i < order.len() && (#[trigger] order[i]).id == t.project_id {
            let i = choose|i: int| 0 <= i < order.len() && (#[trigger] order[i]).id == t.project_id;
            if i < r.len() {
                assert(r[i] == order[i]);
                let j = choose|j: int| 0 <= j < a.len() && a[j] == t;
                assert((a + b)[j] == t);
            } else {
                assert(order[i] == order.last());
                assert(b.contains(t));
                let j = choose|j: int| 0 <= j < b.len() && b[j] == t;
                assert((a + b)[a.len() + j] == t);
            }
        }
    } else {
        assert(tasks_in_project_order(s, order) =~= Seq::empty());
    }
}

proof fn lemma_logs_in_order_contains(s: DbState, order: Seq<ProjectRow>, l: LogRow)
    requires
        s.wf(),
    ensures
        logs_in_project_order(s, order).contains(l) <==> (s.logs.contains(l) && exists|i: int|
            0 <= i < order.len() && (#[trigger] order[i]).id == l.project_id),
    decreases order.len(),
{
    if order.len() > 0 {
        let r = order.drop_last();
        lemma_logs_in_order_contains(s, r, l);
        crate::scope::law_project_logs(s, order.last().id);
        let a = logs_in_project_order(s, r);
        let b = s.project_logs(order.last().id);
        assert(logs_in_project_order(s, order) == a + b);
        if (a + b).contains(l) {
            let j = choose|j: int| 0 <= j < (a + b).len() && (a + b)[j] == l;
            if j < a.len() {
                assert(a[j] == l);
                assert(a.contains(l));
                let i = choose|i: int| 0 <= i < r.len() && (#[trigger] r[i]).id == l.project_id;
                assert(order[i] == r[i]);
                assert(exists|i: int| 0 <= i < order.len() && (#[trigger] order[i]).id == l.project_id);
            } else {
                assert(b[j - a.len()] == l);
                assert(b.contains(l));
                assert(order[order.len() - 1] == order.last());
                assert(exists|i: int| 0 <= i < order.len() && (#[trigger] order[i]).id == l.project_id);
            }
            assert(s.logs.contains(l));
        }
        if s.logs.contains(l) && exists|i: int| 0 <= i < order.len() && (#[trigger] order[i]).id == l.project_id {
            let i = choose|i: int| 0 <= i < order.len() && (#[trigger] order[i]).id == l.project_id;
            if i < r.len() {
                assert(r[i] == order[i]);
                let j = choose|j: int| 0 <= j < a.len() && a[j] == l;
                assert((a + b)[j] == l);
            } else {
                assert(order[i] == order.last());
                assert(b.contains(l));
                let j = choose|j: int| 0 <= j < b.len() && b[j] == l;
                assert((a + b)[a.len() + j] == l);
            }
        }
    } else {
        assert(logs_in_project_order(s, order) =~= Seq::empty());
    }
}

/// An export holds everything in the store: every project, archived ones
/// too, every task and every log entry, and nothing else.
pub proof fn law_export_holds_everything(s: DbState)
    requires
        s.wf(),
    ensures
        forall|p: ProjectRow| #[trigger] s.export_rows().projects.contains(p) <==> s.projects.contains(p),
        forall|t: TaskRow| #[trigger] s.export_rows().tasks.contains(t) <==> s.tasks.contains(t),
        forall|l: LogRow| #[trigger] s.export_rows().logs.contains(l) <==> s.logs.contains(l),
{
    let order = s.all_projects();
    crate::laws::law_all_projects(s);
    assert forall|t: TaskRow| #[trigger] s.export_rows().tasks.contains(t) <==> s.tasks.contains(t) by {
        lemma_tasks_in_order_contains(s, order, t);
        if s.tasks.contains(t) {
            let k = choose|k: int| 0 <= k < s.tasks.len() && s.tasks[k] == t;
            assert(crate::state::has_project(s.projects, s.tasks[k].project_id));
            let m = choose|m: int| 0 <= m < s.projects.len() && (#[trigger] s.projects[m]).id == t.project_id;
            assert(s.projects.contains(s.projects[m]));
            assert(order.contains(s.projects[m]));
            let i = choose|i: int| 0 <= i < order.len() && order[i] == s.projects[m];
            assert(order[i].id == t.project_id);
        }
    }
    assert forall|l: LogRow| #[trigger] s.export_rows().logs.contains(l) <==> s.logs.contains(l) by {
        lemma_logs_in_order_contains(s, order, l);
        if s.logs.contains(l) {
            let k = choose|k: int| 0 <= k < s.logs.len() && s.logs[k] == l;
            assert(crate::state::has_project(s.projects, s.logs[k].project_id));
            let m = choose|m: int| 0 <= m < s.projects.len() && (#[trigger] s.projects[m]).id == l.project_id;
            assert(s.projects.contains(s.projects[m]));
            assert(order.contains(s.projects[m]));
            let i = choose|i: int| 0 <= i < order.len() && order[i] == s.projects[m];
            assert(order[i].id == l.project_id);
        }
    }
}

/// Importing what a store exported into an empty store gives back every
/// project in export order (most recently updated first), numbered from 1
/// and with all of its other fields; after them, project by project, the
/// project's tasks in its listing order and then its log entries newest
/// first, each with all of its fields but the ids, filed under the
/// project's new number and numbered in turn. Ids are machine integers, so
/// this holds where the exported tables fit in them.
pub proof fn law_import_of_export_reproduces(s: DbState)
    requires
        s.wf(),
        s.export_rows().projects.len() <= i64::MAX,
        s.export_rows().tasks.len() <= i64::MAX,
        s.export_rows().logs.len() <= i64::MAX,
    ensures
        imported(DbState::empty(), s.export_rows()) == Some(reimported_state(s, s.all_projects().len())),
{
    lemma_import_prefix_of_export(s, s.all_projects().len());
}

} // verus!
