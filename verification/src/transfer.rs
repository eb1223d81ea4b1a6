//! Writing everything out, and reading exported data back in.
use crate::db::{get_all_projects_including_archived, get_logs_for_project, get_tasks_for_project, Database};
use crate::records::{log_rows, project_rows, task_rows, ExportData, ExportRows, LogRow, ProjectRow, TaskRow};
use crate::state::{logs_in_project_order, tasks_in_project_order, DbState};
use vstd::prelude::*;

verus! {

// ── Reading exported data back in ───────────────────────────

/// The task `t` of an exported project, filed under the project's new id
/// `pid` with id `id`; its description, status and creation time are kept.
pub open spec fn imported_task_row(id: i64, pid: i64, t: TaskRow) -> TaskRow {
    TaskRow { id, project_id: pid, description: t.description, status: t.status, created_at: t.created_at }
}

/// The log entry `l` of an exported project, filed under the project's new
/// id `pid` with id `id`; its date, notes, next action and creation time are
/// kept.
pub open spec fn imported_log_row(id: i64, pid: i64, l: LogRow) -> LogRow {
    LogRow {
        id,
        project_id: pid,
        date: l.date,
        notes: l.notes,
        next_action: l.next_action,
        created_at: l.created_at,
    }
}

/// The tasks among `ts` that belonged to exported project `old_pid`, added
/// in order under its new id `pid`; `None` when task ids run out.
pub open spec fn import_tasks(s: DbState, ts: Seq<TaskRow>, old_pid: i64, pid: i64) -> Option<
    DbState,
>
    decreases ts.len(),
{
    if ts.len() == 0 {
        Some(s)
    } else {
        match import_tasks(s, ts.drop_last(), old_pid, pid) {
            None => None,
            Some(s1) => if ts.last().project_id != old_pid {
                Some(s1)
            } else if s1.task_seq == i64::MAX {
                None
            } else {
                let id = (s1.task_seq + 1) as i64;
                Some(
                    DbState {
                        tasks: s1.tasks.push(imported_task_row(id, pid, ts.last())),
                        task_seq: id,
                        ..s1
                    },
                )
            },
        }
    }
}

/// The log entries among `ls` that belonged to exported project `old_pid`,
/// added in order under its new id `pid`; `None` when log ids run out.
pub open spec fn import_logs(s: DbState, ls: Seq<LogRow>, old_pid: i64, pid: i64) -> Option<DbState>
    decreases ls.len(),
{
    if ls.len() == 0 {
        Some(s)
    } else {
        match import_logs(s, ls.drop_last(), old_pid, pid) {
            None => None,
            Some(s1) => if ls.last().project_id != old_pid {
                Some(s1)
            } else if s1.log_seq == i64::MAX {
                None
            } else {
                let id = (s1.log_seq + 1) as i64;
                Some(
                    DbState {
                        logs: s1.logs.push(imported_log_row(id, pid, ls.last())),
                        log_seq: id,
                        ..s1
                    },
                )
            },
        }
    }
}

/// Exported project `p` added under the next project id with all of its
/// fields but the id, followed by its tasks and then its log entries.
pub open spec fn import_project(s: DbState, p: ProjectRow, data: ExportRows) -> Option<DbState> {
    if s.project_seq == i64::MAX {
        None
    } else {
        let pid = (s.project_seq + 1) as i64;
        let s1 = DbState { projects: s.projects.push(ProjectRow { id: pid, ..p }), project_seq: pid, ..s };
        match import_tasks(s1, data.tasks, p.id, pid) {
            None => None,
            Some(s2) => import_logs(s2, data.logs, p.id, pid),
        }
    }
}

/// The first `k` exported projects imported one after the other.
pub open spec fn import_prefix(s: DbState, data: ExportRows, k: nat) -> Option<DbState>
    decreases k,
{
    if k == 0 {
        Some(s)
    } else {
        match import_prefix(s, data, (k - 1) as nat) {
            None => None,
            Some(s1) => import_project(s1, data.projects[k - 1], data),
        }
    }
}

/// All exported projects, with their tasks and log entries, added to `s`;
/// `None` when ids run out on the way.
pub open spec fn imported(s: DbState, data: ExportRows) -> Option<DbState> {
    import_prefix(s, data, data.projects.len())
}

/// Once importing has failed, importing more fails too.
pub proof fn lemma_import_prefix_stays_failed(s: DbState, data: ExportRows, j: nat, k: nat)
    requires
        j <= k,
        import_prefix(s, data, j) is None,
    ensures
        import_prefix(s, data, k) is None,
    decreases k - j,
{
    if j < k {
        lemma_import_prefix_stays_failed(s, data, j, (k - 1) as nat);
    }
}

/// Once adding tasks has failed, adding more fails too.
pub proof fn lemma_import_tasks_stays_failed(s: DbState, ts: Seq<TaskRow>, old_pid: i64, pid: i64, j: int)
    requires
        0 <= j <= ts.len(),
        import_tasks(s, ts.take(j), old_pid, pid) is None,
    ensures
        import_tasks(s, ts, old_pid, pid) is None,
    decreases ts.len() - j,
{
    if j < ts.len() {
        assert(ts.take(j + 1).drop_last() =~= ts.take(j));
        lemma_import_tasks_stays_failed(s, ts, old_pid, pid, j + 1);
    } else {
        assert(ts.take(j) =~= ts);
    }
}

/// Once adding log entries has failed, adding more fails too.
pub proof fn lemma_import_logs_stays_failed(s: DbState, ls: Seq<LogRow>, old_pid: i64, pid: i64, j: int)
    requires
        0 <= j <= ls.len(),
        import_logs(s, ls.take(j), old_pid, pid) is None,
    ensures
        import_logs(s, ls, old_pid, pid) is None,
    decreases ls.len() - j,
{
    if j < ls.len() {
        assert(ls.take(j + 1).drop_last() =~= ls.take(j));
        lemma_import_logs_stays_failed(s, ls, old_pid, pid, j + 1);
    } else {
        assert(ls.take(j) =~= ls);
    }
}

/// Whether `t` holds every task and log entry of `s` where `s` had it,
/// any others coming after them.
pub open spec fn keeps_rows_of(s: DbState, t: DbState) -> bool {
    &&& s.tasks.len() <= t.tasks.len()
    &&& forall|k: int| 0 <= k < s.tasks.len() ==> #[trigger] t.tasks[k] == s.tasks[k]
    &&& s.logs.len() <= t.logs.len()
    &&& forall|k: int| 0 <= k < s.logs.len() ==> #[trigger] t.logs[k] == s.logs[k]
}

proof fn lemma_import_tasks_keeps(s: DbState, ts: Seq<TaskRow>, old_pid: i64, pid: i64)
    requires
        import_tasks(s, ts, old_pid, pid) is Some,
    ensures
        keeps_rows_of(s, import_tasks(s, ts, old_pid, pid).unwrap()),
        import_tasks(s, ts, old_pid, pid).unwrap().projects == s.projects,
        import_tasks(s, ts, old_pid, pid).unwrap().project_seq == s.project_seq,
    decreases ts.len(),
{
    if ts.len() > 0 {
        lemma_import_tasks_keeps(s, ts.drop_last(), old_pid, pid);
    }
}

proof fn lemma_import_logs_keeps(s: DbState, ls: Seq<LogRow>, old_pid: i64, pid: i64)
    requires
        import_logs(s, ls, old_pid, pid) is Some,
    ensures
        keeps_rows_of(s, import_logs(s, ls, old_pid, pid).unwrap()),
        import_logs(s, ls, old_pid, pid).unwrap().projects == s.projects,
        import_logs(s, ls, old_pid, pid).unwrap().project_seq == s.project_seq,
    decreases ls.len(),
{
    if ls.len() > 0 {
        lemma_import_logs_keeps(s, ls.drop_last(), old_pid, pid);
    }
}

proof fn lemma_import_prefix_adds(s: DbState, data: ExportRows, k: nat)
    requires
        k <= data.projects.len(),
        import_prefix(s, data, k) is Some,
    ensures
        keeps_rows_of(s, import_prefix(s, data, k).unwrap()),
        import_prefix(s, data, k).unwrap().projects.len() == s.projects.len() + k,
        import_prefix(s, data, k).unwrap().project_seq == s.project_seq + k,
        forall|j: int| 0 <= j < s.projects.len() ==> #[trigger] import_prefix(s, data, k).unwrap().projects[j] == s.projects[j],
        forall|j: int| 0 <= j < k ==> #[trigger] import_prefix(s, data, k).unwrap().projects[s.projects.len() + j] == (ProjectRow {
            id: (s.project_seq + j + 1) as i64,
            ..data.projects[j]
        }),
    decreases k,
{
    if k > 0 {
        let k1 = (k - 1) as nat;
        lemma_import_prefix_adds(s, data, k1);
        let s1 = import_prefix(s, data, k1).unwrap();
        let p = data.projects[k - 1];
        let pid = (s1.project_seq + 1) as i64;
        let s2 = DbState { projects: s1.projects.push(ProjectRow { id: pid, ..p }), project_seq: pid, ..s1 };
        lemma_import_tasks_keeps(s2, data.tasks, p.id, pid);
        let s3 = import_tasks(s2, data.tasks, p.id, pid).unwrap();
        lemma_import_logs_keeps(s3, data.logs, p.id, pid);
        let t = import_prefix(s, data, k).unwrap();
        assert(t.projects == s1.projects.push(ProjectRow { id: pid, ..p }));
    }
}

/// Whether task `x` carries the description, status and creation time of
/// exported task `d`.
pub open spec fn copies_task(x: TaskRow, d: TaskRow) -> bool {
    x.description == d.description && x.status == d.status && x.created_at == d.created_at
}

/// Whether log entry `x` carries the date, notes, next action and creation
/// time of exported entry `d`.
pub open spec fn copies_log(x: LogRow, d: LogRow) -> bool {
    x.date == d.date && x.notes == d.notes && x.next_action == d.next_action && x.created_at == d.created_at
}

/// Whether task `x` copies an exported task of the `j`-th exported project,
/// for some `j < n`, filed under that project's new id.
pub open spec fn task_from_export(s: DbState, data: ExportRows, n: int, x: TaskRow) -> bool {
    exists|j: int, m: int|
        #![trigger data.projects[j], data.tasks[m]]
        0 <= j < n && 0 <= m < data.tasks.len() && data.tasks[m].project_id == data.projects[j].id
            && x.project_id == s.project_seq + j + 1 && copies_task(x, data.tasks[m])
}

/// Whether log entry `x` copies an exported entry of the `j`-th exported
/// project, for some `j < n`, filed under that project's new id.
pub open spec fn log_from_export(s: DbState, data: ExportRows, n: int, x: LogRow) -> bool {
    exists|j: int, m: int|
        #![trigger data.projects[j], data.logs[m]]
        0 <= j < n && 0 <= m < data.logs.len() && data.logs[m].project_id == data.projects[j].id
            && x.project_id == s.project_seq + j + 1 && copies_log(x, data.logs[m])
}

proof fn lemma_import_tasks_from(s: DbState, ts: Seq<TaskRow>, old_pid: i64, pid: i64)
    requires
        import_tasks(s, ts, old_pid, pid) is Some,
    ensures
        forall|k: int|
            s.tasks.len() <= k < import_tasks(s, ts, old_pid, pid).unwrap().tasks.len() ==> {
                let x = #[trigger] import_tasks(s, ts, old_pid, pid).unwrap().tasks[k];
                &&& x.project_id == pid
                &&& exists|m: int| 0 <= m < ts.len() && (#[trigger] ts[m]).project_id == old_pid && copies_task(x, ts[m])
            },
        import_tasks(s, ts, old_pid, pid).unwrap().logs == s.logs,
    decreases ts.len(),
{
    if ts.len() > 0 {
        let r = ts.drop_last();
        lemma_import_tasks_from(s, r, old_pid, pid);
        lemma_import_tasks_keeps(s, r, old_pid, pid);
        let s1 = import_tasks(s, r, old_pid, pid).unwrap();
        let t = import_tasks(s, ts, old_pid, pid).unwrap();
        assert forall|k: int| s.tasks.len() <= k < t.tasks.len() implies {
            let x = #[trigger] t.tasks[k];
            &&& x.project_id == pid
            &&& exists|m: int| 0 <= m < ts.len() && (#[trigger] ts[m]).project_id == old_pid && copies_task(x, ts[m])
        } by {
            if k < s1.tasks.len() {
                assert(t.tasks[k] == s1.tasks[k]);
                let m = choose|m: int| 0 <= m < r.len() && (#[trigger] r[m]).project_id == old_pid && copies_task(s1.tasks[k], r[m]);
                assert(ts[m] == r[m]);
            } else {
                assert(ts[ts.len() - 1] == ts.last());
            }
        }
    }
}

proof fn lemma_import_logs_from(s: DbState, ls: Seq<LogRow>, old_pid: i64, pid: i64)
    requires
        import_logs(s, ls, old_pid, pid) is Some,
    ensures
        forall|k: int|
            s.logs.len() <= k < import_logs(s, ls, old_pid, pid).unwrap().logs.len() ==> {
                let x = #[trigger] import_logs(s, ls, old_pid, pid).unwrap().logs[k];
                &&& x.project_id == pid
                &&& exists|m: int| 0 <= m < ls.len() && (#[trigger] ls[m]).project_id == old_pid && copies_log(x, ls[m])
            },
        import_logs(s, ls, old_pid, pid).unwrap().tasks == s.tasks,
    decreases ls.len(),
{
    if ls.len() > 0 {
        let r = ls.drop_last();
        lemma_import_logs_from(s, r, old_pid, pid);
        lemma_import_logs_keeps(s, r, old_pid, pid);
        let s1 = import_logs(s, r, old_pid, pid).unwrap();
        let t = import_logs(s, ls, old_pid, pid).unwrap();
        assert forall|k: int| s.logs.len() <= k < t.logs.len() implies {
            let x = #[trigger] t.logs[k];
            &&& x.project_id == pid
            &&& exists|m: int| 0 <= m < ls.len() && (#[trigger] ls[m]).project_id == old_pid && copies_log(x, ls[m])
        } by {
            if k < s1.logs.len() {
                assert(t.logs[k] == s1.logs[k]);
                let m = choose|m: int| 0 <= m < r.len() && (#[trigger] r[m]).project_id == old_pid && copies_log(s1.logs[k], r[m]);
                assert(ls[m] == r[m]);
            } else {
                assert(ls[ls.len() - 1] == ls.last());
            }
        }
    }
}

proof fn lemma_import_prefix_from(s: DbState, data: ExportRows, k: nat)
    requires
        k <= data.projects.len(),
        import_prefix(s, data, k) is Some,
    ensures
        forall|i: int|
            s.tasks.len() <= i < import_prefix(s, data, k).unwrap().tasks.len() ==> task_from_export(
                s,
                data,
                k as int,
                #[trigger] import_prefix(s, data, k).unwrap().tasks[i],
            ),
        forall|i: int|
            s.logs.len() <= i < import_prefix(s, data, k).unwrap().logs.len() ==> log_from_export(
                s,
                data,
                k as int,
                #[trigger] import_prefix(s, data, k).unwrap().logs[i],
            ),
    decreases k,
{
    if k > 0 {
        let k1 = (k - 1) as nat;
        lemma_import_prefix_from(s, data, k1);
        lemma_import_prefix_adds(s, data, k1);
        let s1 = import_prefix(s, data, k1).unwrap();
        let p = data.projects[k - 1];
        let pid = (s1.project_seq + 1) as i64;
        let s2 = DbState { projects: s1.projects.push(ProjectRow { id: pid, ..p }), project_seq: pid, ..s1 };
        lemma_import_tasks_keeps(s2, data.tasks, p.id, pid);
        lemma_import_tasks_from(s2, data.tasks, p.id, pid);
        let s3 = import_tasks(s2, data.tasks, p.id, pid).unwrap();
        lemma_import_logs_keeps(s3, data.logs, p.id, pid);
        lemma_import_logs_from(s3, data.logs, p.id, pid);
        let t = import_prefix(s, data, k).unwrap();
        assert(t == import_logs(s3, data.logs, p.id, pid).unwrap());
        assert forall|i: int| s.tasks.len() <= i < t.tasks.len() implies task_from_export(s, data, k as int, #[trigger] t.tasks[i]) by {
            assert(t.tasks == s3.tasks);
            if i < s1.tasks.len() {
                assert(t.tasks[i] == s1.tasks[i]);
                assert(task_from_export(s, data, k1 as int, s1.tasks[i]));
                let (j, m) = choose|j: int, m: int|
                    #![trigger data.projects[j], data.tasks[m]]
                    0 <= j < k1 && 0 <= m < data.tasks.len() && data.tasks[m].project_id == data.projects[j].id
                        && s1.tasks[i].project_id == s.project_seq + j + 1 && copies_task(s1.tasks[i], data.tasks[m]);
                assert(data.projects[j] == data.projects[j] && data.tasks[m] == data.tasks[m]);
            } else {
                let x = t.tasks[i];
                let m = choose|m: int| 0 <= m < data.tasks.len() && (#[trigger] data.tasks[m]).project_id == p.id && copies_task(x, data.tasks[m]);
                let j = k - 1;
                assert(data.projects[j] == p);
                assert(data.tasks[m] == data.tasks[m]);
            }
        }
        assert forall|i: int| s.logs.len() <= i < t.logs.len() implies log_from_export(s, data, k as int, #[trigger] t.logs[i]) by {
            if i < s1.logs.len() {
                assert(t.logs[i] == s1.logs[i]);
                assert(log_from_export(s, data, k1 as int, s1.logs[i]));
                let (j, m) = choose|j: int, m: int|
                    #![trigger data.projects[j], data.logs[m]]
                    0 <= j < k1 && 0 <= m < data.logs.len() && data.logs[m].project_id == data.projects[j].id
                        && s1.logs[i].project_id == s.project_seq + j + 1 && copies_log(s1.logs[i], data.logs[m]);
                assert(data.projects[j] == data.projects[j] && data.logs[m] == data.logs[m]);
            } else {
                let x = t.logs[i];
                let m = choose|m: int| 0 <= m < data.logs.len() && (#[trigger] data.logs[m]).project_id == p.id && copies_log(x, data.logs[m]);
                let j = k - 1;
                assert(data.projects[j] == p);
                assert(data.logs[m] == data.logs[m]);
            }
        }
    }
}

/// Importing adds and never replaces: every project, task and log entry
/// that was there stays where it was, and the exported projects follow,
/// in the order given, each with all of its fields but the id, numbered
/// on from the last project id handed out; every task and log entry added
/// is a copy of an exported one of an exported project, filed under that
/// project's new id.
pub proof fn law_import_adds(s: DbState, data: ExportRows)
    requires
        imported(s, data) is Some,
    ensures
        imported(s, data).unwrap().projects.len() == s.projects.len() + data.projects.len(),
        forall|j: int| 0 <= j < s.projects.len() ==> #[trigger] imported(s, data).unwrap().projects[j] == s.projects[j],
        forall|j: int| 0 <= j < data.projects.len() ==> #[trigger] imported(s, data).unwrap().projects[s.projects.len() + j] == (ProjectRow {
            id: (s.project_seq + j + 1) as i64,
            ..data.projects[j]
        }),
        s.tasks.len() <= imported(s, data).unwrap().tasks.len(),
        forall|k: int| 0 <= k < s.tasks.len() ==> #[trigger] imported(s, data).unwrap().tasks[k] == s.tasks[k],
        s.logs.len() <= imported(s, data).unwrap().logs.len(),
        forall|k: int| 0 <= k < s.logs.len() ==> #[trigger] imported(s, data).unwrap().logs[k] == s.logs[k],
        forall|k: int|
            s.tasks.len() <= k < imported(s, data).unwrap().tasks.len() ==> task_from_export(
                s,
                data,
                data.projects.len() as int,
                #[trigger] imported(s, data).unwrap().tasks[k],
            ),
        forall|k: int|
            s.logs.len() <= k < imported(s, data).unwrap().logs.len() ==> log_from_export(
                s,
                data,
                data.projects.len() as int,
                #[trigger] imported(s, data).unwrap().logs[k],
            ),
{
    lemma_import_prefix_adds(s, data, data.projects.len());
    lemma_import_prefix_from(s, data, data.projects.len());
}

// ── Writing everything out ──────────────────────────────────

/// Everything in the store: all projects, archived ones too, most recently
/// updated first; then the tasks of each project in that order, by status
/// and age; then the log entries of each project in that order, newest
/// first.
pub fn export_data(db: &Database) -> (r: ExportData)
    requires
        db@.wf(),
    ensures
        r@ == db@.export_rows(),
{
    let ghost s = db@;
    let projects = match get_all_projects_including_archived(db) {
        Ok(v) => v,
        Err(_) => Vec::new(),
    };
    let ghost order = project_rows(projects@);
    let mut tasks: Vec<crate::records::Task> = Vec::new();
    let mut logs: Vec<crate::records::Log> = Vec::new();
    let mut i: usize = 0;
    while i < projects.len()
        invariant
            i <= projects.len(),
            s == db@,
            s.wf(),
            order == project_rows(projects@),
            order == s.all_projects(),
            task_rows(tasks@) == tasks_in_project_order(s, order.take(i as int)),
            log_rows(logs@) == logs_in_project_order(s, order.take(i as int)),
        decreases projects.len() - i,
    {
        let pid = projects[i].id;
        proof {
            assert(order.take(i + 1).drop_last() =~= order.take(i as int));
            assert(order.take(i + 1).last() == order[i as int]);
        }
        let mut pt = match get_tasks_for_project(db, pid) {
            Ok(v) => v,
            Err(_) => Vec::new(),
        };
        let mut pl = match get_logs_for_project(db, pid) {
            Ok(v) => v,
            Err(_) => Vec::new(),
        };
        let ghost prev_tasks = tasks@;
        let ghost prev_logs = logs@;
        let ghost new_tasks = pt@;
        let ghost new_logs = pl@;
        tasks.append(&mut pt);
        logs.append(&mut pl);
        proof {
            assert(task_rows(tasks@) =~= task_rows(prev_tasks) + task_rows(new_tasks));
            assert(log_rows(logs@) =~= log_rows(prev_logs) + log_rows(new_logs));
        }
        i = i + 1;
    }
    proof {
        assert(order.take(projects.len() as int) =~= order);
    }
    ExportData { projects, tasks, logs }
}

} // verus!
