//! The tracker's store and its operations on projects, tasks and logs.
use crate::invariants::{lemma_without_log_wf, lemma_without_project_wf, lemma_without_task_rows_wf};
use crate::order::lemma_insert_ordered_at;
use crate::records::{log_rows, project_rows, task_rows, Log, Project, ProjectRow, Task, TaskRow};
use crate::state::{
    archived_project, by_recency, by_status_and_age, edited_project, find_project, find_task,
    has_project, is_listed, listed, log_id_other_than, log_ids_ascending, log_not_of, log_of,
    project_id_other_than, project_ids_ascending, project_is_live, recency_before, task_before, task_id_other_than,
    task_ids_ascending, task_not_of, task_of, toggled_task, touched_project, DbError,
    DbState,
};
use crate::text::{chars_of, text_equal, text_less};
use crate::records::ExportData;
use crate::transfer::{
    import_logs, import_prefix, import_project, import_tasks, imported, imported_log_row,
    imported_task_row, lemma_import_logs_stays_failed, lemma_import_prefix_stays_failed,
    lemma_import_tasks_stays_failed,
};
use vstd::prelude::*;

verus! {

/// The tracker's store: projects, tasks and log entries, each table in
/// ascending id order, with the largest id each has handed out.
pub struct Database {
    projects: Vec<Project>,
    tasks: Vec<Task>,
    logs: Vec<Log>,
    project_seq: i64,
    task_seq: i64,
    log_seq: i64,
}

impl View for Database {
    type V = DbState;

    closed spec fn view(&self) -> DbState {
        DbState {
            projects: project_rows(self.projects@),
            tasks: task_rows(self.tasks@),
            logs: log_rows(self.logs@),
            project_seq: self.project_seq,
            task_seq: self.task_seq,
            log_seq: self.log_seq,
        }
    }
}

// ── Facts about lookups ─────────────────────────────────────

/// In a table in ascending id order, looking up the id of row `k` finds row `k`.
pub proof fn lemma_find_project_at(rows: Seq<ProjectRow>, k: int)
    requires
        project_ids_ascending(rows),
        0 <= k < rows.len(),
    ensures
        find_project(rows, rows[k].id) == Some(rows[k]),
    decreases rows.len(),
{
    if k > 0 {
        assert(rows[0].id < rows[k].id);
        assert(rows.drop_first()[k - 1] == rows[k]);
        lemma_find_project_at(rows.drop_first(), k - 1);
    }
}

/// Looking up an id finds nothing exactly when no row has it.
pub proof fn lemma_find_project_none(rows: Seq<ProjectRow>, id: i64)
    ensures
        find_project(rows, id) is None <==> !has_project(rows, id),
        find_project(rows, id) matches Some(p) ==> p.id == id,
    decreases rows.len(),
{
    if rows.len() > 0 {
        lemma_find_project_none(rows.drop_first(), id);
        if rows[0].id != id {
            if has_project(rows, id) {
                let k = choose|k: int| 0 <= k < rows.len() && (#[trigger] rows[k]).id == id;
                assert(rows.drop_first()[k - 1] == rows[k]);
            }
            if has_project(rows.drop_first(), id) {
                let k = choose|k: int|
                    0 <= k < rows.drop_first().len() && (#[trigger] rows.drop_first()[k]).id == id;
                assert(rows[k + 1] == rows.drop_first()[k]);
            }
        } else {
            assert(rows[0].id == id);
        }
    }
}

/// In a table in ascending id order, looking up the id of row `k` finds row `k`.
pub proof fn lemma_find_task_at(rows: Seq<TaskRow>, k: int)
    requires
        task_ids_ascending(rows),
        0 <= k < rows.len(),
    ensures
        find_task(rows, rows[k].id) == Some(rows[k]),
    decreases rows.len(),
{
    if k > 0 {
        assert(rows[0].id < rows[k].id);
        assert(rows.drop_first()[k - 1] == rows[k]);
        lemma_find_task_at(rows.drop_first(), k - 1);
    }
}

/// Looking up a task id finds nothing exactly when no task has it.
pub proof fn lemma_find_task_none(rows: Seq<TaskRow>, id: i64)
    ensures
        find_task(rows, id) is None <==> forall|k: int| 0 <= k < rows.len() ==> (#[trigger] rows[k]).id != id,
        find_task(rows, id) matches Some(t) ==> t.id == id,
    decreases rows.len(),
{
    if rows.len() > 0 {
        lemma_find_task_none(rows.drop_first(), id);
        if rows[0].id != id {
            assert forall|k: int| 1 <= k < rows.len() implies (#[trigger] rows[k]).id == rows.drop_first()[k - 1].id by {}
        }
    }
}

/// Rewriting projects without touching their ids keeps which ids exist,
/// their order and their bounds.
proof fn lemma_same_project_ids(old: Seq<ProjectRow>, new: Seq<ProjectRow>, seq: i64)
    requires
        old.len() == new.len(),
        forall|k: int| 0 <= k < old.len() ==> (#[trigger] new[k]).id == old[k].id,
        project_ids_ascending(old),
        forall|i: int| 0 <= i < old.len() ==> 1 <= (#[trigger] old[i]).id <= seq,
    ensures
        project_ids_ascending(new),
        forall|i: int| 0 <= i < new.len() ==> 1 <= (#[trigger] new[i]).id <= seq,
        forall|id: i64| #[trigger] has_project(new, id) == has_project(old, id),
{
    assert forall|i: int, j: int| 0 <= i < j < new.len() implies (#[trigger] new[i]).id < (
    #[trigger] new[j]).id by {
        assert(old[i].id < old[j].id);
    }
    assert forall|i: int| 0 <= i < new.len() implies 1 <= (#[trigger] new[i]).id <= seq by {
        assert(1 <= old[i].id <= seq);
    }
    assert forall|id: i64| #[trigger] has_project(new, id) == has_project(old, id) by {
        if has_project(new, id) {
            let k = choose|k: int| 0 <= k < new.len() && (#[trigger] new[k]).id == id;
            assert(old[k].id == id);
        }
        if has_project(old, id) {
            let k = choose|k: int| 0 <= k < old.len() && (#[trigger] old[k]).id == id;
            assert(new[k].id == id);
        }
    }
}

fn text_of(s: &str) -> (r: String)
    ensures
        r@ == s@,
{
    s.to_owned()
}

impl Database {
    /// An empty store.
    pub fn new() -> (db: Database)
        ensures
            db@ == DbState::empty(),
            db@.wf(),
    {
        let db = Database {
            projects: Vec::new(),
            tasks: Vec::new(),
            logs: Vec::new(),
            project_seq: 0,
            task_seq: 0,
            log_seq: 0,
        };
        assert(project_rows(db.projects@) =~= Seq::empty());
        assert(task_rows(db.tasks@) =~= Seq::empty());
        assert(log_rows(db.logs@) =~= Seq::empty());
        db
    }

    /// A store made of tables read back from where they were kept;
    /// `Inconsistent` unless they form a consistent state (each table in
    /// ascending id order, every id between 1 and its table's largest id
    /// handed out, every task and log entry belonging to a project).
    pub fn from_tables(
        projects: Vec<Project>,
        tasks: Vec<Task>,
        logs: Vec<Log>,
        project_seq: i64,
        task_seq: i64,
        log_seq: i64,
    ) -> (r: Result<Database, DbError>)
        ensures
            match r {
                Ok(db) => {
                    &&& db@.wf()
                    &&& db@ == DbState {
                        projects: project_rows(projects@),
                        tasks: task_rows(tasks@),
                        logs: log_rows(logs@),
                        project_seq,
                        task_seq,
                        log_seq,
                    }
                },
                Err(e) => {
                    &&& e == DbError::Inconsistent
                    &&& !(DbState {
                        projects: project_rows(projects@),
                        tasks: task_rows(tasks@),
                        logs: log_rows(logs@),
                        project_seq,
                        task_seq,
                        log_seq,
                    }).wf()
                },
            },
    {
        let db = Database { projects, tasks, logs, project_seq, task_seq, log_seq };
        if db.is_consistent() {
            Ok(db)
        } else {
            Err(DbError::Inconsistent)
        }
    }

    /// Whether the tables form a consistent state.
    fn is_consistent(&self) -> (ok: bool)
        ensures
            ok == self@.wf(),
    {
        let ghost st = self@;
        if self.project_seq < 0 || self.task_seq < 0 || self.log_seq < 0 {
            return false;
        }
        let n = self.projects.len();
        let mut i: usize = 0;
        while i < n
            invariant
                i <= n,
                st == self@,
                n == self.projects.len(),
                forall|a: int, b: int| 0 <= a < b < i ==> (#[trigger] self.projects@[a]).id < (#[trigger] self.projects@[b]).id,
                forall|a: int| 0 <= a < i ==> 1 <= (#[trigger] self.projects@[a]).id <= self.project_seq,
            decreases n - i,
        {
            let id = self.projects[i].id;
            if id < 1 || id > self.project_seq || (i > 0 && self.projects[i - 1].id >= id) {
                proof {
                    if i > 0 && self.projects@[i - 1].id >= id {
                        assert(!project_ids_ascending(self@.projects)) by {
                            assert(self@.projects[i - 1].id >= self@.projects[i as int].id);
                        }
                    } else {
                        assert(self@.projects[i as int].id == id);
                    }
                }
                return false;
            }
            proof {
                assert forall|a: int, b: int| 0 <= a < b < i + 1 implies (#[trigger] self.projects@[a]).id < (#[trigger] self.projects@[b]).id by {
                    if b == i && a < i - 1 {
                        assert(self.projects@[a].id < self.projects@[i - 1].id);
                    }
                }
            }
            i = i + 1;
        }
        let n = self.tasks.len();
        let mut i: usize = 0;
        while i < n
            invariant
                i <= n,
                st == self@,
                n == self.tasks.len(),
                project_ids_ascending(self@.projects),
                forall|a: int| 0 <= a < self.projects.len() ==> 1 <= (#[trigger] self.projects@[a]).id <= self.project_seq,
                forall|a: int, b: int| 0 <= a < b < i ==> (#[trigger] self.tasks@[a]).id < (#[trigger] self.tasks@[b]).id,
                forall|a: int| 0 <= a < i ==> 1 <= (#[trigger] self.tasks@[a]).id <= self.task_seq,
                forall|a: int| 0 <= a < i ==> has_project(self@.projects, (#[trigger] self.tasks@[a]).project_id),
            decreases n - i,
        {
            let id = self.tasks[i].id;
            let pos = self.project_position(self.tasks[i].project_id);
            let linked = pos.is_some();
            proof {
                if linked {
                    let k = pos.unwrap() as int;
                    assert(self@.projects[k].id == self@.tasks[i as int].project_id);
                    assert(has_project(self@.projects, self@.tasks[i as int].project_id));
                } else {
                    assert(!has_project(self@.projects, self@.tasks[i as int].project_id));
                }
            }
            if id < 1 || id > self.task_seq || (i > 0 && self.tasks[i - 1].id >= id) || !linked {
                proof {
                    if i > 0 && self.tasks@[i - 1].id >= id {
                        assert(!task_ids_ascending(self@.tasks)) by {
                            assert(self@.tasks[i - 1].id >= self@.tasks[i as int].id);
                        }
                    } else {
                        assert(self@.tasks[i as int].id == id);
                    }
                }
                return false;
            }
            proof {
                assert forall|a: int, b: int| 0 <= a < b < i + 1 implies (#[trigger] self.tasks@[a]).id < (#[trigger] self.tasks@[b]).id by {
                    if b == i && a < i - 1 {
                        assert(self.tasks@[a].id < self.tasks@[i - 1].id);
                    }
                }
                assert(self@.tasks[i as int].project_id == self.tasks@[i as int].project_id);
            }
            i = i + 1;
        }
        let n = self.logs.len();
        let mut i: usize = 0;
        while i < n
            invariant
                i <= n,
                st == self@,
                n == self.logs.len(),
                project_ids_ascending(self@.projects),
                forall|a: int| 0 <= a < self.projects.len() ==> 1 <= (#[trigger] self.projects@[a]).id <= self.project_seq,
                task_ids_ascending(self@.tasks),
                forall|a: int| 0 <= a < self.tasks.len() ==> 1 <= (#[trigger] self.tasks@[a]).id <= self.task_seq,
                forall|a: int| 0 <= a < self.tasks.len() ==> has_project(self@.projects, (#[trigger] self.tasks@[a]).project_id),
                forall|a: int, b: int| 0 <= a < b < i ==> (#[trigger] self.logs@[a]).id < (#[trigger] self.logs@[b]).id,
                forall|a: int| 0 <= a < i ==> 1 <= (#[trigger] self.logs@[a]).id <= self.log_seq,
                forall|a: int| 0 <= a < i ==> has_project(self@.projects, (#[trigger] self.logs@[a]).project_id),
            decreases n - i,
        {
            let id = self.logs[i].id;
            let pos = self.project_position(self.logs[i].project_id);
            let linked = pos.is_some();
            proof {
                if linked {
                    let k = pos.unwrap() as int;
                    assert(self@.projects[k].id == self@.logs[i as int].project_id);
                    assert(has_project(self@.projects, self@.logs[i as int].project_id));
                } else {
                    assert(!has_project(self@.projects, self@.logs[i as int].project_id));
                }
            }
            if id < 1 || id > self.log_seq || (i > 0 && self.logs[i - 1].id >= id) || !linked {
                proof {
                    if i > 0 && self.logs@[i - 1].id >= id {
                        assert(!log_ids_ascending(self@.logs)) by {
                            assert(self@.logs[i - 1].id >= self@.logs[i as int].id);
                        }
                    } else {
                        assert(self@.logs[i as int].id == id);
                    }
                }
                return false;
            }
            proof {
                assert forall|a: int, b: int| 0 <= a < b < i + 1 implies (#[trigger] self.logs@[a]).id < (#[trigger] self.logs@[b]).id by {
                    if b == i && a < i - 1 {
                        assert(self.logs@[a].id < self.logs@[i - 1].id);
                    }
                }
                assert(self@.logs[i as int].project_id == self.logs@[i as int].project_id);
            }
            i = i + 1;
        }
        true
    }

    /// The projects, in ascending id order.
    pub fn projects(&self) -> (r: &Vec<Project>)
        ensures
            project_rows(r@) == self@.projects,
    {
        &self.projects
    }

    /// The tasks, in ascending id order.
    pub fn tasks(&self) -> (r: &Vec<Task>)
        ensures
            task_rows(r@) == self@.tasks,
    {
        &self.tasks
    }

    /// The log entries, in ascending id order.
    pub fn logs(&self) -> (r: &Vec<Log>)
        ensures
            log_rows(r@) == self@.logs,
    {
        &self.logs
    }

    /// The largest project, task and log ids handed out so far.
    pub fn sequences(&self) -> (r: (i64, i64, i64))
        ensures
            r == (self@.project_seq, self@.task_seq, self@.log_seq),
    {
        (self.project_seq, self.task_seq, self.log_seq)
    }

    /// Whether project `id` exists and is not archived.
    pub fn project_is_live(&self, id: i64) -> (r: bool)
        requires
            self@.wf(),
        ensures
            r == project_is_live(self@.projects, id),
    {
        match self.project_position(id) {
            None => false,
            Some(i) => {
                let archived = archived_text();
                let live = !(self.projects[i].status == archived);
                proof {
                    let rows = self@.projects;
                    assert(rows[i as int].id == id);
                    if project_is_live(rows, id) {
                        let k = choose|k: int|
                            0 <= k < rows.len() && (#[trigger] rows[k]).id == id && is_listed(rows[k]);
                        if k < i {
                            assert(rows[k].id < rows[i as int].id);
                        } else if k > i {
                            assert(rows[i as int].id < rows[k].id);
                        }
                    }
                }
                live
            },
        }
    }

    /// The position of project `id`.
    fn project_position(&self, id: i64) -> (r: Option<usize>)
        ensures
            match r {
                Some(i) => i < self.projects.len() && self.projects@[i as int].id == id,
                None => !has_project(self@.projects, id),
            },
    {
        let mut i: usize = 0;
        while i < self.projects.len()
            invariant
                i <= self.projects.len(),
                forall|k: int| 0 <= k < i ==> (#[trigger] self.projects@[k]).id != id,
            decreases self.projects.len() - i,
        {
            if self.projects[i].id == id {
                return Some(i);
            }
            i = i + 1;
        }
        proof {
            if has_project(self@.projects, id) {
                let k = choose|k: int|
                    0 <= k < self@.projects.len() && (#[trigger] self@.projects[k]).id == id;
                assert(self.projects@[k].id == id);
            }
        }
        None
    }

    /// The position of task `id`.
    fn task_position(&self, id: i64) -> (r: Option<usize>)
        ensures
            match r {
                Some(i) => i < self.tasks.len() && self.tasks@[i as int].id == id,
                None => forall|k: int| 0 <= k < self.tasks.len() ==> (#[trigger] self.tasks@[k]).id != id,
            },
    {
        let mut i: usize = 0;
        while i < self.tasks.len()
            invariant
                i <= self.tasks.len(),
                forall|k: int| 0 <= k < i ==> (#[trigger] self.tasks@[k]).id != id,
            decreases self.tasks.len() - i,
        {
            if self.tasks[i].id == id {
                return Some(i);
            }
            i = i + 1;
        }
        None
    }

    /// Marks project `id` as updated now.
    fn touch_project(&mut self, id: i64, now: &str)
        requires
            old(self)@.wf(),
        ensures
            final(self)@ == old(self)@.touched(id, now@),
            final(self)@.wf(),
    {
        let ghost old_rows = old(self)@.projects;
        let mut i: usize = 0;
        while i < self.projects.len()
            invariant
                i <= self.projects.len(),
                self.projects.len() == old_rows.len(),
                old_rows == old(self)@.projects,
                self.tasks == old(self).tasks,
                self.logs == old(self).logs,
                self.project_seq == old(self).project_seq,
                self.task_seq == old(self).task_seq,
                self.log_seq == old(self).log_seq,
                forall|k: int|
                    0 <= k < i ==> (#[trigger] self.projects@[k])@ == touched_project(old_rows[k], id, now@),
                forall|k: int| i <= k < self.projects.len() ==> (#[trigger] self.projects@[k])@ == old_rows[k],
            decreases self.projects.len() - i,
        {
            if self.projects[i].id == id {
                let p = &self.projects[i];
                let q = Project {
                    id: p.id,
                    name: p.name.clone(),
                    goal: p.goal.clone(),
                    status: p.status.clone(),
                    progress: p.progress,
                    current_task: p.current_task.clone(),
                    created_at: p.created_at.clone(),
                    updated_at: text_of(now),
                };
                self.projects.set(i, q);
            }
            i = i + 1;
        }
        proof {
            let new_rows = self@.projects;
            assert(new_rows =~= old_rows.map_values(|p: ProjectRow| touched_project(p, id, now@)));
            lemma_same_project_ids(old_rows, new_rows, self.project_seq);
        }
    }
}

/// Creates a project with the given name and goal; it starts active, at no
/// progress and with no current task, created and updated at `now`.
/// Returns its id, the one after the largest project id handed out so far.
pub fn create_project(db: &mut Database, name: &str, goal: &str, now: &str) -> (r: Result<
    i64,
    DbError,
>)
    requires
        old(db)@.wf(),
    ensures
        final(db)@.wf(),
        match r {
            Ok(id) => {
                &&& old(db)@.project_seq < i64::MAX
                &&& id == old(db)@.project_seq + 1
                &&& final(db)@ == old(db)@.with_new_project(name@, goal@, now@)
            },
            Err(e) => {
                &&& e == DbError::Full
                &&& old(db)@.project_seq == i64::MAX
                &&& final(db)@ == old(db)@
            },
        },
{
    if db.project_seq == i64::MAX {
        return Err(DbError::Full);
    }
    let id = db.project_seq + 1;
    let p = Project {
        id,
        name: text_of(name),
        goal: text_of(goal),
        status: String::from_str("active"),
        progress: 0,
        current_task: String::new(),
        created_at: text_of(now),
        updated_at: text_of(now),
    };
    let ghost old_view = db@;
    db.projects.push(p);
    db.project_seq = id;
    proof {
        assert(db@.projects =~= old_view.projects.push(p@));
        assert(p@.current_task =~= Seq::<char>::empty());
        assert(db@ == old_view.with_new_project(name@, goal@, now@));
        assert forall|i: int| 0 <= i < db@.tasks.len() implies has_project(
            db@.projects,
            (#[trigger] db@.tasks[i]).project_id,
        ) by {
            let k = choose|k: int|
                0 <= k < old_view.projects.len() && (#[trigger] old_view.projects[k]).id
                    == db@.tasks[i].project_id;
            assert(db@.projects[k] == old_view.projects[k]);
        }
        assert forall|i: int| 0 <= i < db@.logs.len() implies has_project(
            db@.projects,
            (#[trigger] db@.logs[i]).project_id,
        ) by {
            let k = choose|k: int|
                0 <= k < old_view.projects.len() && (#[trigger] old_view.projects[k]).id
                    == db@.logs[i].project_id;
            assert(db@.projects[k] == old_view.projects[k]);
        }
    }
    Ok(id)
}

/// The project with id `id`; `NoRows` when there is none.
pub fn get_project(db: &Database, id: i64) -> (r: Result<Project, DbError>)
    requires
        db@.wf(),
    ensures
        match (r, db@.project(id)) {
            (Ok(p), Some(row)) => p@ == row,
            (Err(e), None) => e == DbError::NoRows,
            _ => false,
        },
{
    match db.project_position(id) {
        Some(i) => {
            proof {
                lemma_find_project_at(db@.projects, i as int);
            }
            Ok(db.projects[i].duplicate())
        },
        None => {
            proof {
                lemma_find_project_none(db@.projects, id);
            }
            Err(DbError::NoRows)
        },
    }
}

// ── Selecting rows ──────────────────────────────────────────

fn archived_text() -> (r: String)
    ensures
        r@ == "archived"@,
{
    String::from_str("archived")
}

/// The projects of `v` other than project `id`.
fn projects_except(v: &Vec<Project>, id: i64) -> (out: Vec<Project>)
    ensures
        project_rows(out@) == project_rows(v@).filter(project_id_other_than(id)),
{
    let ghost rows = project_rows(v@);
    let mut out: Vec<Project> = Vec::new();
    let mut i: usize = 0;
    while i < v.len()
        invariant
            i <= v.len(),
            rows == project_rows(v@),
            project_rows(out@) == rows.take(i as int).filter(project_id_other_than(id)),
        decreases v.len() - i,
    {
        proof {
            assert(rows.take(i + 1) =~= rows.take(i as int).push(rows[i as int]));
            rows.take(i as int).lemma_filter_push(rows[i as int], project_id_other_than(id));
        }
        if v[i].id != id {
            let ghost prev = out@;
            out.push(v[i].duplicate());
            proof {
                assert(project_rows(out@) =~= project_rows(prev).push(rows[i as int]));
            }
        }
        i = i + 1;
    }
    proof {
        assert(rows.take(v.len() as int) =~= rows);
    }
    out
}

/// The projects of `v` that are not archived.
fn listed_projects_of(v: &Vec<Project>) -> (out: Vec<Project>)
    ensures
        project_rows(out@) == project_rows(v@).filter(listed()),
{
    let ghost rows = project_rows(v@);
    let archived = archived_text();
    let mut out: Vec<Project> = Vec::new();
    let mut i: usize = 0;
    while i < v.len()
        invariant
            i <= v.len(),
            rows == project_rows(v@),
            archived@ == "archived"@,
            project_rows(out@) == rows.take(i as int).filter(listed()),
        decreases v.len() - i,
    {
        proof {
            assert(rows.take(i + 1) =~= rows.take(i as int).push(rows[i as int]));
            rows.take(i as int).lemma_filter_push(rows[i as int], listed());
        }
        if !(v[i].status == archived) {
            let ghost prev = out@;
            out.push(v[i].duplicate());
            proof {
                assert(project_rows(out@) =~= project_rows(prev).push(rows[i as int]));
            }
        }
        i = i + 1;
    }
    proof {
        assert(rows.take(v.len() as int) =~= rows);
    }
    out
}

/// The tasks of `v` other than task `id`.
fn tasks_except(v: &Vec<Task>, id: i64) -> (out: Vec<Task>)
    ensures
        task_rows(out@) == task_rows(v@).filter(task_id_other_than(id)),
{
    let ghost rows = task_rows(v@);
    let mut out: Vec<Task> = Vec::new();
    let mut i: usize = 0;
    while i < v.len()
        invariant
            i <= v.len(),
            rows == task_rows(v@),
            task_rows(out@) == rows.take(i as int).filter(task_id_other_than(id)),
        decreases v.len() - i,
    {
        proof {
            assert(rows.take(i + 1) =~= rows.take(i as int).push(rows[i as int]));
            rows.take(i as int).lemma_filter_push(rows[i as int], task_id_other_than(id));
        }
        if v[i].id != id {
            let ghost prev = out@;
            out.push(v[i].duplicate());
            proof {
                assert(task_rows(out@) =~= task_rows(prev).push(rows[i as int]));
            }
        }
        i = i + 1;
    }
    proof {
        assert(rows.take(v.len() as int) =~= rows);
    }
    out
}

/// The tasks of `v` that belong to project `pid` (or, when `belong` is
/// false, those that do not).
fn tasks_by_project(v: &Vec<Task>, pid: i64, belong: bool) -> (out: Vec<Task>)
    ensures
        task_rows(out@) == task_rows(v@).filter(if belong { task_of(pid) } else { task_not_of(pid) }),
{
    let ghost rows = task_rows(v@);
    let ghost pred = if belong { task_of(pid) } else { task_not_of(pid) };
    let mut out: Vec<Task> = Vec::new();
    let mut i: usize = 0;
    while i < v.len()
        invariant
            i <= v.len(),
            rows == task_rows(v@),
            pred == (if belong { task_of(pid) } else { task_not_of(pid) }),
            task_rows(out@) == rows.take(i as int).filter(pred),
        decreases v.len() - i,
    {
        proof {
            assert(rows.take(i + 1) =~= rows.take(i as int).push(rows[i as int]));
            rows.take(i as int).lemma_filter_push(rows[i as int], pred);
        }
        if (v[i].project_id == pid) == belong {
            let ghost prev = out@;
            out.push(v[i].duplicate());
            proof {
                assert(task_rows(out@) =~= task_rows(prev).push(rows[i as int]));
            }
        }
        i = i + 1;
    }
    proof {
        assert(rows.take(v.len() as int) =~= rows);
    }
    out
}

/// The log entries of `v` other than entry `id`.
fn logs_except(v: &Vec<Log>, id: i64) -> (out: Vec<Log>)
    ensures
        log_rows(out@) == log_rows(v@).filter(log_id_other_than(id)),
{
    let ghost rows = log_rows(v@);
    let mut out: Vec<Log> = Vec::new();
    let mut i: usize = 0;
    while i < v.len()
        invariant
            i <= v.len(),
            rows == log_rows(v@),
            log_rows(out@) == rows.take(i as int).filter(log_id_other_than(id)),
        decreases v.len() - i,
    {
        proof {
            assert(rows.take(i + 1) =~= rows.take(i as int).push(rows[i as int]));
            rows.take(i as int).lemma_filter_push(rows[i as int], log_id_other_than(id));
        }
        if v[i].id != id {
            let ghost prev = out@;
            out.push(v[i].duplicate());
            proof {
                assert(log_rows(out@) =~= log_rows(prev).push(rows[i as int]));
            }
        }
        i = i + 1;
    }
    proof {
        assert(rows.take(v.len() as int) =~= rows);
    }
    out
}

/// The log entries of `v` that belong to project `pid` (or, when `belong`
/// is false, those that do not).
fn logs_by_project(v: &Vec<Log>, pid: i64, belong: bool) -> (out: Vec<Log>)
    ensures
        log_rows(out@) == log_rows(v@).filter(if belong { log_of(pid) } else { log_not_of(pid) }),
{
    let ghost rows = log_rows(v@);
    let ghost pred = if belong { log_of(pid) } else { log_not_of(pid) };
    let mut out: Vec<Log> = Vec::new();
    let mut i: usize = 0;
    while i < v.len()
        invariant
            i <= v.len(),
            rows == log_rows(v@),
            pred == (if belong { log_of(pid) } else { log_not_of(pid) }),
            log_rows(out@) == rows.take(i as int).filter(pred),
        decreases v.len() - i,
    {
        proof {
            assert(rows.take(i + 1) =~= rows.take(i as int).push(rows[i as int]));
            rows.take(i as int).lemma_filter_push(rows[i as int], pred);
        }
        if (v[i].project_id == pid) == belong {
            let ghost prev = out@;
            out.push(v[i].duplicate());
            proof {
                assert(log_rows(out@) =~= log_rows(prev).push(rows[i as int]));
            }
        }
        i = i + 1;
    }
    proof {
        assert(rows.take(v.len() as int) =~= rows);
    }
    out
}

// ── Ordering rows ───────────────────────────────────────────

fn recency_precedes(a: &Project, ak: &Vec<char>, b: &Project, bk: &Vec<char>) -> (r: bool)
    requires
        ak@ == a.updated_at@,
        bk@ == b.updated_at@,
    ensures
        r == (recency_before())(a@, b@),
{
    text_less(bk, ak) || (text_equal(ak, bk) && a.id < b.id)
}

/// The projects of `v`, most recently updated first.
fn sort_by_recency(v: &Vec<Project>) -> (out: Vec<Project>)
    ensures
        project_rows(out@) == by_recency(project_rows(v@)),
{
    let ghost rows = project_rows(v@);
    let mut out: Vec<Project> = Vec::new();
    let mut keys: Vec<Vec<char>> = Vec::new();
    let mut i: usize = 0;
    while i < v.len()
        invariant
            i <= v.len(),
            rows == project_rows(v@),
            keys.len() == out.len(),
            forall|j: int| 0 <= j < out.len() ==> (#[trigger] keys@[j])@ == out@[j].updated_at@,
            project_rows(out@) == by_recency(rows.take(i as int)),
        decreases v.len() - i,
    {
        let x = v[i].duplicate();
        let xk = chars_of(x.updated_at.as_str());
        let mut k: usize = out.len();
        loop
            invariant_except_break
                k <= out.len(),
                keys.len() == out.len(),
                xk@ == x.updated_at@,
                forall|j: int| 0 <= j < out.len() ==> (#[trigger] keys@[j])@ == out@[j].updated_at@,
                forall|j: int| k <= j < out.len() ==> (recency_before())(x@, (#[trigger] out@[j])@),
            ensures
                k <= out.len(),
                forall|j: int| k <= j < out.len() ==> (recency_before())(x@, (#[trigger] out@[j])@),
                k == 0 || !(recency_before())(x@, out@[k - 1]@),
            decreases k,
        {
            if k == 0 {
                break;
            }
            if !recency_precedes(&x, &xk, &out[k - 1], &keys[k - 1]) {
                break;
            }
            k = k - 1;
        }
        let ghost sorted = project_rows(out@);
        proof {
            assert forall|j: int| k <= j < sorted.len() implies (recency_before())(
                x@,
                #[trigger] sorted[j],
            ) by {
                assert(sorted[j] == out@[j]@);
            }
            lemma_insert_ordered_at(sorted, x@, recency_before(), k as int);
            assert(rows.take(i + 1).drop_last() =~= rows.take(i as int));
            assert(rows.take(i + 1).last() == x@);
        }
        let ghost prev_out = out@;
        let ghost prev_keys = keys@;
        out.insert(k, x);
        keys.insert(k, xk);
        proof {
            assert(project_rows(out@) =~= sorted.insert(k as int, x@));
            assert forall|j: int| 0 <= j < out.len() implies (#[trigger] keys@[j])@
                == out@[j].updated_at@ by {
                if j < k {
                    assert(keys@[j] == prev_keys[j] && out@[j] == prev_out[j]);
                } else if j > k {
                    assert(keys@[j] == prev_keys[j - 1] && out@[j] == prev_out[j - 1]);
                }
            }
        }
        i = i + 1;
    }
    proof {
        assert(rows.take(v.len() as int) =~= rows);
    }
    out
}

fn task_precedes(
    a: &Task,
    a_status: &Vec<char>,
    a_created: &Vec<char>,
    b: &Task,
    b_status: &Vec<char>,
    b_created: &Vec<char>,
) -> (r: bool)
    requires
        a_status@ == a.status@,
        a_created@ == a.created_at@,
        b_status@ == b.status@,
        b_created@ == b.created_at@,
    ensures
        r == (task_before())(a@, b@),
{
    text_less(a_status, b_status) || (text_equal(a_status, b_status) && (text_less(
        a_created,
        b_created,
    ) || (text_equal(a_created, b_created) && a.id < b.id)))
}

/// The tasks of `v`, by status and then by age.
fn sort_by_status_and_age(v: &Vec<Task>) -> (out: Vec<Task>)
    ensures
        task_rows(out@) == by_status_and_age(task_rows(v@)),
{
    let ghost rows = task_rows(v@);
    let mut out: Vec<Task> = Vec::new();
    let mut statuses: Vec<Vec<char>> = Vec::new();
    let mut created: Vec<Vec<char>> = Vec::new();
    let mut i: usize = 0;
    while i < v.len()
        invariant
            i <= v.len(),
            rows == task_rows(v@),
            statuses.len() == out.len(),
            created.len() == out.len(),
            forall|j: int| 0 <= j < out.len() ==> (#[trigger] statuses@[j])@ == out@[j].status@,
            forall|j: int| 0 <= j < out.len() ==> (#[trigger] created@[j])@ == out@[j].created_at@,
            task_rows(out@) == by_status_and_age(rows.take(i as int)),
        decreases v.len() - i,
    {
        let x = v[i].duplicate();
        let xs = chars_of(x.status.as_str());
        let xc = chars_of(x.created_at.as_str());
        let mut k: usize = out.len();
        loop
            invariant_except_break
                k <= out.len(),
                statuses.len() == out.len(),
                created.len() == out.len(),
                xs@ == x.status@,
                xc@ == x.created_at@,
                forall|j: int| 0 <= j < out.len() ==> (#[trigger] statuses@[j])@ == out@[j].status@,
                forall|j: int| 0 <= j < out.len() ==> (#[trigger] created@[j])@ == out@[j].created_at@,
                forall|j: int| k <= j < out.len() ==> (task_before())(x@, (#[trigger] out@[j])@),
            ensures
                k <= out.len(),
                forall|j: int| k <= j < out.len() ==> (task_before())(x@, (#[trigger] out@[j])@),
                k == 0 || !(task_before())(x@, out@[k - 1]@),
            decreases k,
        {
            if k == 0 {
                break;
            }
            if !task_precedes(&x, &xs, &xc, &out[k - 1], &statuses[k - 1], &created[k - 1]) {
                break;
            }
            k = k - 1;
        }
        let ghost sorted = task_rows(out@);
        proof {
            assert forall|j: int| k <= j < sorted.len() implies (task_before())(
                x@,
                #[trigger] sorted[j],
            ) by {
                assert(sorted[j] == out@[j]@);
            }
            lemma_insert_ordered_at(sorted, x@, task_before(), k as int);
            assert(rows.take(i + 1).drop_last() =~= rows.take(i as int));
            assert(rows.take(i + 1).last() == x@);
        }
        let ghost prev_out = out@;
        let ghost prev_statuses = statuses@;
        let ghost prev_created = created@;
        out.insert(k, x);
        statuses.insert(k, xs);
        created.insert(k, xc);
        proof {
            assert(task_rows(out@) =~= sorted.insert(k as int, x@));
            assert forall|j: int| 0 <= j < out.len() implies (#[trigger] statuses@[j])@
                == out@[j].status@ && created@[j]@ == out@[j].created_at@ by {
                if j < k {
                    assert(statuses@[j] == prev_statuses[j] && out@[j] == prev_out[j]);
                    assert(created@[j] == prev_created[j]);
                } else if j > k {
                    assert(statuses@[j] == prev_statuses[j - 1] && out@[j] == prev_out[j - 1]);
                    assert(created@[j] == prev_created[j - 1]);
                }
            }
        }
        i = i + 1;
    }
    proof {
        assert(rows.take(v.len() as int) =~= rows);
    }
    out
}

// ── Projects ────────────────────────────────────────────────

/// The projects that are not archived, most recently updated first.
pub fn get_all_projects(db: &Database) -> (r: Result<Vec<Project>, DbError>)
    requires
        db@.wf(),
    ensures
        r matches Ok(v) && project_rows(v@) == db@.listed_projects(),
{
    let listed = listed_projects_of(&db.projects);
    Ok(sort_by_recency(&listed))
}

/// All projects, archived ones too, most recently updated first.
pub fn get_all_projects_including_archived(db: &Database) -> (r: Result<Vec<Project>, DbError>)
    requires
        db@.wf(),
    ensures
        r matches Ok(v) && project_rows(v@) == db@.all_projects(),
{
    Ok(sort_by_recency(&db.projects))
}

/// Sets the name, goal, status, progress and current task of project `id`
/// and marks it as updated now; nothing changes when there is no such
/// project.
pub fn update_project(
    db: &mut Database,
    id: i64,
    name: &str,
    goal: &str,
    status: &str,
    progress: i32,
    current_task: &str,
    now: &str,
) -> (r: Result<(), DbError>)
    requires
        old(db)@.wf(),
    ensures
        final(db)@.wf(),
        r is Ok,
        final(db)@ == old(db)@.with_project_edited(
            id,
            name@,
            goal@,
            status@,
            progress,
            current_task@,
            now@,
        ),
{
    let ghost old_rows = old(db)@.projects;
    let mut i: usize = 0;
    while i < db.projects.len()
        invariant
            i <= db.projects.len(),
            db.projects.len() == old_rows.len(),
            old_rows == old(db)@.projects,
            db.tasks == old(db).tasks,
            db.logs == old(db).logs,
            db.project_seq == old(db).project_seq,
            db.task_seq == old(db).task_seq,
            db.log_seq == old(db).log_seq,
            forall|k: int|
                0 <= k < i ==> (#[trigger] db.projects@[k])@ == edited_project(
                    old_rows[k],
                    id,
                    name@,
                    goal@,
                    status@,
                    progress,
                    current_task@,
                    now@,
                ),
            forall|k: int| i <= k < db.projects.len() ==> (#[trigger] db.projects@[k])@ == old_rows[k],
        decreases db.projects.len() - i,
    {
        if db.projects[i].id == id {
            let p = &db.projects[i];
            let q = Project {
                id: p.id,
                name: text_of(name),
                goal: text_of(goal),
                status: text_of(status),
                progress,
                current_task: text_of(current_task),
                created_at: p.created_at.clone(),
                updated_at: text_of(now),
            };
            db.projects.set(i, q);
        }
        i = i + 1;
    }
    proof {
        let new_rows = db@.projects;
        assert(new_rows =~= old_rows.map_values(
            |p: ProjectRow|
                edited_project(p, id, name@, goal@, status@, progress, current_task@, now@),
        ));
        lemma_same_project_ids(old_rows, new_rows, db.project_seq);
    }
    Ok(())
}

/// Archives project `id` and marks it as updated now; nothing changes when
/// there is no such project.
pub fn archive_project(db: &mut Database, id: i64, now: &str) -> (r: Result<(), DbError>)
    requires
        old(db)@.wf(),
    ensures
        final(db)@.wf(),
        r is Ok,
        final(db)@ == old(db)@.with_project_archived(id, now@),
{
    let ghost old_rows = old(db)@.projects;
    let mut i: usize = 0;
    while i < db.projects.len()
        invariant
            i <= db.projects.len(),
            db.projects.len() == old_rows.len(),
            old_rows == old(db)@.projects,
            db.tasks == old(db).tasks,
            db.logs == old(db).logs,
            db.project_seq == old(db).project_seq,
            db.task_seq == old(db).task_seq,
            db.log_seq == old(db).log_seq,
            forall|k: int|
                0 <= k < i ==> (#[trigger] db.projects@[k])@ == archived_project(old_rows[k], id, now@),
            forall|k: int| i <= k < db.projects.len() ==> (#[trigger] db.projects@[k])@ == old_rows[k],
        decreases db.projects.len() - i,
    {
        if db.projects[i].id == id {
            let p = &db.projects[i];
            let q = Project {
                id: p.id,
                name: p.name.clone(),
                goal: p.goal.clone(),
                status: archived_text(),
                progress: p.progress,
                current_task: p.current_task.clone(),
                created_at: p.created_at.clone(),
                updated_at: text_of(now),
            };
            db.projects.set(i, q);
        }
        i = i + 1;
    }
    proof {
        let new_rows = db@.projects;
        assert(new_rows =~= old_rows.map_values(|p: ProjectRow| archived_project(p, id, now@)));
        lemma_same_project_ids(old_rows, new_rows, db.project_seq);
    }
    Ok(())
}

/// Deletes project `id` with all of its tasks and log entries; nothing
/// changes when there is no such project.
pub fn delete_project(db: &mut Database, id: i64) -> (r: Result<(), DbError>)
    requires
        old(db)@.wf(),
    ensures
        final(db)@.wf(),
        r is Ok,
        final(db)@ == old(db)@.without_project(id),
{
    let projects = projects_except(&db.projects, id);
    let tasks = tasks_by_project(&db.tasks, id, false);
    let logs = logs_by_project(&db.logs, id, false);
    db.projects = projects;
    db.tasks = tasks;
    db.logs = logs;
    proof {
        lemma_without_project_wf(old(db)@, id);
    }
    Ok(())
}

// ── Tasks ───────────────────────────────────────────────────

/// Adds a task to project `project_id`, still to do and created now, and
/// marks the project as updated. Returns the task's id, the one after the
/// largest task id handed out so far. `Full` when no task id is left,
/// else `ForeignKey` when there is no such project.
pub fn create_task(db: &mut Database, project_id: i64, description: &str, now: &str) -> (r:
    Result<i64, DbError>)
    requires
        old(db)@.wf(),
    ensures
        final(db)@.wf(),
        match r {
            Ok(id) => {
                &&& old(db)@.task_seq < i64::MAX
                &&& old(db)@.project(project_id) is Some
                &&& id == old(db)@.task_seq + 1
                &&& final(db)@ == old(db)@.with_new_task(project_id, description@, now@)
            },
            Err(e) => {
                &&& final(db)@ == old(db)@
                &&& {
                    ||| e == DbError::Full && old(db)@.task_seq == i64::MAX
                    ||| e == DbError::ForeignKey && old(db)@.task_seq < i64::MAX && old(
                        db,
                    )@.project(project_id) is None
                }
            },
        },
{
    proof {
        lemma_find_project_none(db@.projects, project_id);
    }
    if db.task_seq == i64::MAX {
        return Err(DbError::Full);
    }
    let pos = db.project_position(project_id);
    if pos.is_none() {
        return Err(DbError::ForeignKey);
    }
    proof {
        let pi = pos.unwrap() as int;
        assert(db@.projects[pi].id == project_id);
        assert(has_project(db@.projects, project_id));
    }
    let id = db.task_seq + 1;
    let t = Task {
        id,
        project_id,
        description: text_of(description),
        status: String::from_str("todo"),
        created_at: text_of(now),
    };
    let ghost old_view = db@;
    db.tasks.push(t);
    db.task_seq = id;
    proof {
        assert(db@.tasks =~= old_view.tasks.push(t@));
        assert(forall|i: int| 0 <= i < old_view.tasks.len() ==> db@.tasks[i] == old_view.tasks[i]);
        assert(db@.tasks[old_view.tasks.len() as int] == t@);
        assert forall|a: int, b: int| 0 <= a < b < db@.tasks.len() implies (
        #[trigger] db@.tasks[a]).id < (#[trigger] db@.tasks[b]).id by {
            if b == old_view.tasks.len() {
                assert(old_view.tasks[a].id <= old_view.task_seq);
            }
        }
        assert(db@.wf());
    }
    db.touch_project(project_id, now);
    Ok(id)
}

/// The tasks of project `project_id`, by status and then by age.
pub fn get_tasks_for_project(db: &Database, project_id: i64) -> (r: Result<Vec<Task>, DbError>)
    requires
        db@.wf(),
    ensures
        r matches Ok(v) && task_rows(v@) == db@.project_tasks(project_id),
{
    let mine = tasks_by_project(&db.tasks, project_id, true);
    Ok(sort_by_status_and_age(&mine))
}

/// Flips task `task_id` between `todo` and `done` (any other status
/// becomes `todo`) and marks its project as updated; `NoRows` when there
/// is no such task.
pub fn toggle_task_status(db: &mut Database, task_id: i64, now: &str) -> (r: Result<(), DbError>)
    requires
        old(db)@.wf(),
    ensures
        final(db)@.wf(),
        match r {
            Ok(()) => {
                &&& old(db)@.task(task_id) is Some
                &&& final(db)@ == old(db)@.with_task_toggled(task_id, now@)
            },
            Err(e) => {
                &&& e == DbError::NoRows
                &&& old(db)@.task(task_id) is None
                &&& final(db)@ == old(db)@
            },
        },
{
    match db.task_position(task_id) {
        None => {
            proof {
                lemma_find_task_none(db@.tasks, task_id);
            }
            Err(DbError::NoRows)
        },
        Some(i) => {
            proof {
                lemma_find_task_at(db@.tasks, i as int);
            }
            let ghost old_view = db@;
            let t = &db.tasks[i];
            let pid = t.project_id;
            let todo = String::from_str("todo");
            let status = if t.status == todo {
                String::from_str("done")
            } else {
                todo
            };
            let nt = Task {
                id: t.id,
                project_id: t.project_id,
                description: t.description.clone(),
                status,
                created_at: t.created_at.clone(),
            };
            proof {
                assert(nt@ == toggled_task(old_view.tasks[i as int], task_id));
            }
            db.tasks.set(i, nt);
            proof {
                assert forall|k: int| 0 <= k < old_view.tasks.len() && k != i implies (
                #[trigger] old_view.tasks[k]).id != task_id by {
                    if k < i {
                        assert(old_view.tasks[k].id < old_view.tasks[i as int].id);
                    } else {
                        assert(old_view.tasks[i as int].id < old_view.tasks[k].id);
                    }
                }
                assert(db@.tasks =~= old_view.tasks.map_values(
                    |t: TaskRow| toggled_task(t, task_id),
                ));
                assert forall|k: int| 0 <= k < db@.tasks.len() implies (#[trigger] db@.tasks[k]).id
                    == old_view.tasks[k].id && db@.tasks[k].project_id
                    == old_view.tasks[k].project_id by {}
            }
            db.touch_project(pid, now);
            Ok(())
        },
    }
}

/// Deletes task `task_id` and marks its project as updated; `NoRows` when
/// there is no such task.
pub fn delete_task(db: &mut Database, task_id: i64, now: &str) -> (r: Result<(), DbError>)
    requires
        old(db)@.wf(),
    ensures
        final(db)@.wf(),
        match r {
            Ok(()) => {
                &&& old(db)@.task(task_id) is Some
                &&& final(db)@ == old(db)@.without_task(task_id, now@)
            },
            Err(e) => {
                &&& e == DbError::NoRows
                &&& old(db)@.task(task_id) is None
                &&& final(db)@ == old(db)@
            },
        },
{
    match db.task_position(task_id) {
        None => {
            proof {
                lemma_find_task_none(db@.tasks, task_id);
            }
            Err(DbError::NoRows)
        },
        Some(i) => {
            proof {
                lemma_find_task_at(db@.tasks, i as int);
                lemma_without_task_rows_wf(db@, task_id);
            }
            let pid = db.tasks[i].project_id;
            let tasks = tasks_except(&db.tasks, task_id);
            db.tasks = tasks;
            db.touch_project(pid, now);
            Ok(())
        },
    }
}

// ── Logs ────────────────────────────────────────────────────

/// Adds a log entry to project `project_id`, dated `today` and created
/// now, and marks the project as updated. Returns the entry's id, the one
/// after the largest log id handed out so far. `Full` when no log id is
/// left, else `ForeignKey` when there is no such project.
pub fn create_log(
    db: &mut Database,
    project_id: i64,
    notes: &str,
    next_action: &str,
    today: &str,
    now: &str,
) -> (r: Result<i64, DbError>)
    requires
        old(db)@.wf(),
    ensures
        final(db)@.wf(),
        match r {
            Ok(id) => {
                &&& old(db)@.log_seq < i64::MAX
                &&& old(db)@.project(project_id) is Some
                &&& id == old(db)@.log_seq + 1
                &&& final(db)@ == old(db)@.with_new_log(
                    project_id,
                    notes@,
                    next_action@,
                    today@,
                    now@,
                )
            },
            Err(e) => {
                &&& final(db)@ == old(db)@
                &&& {
                    ||| e == DbError::Full && old(db)@.log_seq == i64::MAX
                    ||| e == DbError::ForeignKey && old(db)@.log_seq < i64::MAX && old(
                        db,
                    )@.project(project_id) is None
                }
            },
        },
{
    proof {
        lemma_find_project_none(db@.projects, project_id);
    }
    if db.log_seq == i64::MAX {
        return Err(DbError::Full);
    }
    let pos = db.project_position(project_id);
    if pos.is_none() {
        return Err(DbError::ForeignKey);
    }
    proof {
        let pi = pos.unwrap() as int;
        assert(db@.projects[pi].id == project_id);
        assert(has_project(db@.projects, project_id));
    }
    let id = db.log_seq + 1;
    let l = Log {
        id,
        project_id,
        date: text_of(today),
        notes: text_of(notes),
        next_action: text_of(next_action),
        created_at: text_of(now),
    };
    let ghost old_view = db@;
    db.logs.push(l);
    db.log_seq = id;
    proof {
        assert(db@.logs =~= old_view.logs.push(l@));
        assert(forall|i: int| 0 <= i < old_view.logs.len() ==> db@.logs[i] == old_view.logs[i]);
        assert(db@.logs[old_view.logs.len() as int] == l@);
        assert forall|a: int, b: int| 0 <= a < b < db@.logs.len() implies (
        #[trigger] db@.logs[a]).id < (#[trigger] db@.logs[b]).id by {
            if b == old_view.logs.len() {
                assert(old_view.logs[a].id <= old_view.log_seq);
            }
        }
        assert(db@.wf());
    }
    db.touch_project(project_id, now);
    Ok(id)
}

fn reversed_logs(v: &Vec<Log>) -> (out: Vec<Log>)
    ensures
        log_rows(out@) == log_rows(v@).reverse(),
{
    let ghost rows = log_rows(v@);
    let mut out: Vec<Log> = Vec::new();
    let mut j: usize = v.len();
    while j > 0
        invariant
            j <= v.len(),
            rows == log_rows(v@),
            log_rows(out@) == rows.reverse().take(v.len() - j),
        decreases j,
    {
        j = j - 1;
        let ghost prev = out@;
        out.push(v[j].duplicate());
        proof {
            assert(rows.reverse().take(v.len() - j) =~= rows.reverse().take(v.len() - j - 1).push(
                rows[j as int],
            ));
            assert(log_rows(out@) =~= log_rows(prev).push(rows[j as int]));
        }
    }
    proof {
        assert(rows.reverse().take(v.len() as int) =~= rows.reverse());
    }
    out
}

/// The log entries of project `project_id`, newest first.
pub fn get_logs_for_project(db: &Database, project_id: i64) -> (r: Result<Vec<Log>, DbError>)
    requires
        db@.wf(),
    ensures
        r matches Ok(v) && log_rows(v@) == db@.project_logs(project_id),
{
    let mine = logs_by_project(&db.logs, project_id, true);
    Ok(reversed_logs(&mine))
}

/// The newest log entry of project `project_id`, if it has any.
pub fn get_latest_log(db: &Database, project_id: i64) -> (r: Result<Option<Log>, DbError>)
    requires
        db@.wf(),
    ensures
        r matches Ok(o) && match (o, db@.latest_log(project_id)) {
            (Some(l), Some(row)) => l@ == row,
            (None, None) => true,
            _ => false,
        },
{
    let mine = logs_by_project(&db.logs, project_id, true);
    let newest_first = reversed_logs(&mine);
    if newest_first.len() > 0 {
        Ok(Some(newest_first[0].duplicate()))
    } else {
        Ok(None)
    }
}

/// Deletes log entry `log_id`; nothing changes when there is no such
/// entry.
pub fn delete_log(db: &mut Database, log_id: i64) -> (r: Result<(), DbError>)
    requires
        old(db)@.wf(),
    ensures
        final(db)@.wf(),
        r is Ok,
        final(db)@ == old(db)@.without_log(log_id),
{
    proof {
        lemma_without_log_wf(db@, log_id);
    }
    let logs = logs_except(&db.logs, log_id);
    db.logs = logs;
    Ok(())
}

// ── Importing ───────────────────────────────────────────────

/// The tables of `b` are the first rows of the tables of `a`.
spec fn extends(a: DbState, b: DbState) -> bool {
    &&& a.projects.len() >= b.projects.len()
    &&& a.tasks.len() >= b.tasks.len()
    &&& a.logs.len() >= b.logs.len()
    &&& a.projects.subrange(0, b.projects.len() as int) == b.projects
    &&& a.tasks.subrange(0, b.tasks.len() as int) == b.tasks
    &&& a.logs.subrange(0, b.logs.len() as int) == b.logs
}

proof fn lemma_extends_refl(a: DbState)
    ensures
        extends(a, a),
{
    assert(a.projects.subrange(0, a.projects.len() as int) =~= a.projects);
    assert(a.tasks.subrange(0, a.tasks.len() as int) =~= a.tasks);
    assert(a.logs.subrange(0, a.logs.len() as int) =~= a.logs);
}

proof fn lemma_extends_trans(a: DbState, b: DbState, c: DbState)
    requires
        extends(a, b),
        extends(b, c),
    ensures
        extends(a, c),
{
    assert(a.projects.subrange(0, c.projects.len() as int) =~= b.projects.subrange(0, c.projects.len() as int));
    assert(a.tasks.subrange(0, c.tasks.len() as int) =~= b.tasks.subrange(0, c.tasks.len() as int));
    assert(a.logs.subrange(0, c.logs.len() as int) =~= b.logs.subrange(0, c.logs.len() as int));
}

impl Database {
    /// Adds exported project `p` with its tasks and log entries from
    /// `data`; false when ids run out on the way.
    fn import_one(&mut self, p: &Project, data: &ExportData) -> (ok: bool)
        requires
            old(self)@.wf(),
        ensures
            final(self)@.wf(),
            extends(final(self)@, old(self)@),
            ok ==> import_project(old(self)@, p@, data@) == Some(final(self)@),
            !ok ==> import_project(old(self)@, p@, data@) is None,
    {
        let ghost s0 = self@;
        proof {
            assert(extends(s0, s0)) by {
                assert(s0.projects.subrange(0, s0.projects.len() as int) =~= s0.projects);
                assert(s0.tasks.subrange(0, s0.tasks.len() as int) =~= s0.tasks);
                assert(s0.logs.subrange(0, s0.logs.len() as int) =~= s0.logs);
            }
        }
        if self.project_seq == i64::MAX {
            return false;
        }
        let pid = self.project_seq + 1;
        let np = Project {
            id: pid,
            name: p.name.clone(),
            goal: p.goal.clone(),
            status: p.status.clone(),
            progress: p.progress,
            current_task: p.current_task.clone(),
            created_at: p.created_at.clone(),
            updated_at: p.updated_at.clone(),
        };
        self.projects.push(np);
        self.project_seq = pid;
        let ghost s1 = self@;
        proof {
            assert(s1.projects =~= s0.projects.push(ProjectRow { id: pid, ..p@ }));
            assert(s1.projects[s0.projects.len() as int].id == pid);
            assert(has_project(s1.projects, pid));
            assert forall|i: int| 0 <= i < s1.tasks.len() implies has_project(
                s1.projects,
                (#[trigger] s1.tasks[i]).project_id,
            ) by {
                let k = choose|k: int|
                    0 <= k < s0.projects.len() && (#[trigger] s0.projects[k]).id
                        == s1.tasks[i].project_id;
                assert(s1.projects[k] == s0.projects[k]);
            }
            assert forall|i: int| 0 <= i < s1.logs.len() implies has_project(
                s1.projects,
                (#[trigger] s1.logs[i]).project_id,
            ) by {
                let k = choose|k: int|
                    0 <= k < s0.projects.len() && (#[trigger] s0.projects[k]).id
                        == s1.logs[i].project_id;
                assert(s1.projects[k] == s0.projects[k]);
            }
            assert forall|a: int, b: int| 0 <= a < b < s1.projects.len() implies (
            #[trigger] s1.projects[a]).id < (#[trigger] s1.projects[b]).id by {
                if b == s0.projects.len() {
                    assert(s0.projects[a].id <= s0.project_seq);
                }
            }
            assert(s1.wf());
            assert(s1.projects.subrange(0, s0.projects.len() as int) =~= s0.projects);
            assert(s1.tasks.subrange(0, s0.tasks.len() as int) =~= s0.tasks);
            assert(s1.logs.subrange(0, s0.logs.len() as int) =~= s0.logs);
            assert(extends(s1, s0));
        }
        let ghost ts = task_rows(data.tasks@);
        proof {
            lemma_extends_refl(s1);
        }
        let mut j: usize = 0;
        while j < data.tasks.len()
            invariant
                j <= data.tasks.len(),
                ts == task_rows(data.tasks@),
                ts == data@.tasks,
                self@.wf(),
                self@.projects == s1.projects,
                has_project(s1.projects, pid),
                s0 == old(self)@,
                s0.project_seq < i64::MAX,
                pid == s0.project_seq + 1,
                s1 == (DbState { projects: s0.projects.push(ProjectRow { id: pid, ..p@ }), project_seq: pid, ..s0 }),
                extends(s1, s0),
                extends(self@, s1),
                import_tasks(s1, ts.take(j as int), p.id, pid) == Some(self@),
            decreases data.tasks.len() - j,
        {
            let t = &data.tasks[j];
            let ghost before = self@;
            proof {
                assert(ts.take(j + 1).drop_last() =~= ts.take(j as int));
                assert(ts.take(j + 1).last() == t@);
            }
            if t.project_id == p.id {
                if self.task_seq == i64::MAX {
                    proof {
                        lemma_import_tasks_stays_failed(s1, ts, p.id, pid, j + 1);
                        lemma_extends_trans(self@, s1, s0);
                    }
                    return false;
                }
                let id = self.task_seq + 1;
                let nt = Task {
                    id,
                    project_id: pid,
                    description: t.description.clone(),
                    status: t.status.clone(),
                    created_at: t.created_at.clone(),
                };
                self.tasks.push(nt);
                self.task_seq = id;
                proof {
                    let after = self@;
                    assert(after.tasks =~= before.tasks.push(imported_task_row(id, pid, t@)));
                    assert forall|a: int, b: int| 0 <= a < b < after.tasks.len() implies (
                    #[trigger] after.tasks[a]).id < (#[trigger] after.tasks[b]).id by {
                        if b == before.tasks.len() {
                            assert(before.tasks[a].id <= before.task_seq);
                        }
                    }
                    assert forall|i: int| 0 <= i < after.tasks.len() implies has_project(
                        after.projects,
                        (#[trigger] after.tasks[i]).project_id,
                    ) by {
                        if i < before.tasks.len() {
                            assert(after.tasks[i] == before.tasks[i]);
                        }
                    }
                    assert(after.wf());
                    assert(after.tasks.subrange(0, s1.tasks.len() as int) =~= before.tasks.subrange(
                        0,
                        s1.tasks.len() as int,
                    ));
                    assert(extends(after, s1));
                }
            }
            j = j + 1;
        }
        proof {
            assert(ts.take(data.tasks.len() as int) =~= ts);
        }
        let ghost s2 = self@;
        proof {
            lemma_extends_trans(s2, s1, s0);
            lemma_extends_refl(s2);
        }
        let ghost ls = log_rows(data.logs@);
        let mut j: usize = 0;
        while j < data.logs.len()
            invariant
                j <= data.logs.len(),
                ls == log_rows(data.logs@),
                ls == data@.logs,
                ts == data@.tasks,
                self@.wf(),
                self@.projects == s1.projects,
                has_project(s1.projects, pid),
                s0 == old(self)@,
                s0.project_seq < i64::MAX,
                pid == s0.project_seq + 1,
                s1 == (DbState { projects: s0.projects.push(ProjectRow { id: pid, ..p@ }), project_seq: pid, ..s0 }),
                extends(self@, s2),
                extends(s2, s0),
                import_tasks(s1, ts, p.id, pid) == Some(s2),
                import_logs(s2, ls.take(j as int), p.id, pid) == Some(self@),
            decreases data.logs.len() - j,
        {
            let l = &data.logs[j];
            let ghost before = self@;
            proof {
                assert(ls.take(j + 1).drop_last() =~= ls.take(j as int));
                assert(ls.take(j + 1).last() == l@);
            }
            if l.project_id == p.id {
                if self.log_seq == i64::MAX {
                    proof {
                        lemma_import_logs_stays_failed(s2, ls, p.id, pid, j + 1);
                        lemma_extends_trans(self@, s2, s0);
                    }
                    return false;
                }
                let id = self.log_seq + 1;
                let nl = Log {
                    id,
                    project_id: pid,
                    date: l.date.clone(),
                    notes: l.notes.clone(),
                    next_action: l.next_action.clone(),
                    created_at: l.created_at.clone(),
                };
                self.logs.push(nl);
                self.log_seq = id;
                proof {
                    let after = self@;
                    assert(after.logs =~= before.logs.push(imported_log_row(id, pid, l@)));
                    assert forall|a: int, b: int| 0 <= a < b < after.logs.len() implies (
                    #[trigger] after.logs[a]).id < (#[trigger] after.logs[b]).id by {
                        if b == before.logs.len() {
                            assert(before.logs[a].id <= before.log_seq);
                        }
                    }
                    assert forall|i: int| 0 <= i < after.logs.len() implies has_project(
                        after.projects,
                        (#[trigger] after.logs[i]).project_id,
                    ) by {
                        if i < before.logs.len() {
                            assert(after.logs[i] == before.logs[i]);
                        }
                    }
                    assert(after.wf());
                    assert(after.logs.subrange(0, s2.logs.len() as int) =~= before.logs.subrange(
                        0,
                        s2.logs.len() as int,
                    ));
                    assert(extends(after, s2));
                }
            }
            j = j + 1;
        }
        proof {
            assert(ls.take(data.logs.len() as int) =~= ls);
            lemma_extends_trans(self@, s2, s0);
        }
        true
    }
}

/// Adds every exported project with all of its fields but its id, each
/// followed by the exported tasks and then the log entries that carried
/// its old id, filed under its new id. All or nothing: `Full` when ids run
/// out on the way, and then the store is as it was.
pub fn import_data(db: &mut Database, data: &ExportData) -> (r: Result<(), DbError>)
    requires
        old(db)@.wf(),
    ensures
        final(db)@.wf(),
        match r {
            Ok(()) => imported(old(db)@, data@) == Some(final(db)@),
            Err(e) => {
                &&& e == DbError::Full
                &&& imported(old(db)@, data@) is None
                &&& final(db)@ == old(db)@
            },
        },
{
    let ghost s0 = db@;
    let np = db.projects.len();
    let nt = db.tasks.len();
    let nl = db.logs.len();
    let ps = db.project_seq;
    let ts = db.task_seq;
    let ls = db.log_seq;
    proof {
        assert(s0.projects.subrange(0, s0.projects.len() as int) =~= s0.projects);
        assert(s0.tasks.subrange(0, s0.tasks.len() as int) =~= s0.tasks);
        assert(s0.logs.subrange(0, s0.logs.len() as int) =~= s0.logs);
    }
    let mut i: usize = 0;
    while i < data.projects.len()
        invariant
            i <= data.projects.len(),
            s0 == old(db)@,
            s0.wf(),
            np == s0.projects.len(),
            nt == s0.tasks.len(),
            nl == s0.logs.len(),
            ps == s0.project_seq,
            ts == s0.task_seq,
            ls == s0.log_seq,
            db@.wf(),
            extends(db@, s0),
            import_prefix(s0, data@, i as nat) == Some(db@),
        decreases data.projects.len() - i,
    {
        let ghost before = db@;
        let ok = db.import_one(&data.projects[i], data);
        proof {
            assert(data@.projects[i as int] == data.projects@[i as int]@);
            lemma_extends_trans(db@, before, s0);
        }
        if !ok {
            proof {
                lemma_import_prefix_stays_failed(s0, data@, (i + 1) as nat, data@.projects.len());
            }
            let ghost partial = db@;
            db.projects.truncate(np);
            db.tasks.truncate(nt);
            db.logs.truncate(nl);
            db.project_seq = ps;
            db.task_seq = ts;
            db.log_seq = ls;
            proof {
                assert(db@.projects =~= partial.projects.subrange(0, np as int));
                assert(db@.tasks =~= partial.tasks.subrange(0, nt as int));
                assert(db@.logs =~= partial.logs.subrange(0, nl as int));
                assert(db@.projects == s0.projects);
                assert(db@.tasks == s0.tasks);
                assert(db@.logs == s0.logs);
                assert(db@ == s0);
            }
            return Err(DbError::Full);
        }
        i = i + 1;
    }
    Ok(())
}

} // verus!
