//! The tracker's state as plain values, and what each operation makes of it.
use crate::order::sort_ordered;
use crate::records::{ExportRows, LogRow, ProjectRow, SearchHit, TaskRow};
use crate::text::{contains_pattern, like_matches, text_lt};
use vstd::prelude::*;

verus! {

/// Why an operation on the tracker was refused.
#[derive(Debug, Clone, Copy, PartialEq, Eq)]
pub enum DbError {
    /// The record that the operation names does not exist.
    NoRows,
    /// A task or log entry would belong to a project that does not exist.
    ForeignKey,
    /// The table has handed out its largest possible id.
    Full,
    /// Tables handed in do not form a consistent state.
    Inconsistent,
}

/// The whole tracker: three tables in ascending id order, and for each the
/// largest id it has handed out so far.
pub struct DbState {
    pub projects: Seq<ProjectRow>,
    pub tasks: Seq<TaskRow>,
    pub logs: Seq<LogRow>,
    pub project_seq: i64,
    pub task_seq: i64,
    pub log_seq: i64,
}

// ── Lookups ─────────────────────────────────────────────────

/// The first project with id `id`.
pub open spec fn find_project(rows: Seq<ProjectRow>, id: i64) -> Option<ProjectRow>
    decreases rows.len(),
{
    if rows.len() == 0 {
        None
    } else if rows[0].id == id {
        Some(rows[0])
    } else {
        find_project(rows.drop_first(), id)
    }
}

/// The first task with id `id`.
pub open spec fn find_task(rows: Seq<TaskRow>, id: i64) -> Option<TaskRow>
    decreases rows.len(),
{
    if rows.len() == 0 {
        None
    } else if rows[0].id == id {
        Some(rows[0])
    } else {
        find_task(rows.drop_first(), id)
    }
}

/// Some project has id `id`.
pub open spec fn has_project(rows: Seq<ProjectRow>, id: i64) -> bool {
    exists|k: int| 0 <= k < rows.len() && (#[trigger] rows[k]).id == id
}

pub open spec fn project_ids_ascending(rows: Seq<ProjectRow>) -> bool {
    forall|i: int, j: int| 0 <= i < j < rows.len() ==> (#[trigger] rows[i]).id < (#[trigger] rows[j]).id
}

pub open spec fn task_ids_ascending(rows: Seq<TaskRow>) -> bool {
    forall|i: int, j: int| 0 <= i < j < rows.len() ==> (#[trigger] rows[i]).id < (#[trigger] rows[j]).id
}

pub open spec fn log_ids_ascending(rows: Seq<LogRow>) -> bool {
    forall|i: int, j: int| 0 <= i < j < rows.len() ==> (#[trigger] rows[i]).id < (#[trigger] rows[j]).id
}

// ── Orders ──────────────────────────────────────────────────

/// Projects are listed most recently updated first; among projects updated
/// at the same time, the older one (smaller id) first.
pub open spec fn recency_before() -> spec_fn(ProjectRow, ProjectRow) -> bool {
    |a: ProjectRow, b: ProjectRow|
        text_lt(b.updated_at, a.updated_at) || (a.updated_at == b.updated_at && a.id < b.id)
}

/// Tasks are listed by status, then by creation time, then by id, all
/// ascending (so `done` before `todo`).
pub open spec fn task_before() -> spec_fn(TaskRow, TaskRow) -> bool {
    |a: TaskRow, b: TaskRow|
        text_lt(a.status, b.status) || (a.status == b.status && (text_lt(
            a.created_at,
            b.created_at,
        ) || (a.created_at == b.created_at && a.id < b.id)))
}

pub open spec fn by_recency(rows: Seq<ProjectRow>) -> Seq<ProjectRow> {
    sort_ordered(rows, recency_before())
}

pub open spec fn by_status_and_age(rows: Seq<TaskRow>) -> Seq<TaskRow> {
    sort_ordered(rows, task_before())
}

// ── Filters ─────────────────────────────────────────────────

/// A project is listed unless it is archived.
pub open spec fn is_listed(p: ProjectRow) -> bool {
    p.status != "archived"@
}

pub open spec fn listed() -> spec_fn(ProjectRow) -> bool {
    |p: ProjectRow| is_listed(p)
}

pub open spec fn project_id_other_than(id: i64) -> spec_fn(ProjectRow) -> bool {
    |p: ProjectRow| p.id != id
}

pub open spec fn task_id_other_than(id: i64) -> spec_fn(TaskRow) -> bool {
    |t: TaskRow| t.id != id
}

pub open spec fn log_id_other_than(id: i64) -> spec_fn(LogRow) -> bool {
    |l: LogRow| l.id != id
}

pub open spec fn task_of(pid: i64) -> spec_fn(TaskRow) -> bool {
    |t: TaskRow| t.project_id == pid
}

pub open spec fn task_not_of(pid: i64) -> spec_fn(TaskRow) -> bool {
    |t: TaskRow| t.project_id != pid
}

pub open spec fn log_of(pid: i64) -> spec_fn(LogRow) -> bool {
    |l: LogRow| l.project_id == pid
}

pub open spec fn log_not_of(pid: i64) -> spec_fn(LogRow) -> bool {
    |l: LogRow| l.project_id != pid
}

// ── New rows ────────────────────────────────────────────────

/// A new project: active, at no progress, with no current task, created
/// and updated now.
pub open spec fn new_project_row(id: i64, name: Seq<char>, goal: Seq<char>, now: Seq<char>) -> ProjectRow {
    ProjectRow {
        id,
        name,
        goal,
        status: "active"@,
        progress: 0,
        current_task: Seq::empty(),
        created_at: now,
        updated_at: now,
    }
}

/// A new task: still to do, created now.
pub open spec fn new_task_row(id: i64, project_id: i64, description: Seq<char>, now: Seq<char>) -> TaskRow {
    TaskRow { id, project_id, description, status: "todo"@, created_at: now }
}

/// A new log entry, dated today and created now.
pub open spec fn new_log_row(
    id: i64,
    project_id: i64,
    notes: Seq<char>,
    next_action: Seq<char>,
    today: Seq<char>,
    now: Seq<char>,
) -> LogRow {
    LogRow { id, project_id, date: today, notes, next_action, created_at: now }
}

/// The status a task has after a toggle: `done` when it was `todo`, and
/// `todo` in every other case.
pub open spec fn toggled_status(status: Seq<char>) -> Seq<char> {
    if status == "todo"@ {
        "done"@
    } else {
        "todo"@
    }
}

pub open spec fn touched_project(p: ProjectRow, id: i64, now: Seq<char>) -> ProjectRow {
    if p.id == id {
        ProjectRow { updated_at: now, ..p }
    } else {
        p
    }
}

pub open spec fn edited_project(
    p: ProjectRow,
    id: i64,
    name: Seq<char>,
    goal: Seq<char>,
    status: Seq<char>,
    progress: i32,
    current_task: Seq<char>,
    now: Seq<char>,
) -> ProjectRow {
    if p.id == id {
        ProjectRow { id: p.id, name, goal, status, progress, current_task, created_at: p.created_at, updated_at: now }
    } else {
        p
    }
}

pub open spec fn archived_project(p: ProjectRow, id: i64, now: Seq<char>) -> ProjectRow {
    if p.id == id {
        ProjectRow { status: "archived"@, updated_at: now, ..p }
    } else {
        p
    }
}

pub open spec fn toggled_task(t: TaskRow, id: i64) -> TaskRow {
    if t.id == id {
        TaskRow { status: toggled_status(t.status), ..t }
    } else {
        t
    }
}

// ── Search ──────────────────────────────────────────────────

/// The project `pid` exists and is not archived.
pub open spec fn project_is_live(projects: Seq<ProjectRow>, pid: i64) -> bool {
    exists|k: int| 0 <= k < projects.len() && (#[trigger] projects[k]).id == pid && is_listed(projects[k])
}

pub open spec fn project_hit(pat: Seq<char>) -> spec_fn(ProjectRow) -> bool {
    |p: ProjectRow| (like_matches(pat, p.name) || like_matches(pat, p.goal)) && is_listed(p)
}

pub open spec fn task_hit(pat: Seq<char>, projects: Seq<ProjectRow>) -> spec_fn(TaskRow) -> bool {
    |t: TaskRow| like_matches(pat, t.description) && project_is_live(projects, t.project_id)
}

pub open spec fn log_hit(pat: Seq<char>, projects: Seq<ProjectRow>) -> spec_fn(LogRow) -> bool {
    |l: LogRow|
        (like_matches(pat, l.notes) || like_matches(pat, l.next_action)) && project_is_live(
            projects,
            l.project_id,
        )
}

pub open spec fn as_project_hit(p: ProjectRow) -> SearchHit {
    SearchHit::ProjectHit(p)
}

pub open spec fn as_task_hit(t: TaskRow) -> SearchHit {
    SearchHit::TaskHit(t)
}

pub open spec fn as_log_hit(l: LogRow) -> SearchHit {
    SearchHit::LogHit(l)
}

/// The projects among `rows` that a search with pattern `pat` finds.
pub open spec fn project_hits(rows: Seq<ProjectRow>, pat: Seq<char>) -> Seq<SearchHit> {
    rows.filter(project_hit(pat)).map_values(|p: ProjectRow| as_project_hit(p))
}

/// The tasks among `rows` that a search with pattern `pat` finds.
pub open spec fn task_hits(rows: Seq<TaskRow>, pat: Seq<char>, projects: Seq<ProjectRow>) -> Seq<SearchHit> {
    rows.filter(task_hit(pat, projects)).map_values(|t: TaskRow| as_task_hit(t))
}

/// The log entries among `rows` that a search with pattern `pat` finds.
pub open spec fn log_hits(rows: Seq<LogRow>, pat: Seq<char>, projects: Seq<ProjectRow>) -> Seq<SearchHit> {
    rows.filter(log_hit(pat, projects)).map_values(|l: LogRow| as_log_hit(l))
}

// ── Flattening per project ──────────────────────────────────

/// The tasks of each project in `order`, project after project.
pub open spec fn tasks_in_project_order(s: DbState, order: Seq<ProjectRow>) -> Seq<TaskRow>
    decreases order.len(),
{
    if order.len() == 0 {
        Seq::empty()
    } else {
        tasks_in_project_order(s, order.drop_last()) + s.project_tasks(order.last().id)
    }
}

/// The log entries of each project in `order`, project after project.
pub open spec fn logs_in_project_order(s: DbState, order: Seq<ProjectRow>) -> Seq<LogRow>
    decreases order.len(),
{
    if order.len() == 0 {
        Seq::empty()
    } else {
        logs_in_project_order(s, order.drop_last()) + s.project_logs(order.last().id)
    }
}

impl DbState {
    /// No project, task or log entry, and no id handed out yet.
    pub open spec fn empty() -> DbState {
        DbState {
            projects: Seq::empty(),
            tasks: Seq::empty(),
            logs: Seq::empty(),
            project_seq: 0,
            task_seq: 0,
            log_seq: 0,
        }
    }

    /// Each table is in ascending id order, every id lies between 1 and
    /// the largest id its table has handed out, and every task and log
    /// entry belongs to an existing project.
    pub open spec fn wf(self) -> bool {
        &&& 0 <= self.project_seq
        &&& 0 <= self.task_seq
        &&& 0 <= self.log_seq
        &&& project_ids_ascending(self.projects)
        &&& task_ids_ascending(self.tasks)
        &&& log_ids_ascending(self.logs)
        &&& forall|i: int|
            0 <= i < self.projects.len() ==> 1 <= (#[trigger] self.projects[i]).id
                <= self.project_seq
        &&& forall|i: int|
            0 <= i < self.tasks.len() ==> 1 <= (#[trigger] self.tasks[i]).id <= self.task_seq
        &&& forall|i: int|
            0 <= i < self.logs.len() ==> 1 <= (#[trigger] self.logs[i]).id <= self.log_seq
        &&& forall|i: int|
            0 <= i < self.tasks.len() ==> has_project(
                self.projects,
                (#[trigger] self.tasks[i]).project_id,
            )
        &&& forall|i: int|
            0 <= i < self.logs.len() ==> has_project(
                self.projects,
                (#[trigger] self.logs[i]).project_id,
            )
    }

    pub open spec fn project(self, id: i64) -> Option<ProjectRow> {
        find_project(self.projects, id)
    }

    pub open spec fn task(self, id: i64) -> Option<TaskRow> {
        find_task(self.tasks, id)
    }

    /// Marks project `id` as updated now.
    pub open spec fn touched(self, id: i64, now: Seq<char>) -> DbState {
        DbState { projects: self.projects.map_values(|p: ProjectRow| touched_project(p, id, now)), ..self }
    }

    /// A new project appended under the next project id.
    pub open spec fn with_new_project(self, name: Seq<char>, goal: Seq<char>, now: Seq<char>) -> DbState {
        let id = (self.project_seq + 1) as i64;
        DbState {
            projects: self.projects.push(new_project_row(id, name, goal, now)),
            project_seq: id,
            ..self
        }
    }

    pub open spec fn with_project_edited(
        self,
        id: i64,
        name: Seq<char>,
        goal: Seq<char>,
        status: Seq<char>,
        progress: i32,
        current_task: Seq<char>,
        now: Seq<char>,
    ) -> DbState {
        DbState {
            projects: self.projects.map_values(
                |p: ProjectRow| edited_project(p, id, name, goal, status, progress, current_task, now),
            ),
            ..self
        }
    }

    pub open spec fn with_project_archived(self, id: i64, now: Seq<char>) -> DbState {
        DbState { projects: self.projects.map_values(|p: ProjectRow| archived_project(p, id, now)), ..self }
    }

    /// Project `id` removed together with its tasks and its log entries.
    pub open spec fn without_project(self, id: i64) -> DbState {
        DbState {
            projects: self.projects.filter(project_id_other_than(id)),
            tasks: self.tasks.filter(task_not_of(id)),
            logs: self.logs.filter(log_not_of(id)),
            ..self
        }
    }

    /// A new task of project `pid` appended under the next task id, and the
    /// project marked as updated.
    pub open spec fn with_new_task(self, pid: i64, description: Seq<char>, now: Seq<char>) -> DbState {
        let id = (self.task_seq + 1) as i64;
        DbState {
            tasks: self.tasks.push(new_task_row(id, pid, description, now)),
            task_seq: id,
            ..self
        }.touched(pid, now)
    }

    /// Task `id` toggled, and its project marked as updated.
    pub open spec fn with_task_toggled(self, id: i64, now: Seq<char>) -> DbState {
        DbState { tasks: self.tasks.map_values(|t: TaskRow| toggled_task(t, id)), ..self }.touched(
            self.task(id).unwrap().project_id,
            now,
        )
    }

    /// Task `id` removed, and its project marked as updated.
    pub open spec fn without_task(self, id: i64, now: Seq<char>) -> DbState {
        DbState { tasks: self.tasks.filter(task_id_other_than(id)), ..self }.touched(
            self.task(id).unwrap().project_id,
            now,
        )
    }

    /// A new log entry of project `pid` appended under the next log id, and
    /// the project marked as updated.
    pub open spec fn with_new_log(
        self,
        pid: i64,
        notes: Seq<char>,
        next_action: Seq<char>,
        today: Seq<char>,
        now: Seq<char>,
    ) -> DbState {
        let id = (self.log_seq + 1) as i64;
        DbState {
            logs: self.logs.push(new_log_row(id, pid, notes, next_action, today, now)),
            log_seq: id,
            ..self
        }.touched(pid, now)
    }

    pub open spec fn without_log(self, id: i64) -> DbState {
        DbState { logs: self.logs.filter(log_id_other_than(id)), ..self }
    }

    /// The projects that are not archived, most recently updated first.
    pub open spec fn listed_projects(self) -> Seq<ProjectRow> {
        by_recency(self.projects.filter(listed()))
    }

    /// All projects, archived ones too, most recently updated first.
    pub open spec fn all_projects(self) -> Seq<ProjectRow> {
        by_recency(self.projects)
    }

    /// The tasks of project `pid`, by status and then by age.
    pub open spec fn project_tasks(self, pid: i64) -> Seq<TaskRow> {
        by_status_and_age(self.tasks.filter(task_of(pid)))
    }

    /// The log entries of project `pid`, newest (largest id) first.
    pub open spec fn project_logs(self, pid: i64) -> Seq<LogRow> {
        self.logs.filter(log_of(pid)).reverse()
    }

    /// The newest log entry of project `pid`, if it has any.
    pub open spec fn latest_log(self, pid: i64) -> Option<LogRow> {
        if self.project_logs(pid).len() > 0 {
            Some(self.project_logs(pid)[0])
        } else {
            None
        }
    }

    /// What a search for `query` finds: the projects whose name or goal
    /// contains it, then the tasks whose description contains it, then the
    /// log entries whose notes or next action contain it, each in id order,
    /// leaving out archived projects and everything that belongs to one.
    pub open spec fn search_hits(self, query: Seq<char>) -> Seq<SearchHit> {
        let pat = contains_pattern(query);
        project_hits(self.projects, pat) + task_hits(self.tasks, pat, self.projects) + log_hits(
            self.logs,
            pat,
            self.projects,
        )
    }

    /// Everything, as it is exported: all projects most recently updated
    /// first, then the tasks and the log entries of each in that order.
    pub open spec fn export_rows(self) -> ExportRows {
        ExportRows {
            projects: self.all_projects(),
            tasks: tasks_in_project_order(self, self.all_projects()),
            logs: logs_in_project_order(self, self.all_projects()),
        }
    }
}

} // verus!
