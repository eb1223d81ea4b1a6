//! The tracker's records: projects, tasks and daily logs, each with the
//! plain row of values that contracts speak of.
use vstd::prelude::*;

verus! {

/// A project: what is being worked on, how far it has come, and when it
/// was last touched.
#[derive(Debug, Clone)]
pub struct Project {
    pub id: i64,
    pub name: String,
    pub goal: String,
    pub status: String,
    pub progress: i32,
    pub current_task: String,
    pub created_at: String,
    pub updated_at: String,
}

/// A task of a project; its status is `todo` or `done`.
#[derive(Debug, Clone)]
pub struct Task {
    pub id: i64,
    pub project_id: i64,
    pub description: String,
    pub status: String,
    pub created_at: String,
}

/// A daily log entry of a project: what was done and what comes next.
#[derive(Debug, Clone)]
pub struct Log {
    pub id: i64,
    pub project_id: i64,
    pub date: String,
    pub notes: String,
    pub next_action: String,
    pub created_at: String,
}

/// A project as plain values.
pub struct ProjectRow {
    pub id: i64,
    pub name: Seq<char>,
    pub goal: Seq<char>,
    pub status: Seq<char>,
    pub progress: i32,
    pub current_task: Seq<char>,
    pub created_at: Seq<char>,
    pub updated_at: Seq<char>,
}

/// A task as plain values.
pub struct TaskRow {
    pub id: i64,
    pub project_id: i64,
    pub description: Seq<char>,
    pub status: Seq<char>,
    pub created_at: Seq<char>,
}

/// A log entry as plain values.
pub struct LogRow {
    pub id: i64,
    pub project_id: i64,
    pub date: Seq<char>,
    pub notes: Seq<char>,
    pub next_action: Seq<char>,
    pub created_at: Seq<char>,
}

impl View for Project {
    type V = ProjectRow;

    open spec fn view(&self) -> ProjectRow {
        ProjectRow {
            id: self.id,
            name: self.name@,
            goal: self.goal@,
            status: self.status@,
            progress: self.progress,
            current_task: self.current_task@,
            created_at: self.created_at@,
            updated_at: self.updated_at@,
        }
    }
}

impl View for Task {
    type V = TaskRow;

    open spec fn view(&self) -> TaskRow {
        TaskRow {
            id: self.id,
            project_id: self.project_id,
            description: self.description@,
            status: self.status@,
            created_at: self.created_at@,
        }
    }
}

impl View for Log {
    type V = LogRow;

    open spec fn view(&self) -> LogRow {
        LogRow {
            id: self.id,
            project_id: self.project_id,
            date: self.date@,
            notes: self.notes@,
            next_action: self.next_action@,
            created_at: self.created_at@,
        }
    }
}

impl Project {
    /// An equal project, owned separately.
    pub fn duplicate(&self) -> (r: Project)
        ensures
            r@ == self@,
    {
        Project {
            id: self.id,
            name: self.name.clone(),
            goal: self.goal.clone(),
            status: self.status.clone(),
            progress: self.progress,
            current_task: self.current_task.clone(),
            created_at: self.created_at.clone(),
            updated_at: self.updated_at.clone(),
        }
    }
}

impl Task {
    /// An equal task, owned separately.
    pub fn duplicate(&self) -> (r: Task)
        ensures
            r@ == self@,
    {
        Task {
            id: self.id,
            project_id: self.project_id,
            description: self.description.clone(),
            status: self.status.clone(),
            created_at: self.created_at.clone(),
        }
    }
}

impl Log {
    /// An equal log entry, owned separately.
    pub fn duplicate(&self) -> (r: Log)
        ensures
            r@ == self@,
    {
        Log {
            id: self.id,
            project_id: self.project_id,
            date: self.date.clone(),
            notes: self.notes.clone(),
            next_action: self.next_action.clone(),
            created_at: self.created_at.clone(),
        }
    }
}

/// The rows of a vector of projects.
pub open spec fn project_rows(v: Seq<Project>) -> Seq<ProjectRow> {
    v.map_values(|p: Project| p@)
}

/// The rows of a vector of tasks.
pub open spec fn task_rows(v: Seq<Task>) -> Seq<TaskRow> {
    v.map_values(|t: Task| t@)
}

/// The rows of a vector of log entries.
pub open spec fn log_rows(v: Seq<Log>) -> Seq<LogRow> {
    v.map_values(|l: Log| l@)
}

/// One hit of a search: a project, a task or a log entry.
#[derive(Debug, Clone)]
pub enum SearchResult {
    ProjectResult(Project),
    TaskResult(Task),
    LogResult(Log),
}

/// A search hit as plain values.
pub enum SearchHit {
    ProjectHit(ProjectRow),
    TaskHit(TaskRow),
    LogHit(LogRow),
}

impl View for SearchResult {
    type V = SearchHit;

    open spec fn view(&self) -> SearchHit {
        match self {
            SearchResult::ProjectResult(p) => SearchHit::ProjectHit(p@),
            SearchResult::TaskResult(t) => SearchHit::TaskHit(t@),
            SearchResult::LogResult(l) => SearchHit::LogHit(l@),
        }
    }
}

/// The rows of a vector of search results.
pub open spec fn hit_rows(v: Seq<SearchResult>) -> Seq<SearchHit> {
    v.map_values(|r: SearchResult| r@)
}

/// Everything the tracker holds, as it is written out and read back in.
#[derive(Debug, Clone)]
pub struct ExportData {
    pub projects: Vec<Project>,
    pub tasks: Vec<Task>,
    pub logs: Vec<Log>,
}

/// Exported data as plain values.
pub struct ExportRows {
    pub projects: Seq<ProjectRow>,
    pub tasks: Seq<TaskRow>,
    pub logs: Seq<LogRow>,
}

impl View for ExportData {
    type V = ExportRows;

    open spec fn view(&self) -> ExportRows {
        ExportRows {
            projects: project_rows(self.projects@),
            tasks: task_rows(self.tasks@),
            logs: log_rows(self.logs@),
        }
    }
}

} // verus!
