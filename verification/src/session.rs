//! What the tracker's screens show and how each user action changes them:
//! the screen in view, the rows on it, the forms being filled in, and the
//! store that actions change.
use crate::db::{
    archive_project, create_log, create_project, create_task, delete_log, delete_task,
    get_all_projects, get_latest_log, get_logs_for_project, get_project, get_tasks_for_project,
    toggle_task_status, update_project, Database,
};
use crate::records::{hit_rows, log_rows, project_rows, task_rows, ExportData, Log, LogRow, Project, ProjectRow, SearchResult, Task, TaskRow};
use crate::search::search_all;
use crate::text::{trim, trimmed};
use crate::transfer::{export_data, imported};
use vstd::prelude::*;

verus! {

broadcast use vstd::seq_lib::group_filter_ensures;

/// The screen in view.
#[derive(Debug, Clone, Copy, PartialEq, Eq)]
pub enum Screen {
    Dashboard,
    ProjectDetail(i64),
    Search,
}

/// What a keyboard shortcut asks for.
#[derive(Debug, Clone, Copy, PartialEq, Eq)]
pub enum Shortcut {
    /// Ctrl+N: open the form for a new project (on the dashboard).
    NewProject,
    /// Ctrl+F: go to the search screen.
    Search,
    /// Ctrl+D: go to the dashboard.
    Dashboard,
}

/// The shortcut that the keys pressed in one frame ask for: none without
/// Ctrl; with Ctrl, D wins over F, and F over N.
pub fn shortcut_for(ctrl: bool, n: bool, f: bool, d: bool) -> (r: Option<Shortcut>)
    ensures
        r == if ctrl && d {
            Some(Shortcut::Dashboard)
        } else if ctrl && f {
            Some(Shortcut::Search)
        } else if ctrl && n {
            Some(Shortcut::NewProject)
        } else {
            None::<Shortcut>
        },
{
    let mut action: Option<Shortcut> = None;
    if n && ctrl {
        action = Some(Shortcut::NewProject);
    }
    if f && ctrl {
        action = Some(Shortcut::Search);
    }
    if d && ctrl {
        action = Some(Shortcut::Dashboard);
    }
    action
}

/// The project row held in `o`, if any.
pub open spec fn project_row_of(o: Option<Project>) -> Option<ProjectRow> {
    match o {
        Some(p) => Some(p@),
        None => None,
    }
}

/// The log row held in `o`, if any.
pub open spec fn log_row_of(o: Option<Log>) -> Option<LogRow> {
    match o {
        Some(l) => Some(l@),
        None => None,
    }
}

/// The tracker as a user sees and works it.
pub struct Session {
    pub db: Database,
    pub screen: Screen,
    pub projects: Vec<Project>,
    pub tasks: Vec<Task>,
    pub logs: Vec<Log>,
    pub current_project: Option<Project>,
    pub latest_log: Option<Log>,
    pub show_create_project: bool,
    pub new_project_name: String,
    pub new_project_goal: String,
    pub new_task_desc: String,
    pub new_log_notes: String,
    pub new_log_next_action: String,
    pub edit_project_name: String,
    pub edit_project_goal: String,
    pub edit_project_progress: i32,
    pub edit_project_current_task: String,
    pub show_edit_project: bool,
    pub search_query: String,
    pub search_results: Vec<SearchResult>,
    pub search_performed: bool,
    pub needs_refresh: bool,
}

impl Session {
    /// The dashboard's list shows the store's projects that are not
    /// archived, most recently updated first.
    pub open spec fn shows_projects(&self) -> bool {
        project_rows(self.projects@) == self.db@.listed_projects()
    }

    /// The detail view holds project `pid` as the store has it, with its
    /// tasks, its log entries and its latest entry.
    pub open spec fn shows_project_detail(&self, pid: i64) -> bool {
        &&& project_row_of(self.current_project) == self.db@.project(pid)
        &&& task_rows(self.tasks@) == self.db@.project_tasks(pid)
        &&& log_rows(self.logs@) == self.db@.project_logs(pid)
        &&& log_row_of(self.latest_log) == self.db@.latest_log(pid)
    }

    /// A session on the dashboard over `db`, with empty forms and nothing
    /// searched yet.
    pub fn new(db: Database) -> (s: Session)
        requires
            db@.wf(),
        ensures
            s.db@ == db@,
            s.screen == Screen::Dashboard,
            s.shows_projects(),
            s.tasks@.len() == 0,
            s.logs@.len() == 0,
            s.current_project is None,
            s.latest_log is None,
            !s.show_create_project,
            !s.show_edit_project,
            !s.search_performed,
            !s.needs_refresh,
            s.new_project_name@.len() == 0,
            s.new_project_goal@.len() == 0,
            s.new_task_desc@.len() == 0,
            s.new_log_notes@.len() == 0,
            s.new_log_next_action@.len() == 0,
            s.edit_project_name@.len() == 0,
            s.edit_project_goal@.len() == 0,
            s.edit_project_progress == 0,
            s.edit_project_current_task@.len() == 0,
            s.search_query@.len() == 0,
            s.search_results@.len() == 0,
    {
        let projects = match get_all_projects(&db) {
            Ok(v) => v,
            Err(_) => Vec::new(),
        };
        Session {
            db,
            screen: Screen::Dashboard,
            projects,
            tasks: Vec::new(),
            logs: Vec::new(),
            current_project: None,
            latest_log: None,
            show_create_project: false,
            new_project_name: String::new(),
            new_project_goal: String::new(),
            new_task_desc: String::new(),
            new_log_notes: String::new(),
            new_log_next_action: String::new(),
            edit_project_name: String::new(),
            edit_project_goal: String::new(),
            edit_project_progress: 0,
            edit_project_current_task: String::new(),
            show_edit_project: false,
            search_query: String::new(),
            search_results: Vec::new(),
            search_performed: false,
            needs_refresh: false,
        }
    }

    /// Reloads the dashboard's list of projects.
    pub fn refresh_projects(&mut self)
        requires
            old(self).db@.wf(),
        ensures
            *final(self) == (Session { projects: final(self).projects, ..*old(self) }),
            final(self).shows_projects(),
    {
        self.projects = match get_all_projects(&self.db) {
            Ok(v) => v,
            Err(_) => Vec::new(),
        };
    }

    /// Reloads project `pid`, its tasks, its log entries and its latest
    /// entry.
    pub fn refresh_project_detail(&mut self, pid: i64)
        requires
            old(self).db@.wf(),
        ensures
            *final(self) == (Session {
                current_project: final(self).current_project,
                tasks: final(self).tasks,
                logs: final(self).logs,
                latest_log: final(self).latest_log,
                ..*old(self)
            }),
            final(self).shows_project_detail(pid),
    {
        self.current_project = match get_project(&self.db, pid) {
            Ok(p) => Some(p),
            Err(_) => None,
        };
        self.tasks = match get_tasks_for_project(&self.db, pid) {
            Ok(v) => v,
            Err(_) => Vec::new(),
        };
        self.logs = match get_logs_for_project(&self.db, pid) {
            Ok(v) => v,
            Err(_) => Vec::new(),
        };
        self.latest_log = match get_latest_log(&self.db, pid) {
            Ok(o) => o,
            Err(_) => None,
        };
    }

    /// Opens project `pid`: its detail is loaded, the edit form is closed
    /// and the new-task and new-log forms are emptied.
    pub fn navigate_to_project(&mut self, pid: i64)
        requires
            old(self).db@.wf(),
        ensures
            *final(self) == (Session {
                screen: Screen::ProjectDetail(pid),
                current_project: final(self).current_project,
                tasks: final(self).tasks,
                logs: final(self).logs,
                latest_log: final(self).latest_log,
                show_edit_project: false,
                new_task_desc: final(self).new_task_desc,
                new_log_notes: final(self).new_log_notes,
                new_log_next_action: final(self).new_log_next_action,
                ..*old(self)
            }),
            final(self).shows_project_detail(pid),
            final(self).new_task_desc@.len() == 0,
            final(self).new_log_notes@.len() == 0,
            final(self).new_log_next_action@.len() == 0,
    {
        self.screen = Screen::ProjectDetail(pid);
        self.refresh_project_detail(pid);
        self.show_edit_project = false;
        self.new_task_desc = String::new();
        self.new_log_notes = String::new();
        self.new_log_next_action = String::new();
    }

    /// Goes to the search screen with an empty query and no results.
    pub fn open_search(&mut self)
        ensures
            *final(self) == (Session {
                screen: Screen::Search,
                search_query: final(self).search_query,
                search_results: final(self).search_results,
                search_performed: false,
                ..*old(self)
            }),
            final(self).search_query@.len() == 0,
            final(self).search_results@.len() == 0,
    {
        self.screen = Screen::Search;
        self.search_query = String::new();
        self.search_results = Vec::new();
        self.search_performed = false;
    }

    /// Goes to the dashboard with its list reloaded.
    pub fn open_dashboard(&mut self)
        requires
            old(self).db@.wf(),
        ensures
            *final(self) == (Session {
                screen: Screen::Dashboard,
                projects: final(self).projects,
                ..*old(self)
            }),
            final(self).shows_projects(),
    {
        self.screen = Screen::Dashboard;
        self.refresh_projects();
    }

    /// Does what a shortcut asks for: the search screen, the dashboard, or
    /// (on the dashboard only) the form for a new project.
    pub fn apply_shortcut(&mut self, action: Option<Shortcut>)
        requires
            old(self).db@.wf(),
        ensures
            match action {
                Some(Shortcut::Search) => {
                    &&& *final(self) == (Session {
                        screen: Screen::Search,
                        search_query: final(self).search_query,
                        search_results: final(self).search_results,
                        search_performed: false,
                        ..*old(self)
                    })
                    &&& final(self).search_query@.len() == 0
                    &&& final(self).search_results@.len() == 0
                },
                Some(Shortcut::Dashboard) => {
                    &&& *final(self) == (Session {
                        screen: Screen::Dashboard,
                        projects: final(self).projects,
                        ..*old(self)
                    })
                    &&& final(self).shows_projects()
                },
                Some(Shortcut::NewProject) => *final(self) == (Session {
                    show_create_project: old(self).show_create_project || old(self).screen
                        == Screen::Dashboard,
                    ..*old(self)
                }),
                None => *final(self) == *old(self),
            },
    {
        match action {
            Some(Shortcut::Search) => self.open_search(),
            Some(Shortcut::Dashboard) => self.open_dashboard(),
            Some(Shortcut::NewProject) => {
                if let Screen::Dashboard = self.screen {
                    self.show_create_project = true;
                }
            },
            None => {},
        }
    }

    /// When a change asked for it, reloads the dashboard's list and, on a
    /// project's screen, that project's detail.
    pub fn apply_pending_refresh(&mut self)
        requires
            old(self).db@.wf(),
        ensures
            !old(self).needs_refresh ==> *final(self) == *old(self),
            old(self).needs_refresh ==> {
                &&& final(self).shows_projects()
                &&& (old(self).screen matches Screen::ProjectDetail(pid) ==> {
                    &&& final(self).shows_project_detail(pid)
                    &&& *final(self) == (Session {
                        needs_refresh: false,
                        projects: final(self).projects,
                        current_project: final(self).current_project,
                        tasks: final(self).tasks,
                        logs: final(self).logs,
                        latest_log: final(self).latest_log,
                        ..*old(self)
                    })
                })
                &&& !(old(self).screen is ProjectDetail) ==> *final(self) == (Session {
                    needs_refresh: false,
                    projects: final(self).projects,
                    ..*old(self)
                })
            },
    {
        if self.needs_refresh {
            self.needs_refresh = false;
            self.refresh_projects();
            if let Screen::ProjectDetail(id) = self.screen {
                self.refresh_project_detail(id);
            }
        }
    }

    /// Creates a project from the new-project form when its name is not
    /// blank: name and goal are taken trimmed, the form is emptied and
    /// closed, and the list is reloaded. Nothing changes for a blank name.
    /// Returns whether the form was taken.
    pub fn submit_new_project(&mut self, now: &str) -> (taken: bool)
        requires
            old(self).db@.wf(),
        ensures
            final(self).db@.wf(),
            taken == (trimmed(old(self).new_project_name@).len() > 0),
            !taken ==> *final(self) == *old(self),
            taken ==> {
                &&& final(self).db@ == if old(self).db@.project_seq < i64::MAX {
                    old(self).db@.with_new_project(
                        trimmed(old(self).new_project_name@),
                        trimmed(old(self).new_project_goal@),
                        now@,
                    )
                } else {
                    old(self).db@
                }
                &&& final(self).new_project_name@.len() == 0
                &&& final(self).new_project_goal@.len() == 0
                &&& !final(self).show_create_project
                &&& final(self).shows_projects()
                &&& *final(self) == (Session {
                    db: final(self).db,
                    projects: final(self).projects,
                    new_project_name: final(self).new_project_name,
                    new_project_goal: final(self).new_project_goal,
                    show_create_project: false,
                    ..*old(self)
                })
            },
    {
        let name = trim(self.new_project_name.as_str());
        if name.as_str().is_empty() {
            return false;
        }
        let goal = trim(self.new_project_goal.as_str());
        let _ = create_project(&mut self.db, name.as_str(), goal.as_str(), now);
        self.new_project_name = String::new();
        self.new_project_goal = String::new();
        self.show_create_project = false;
        self.refresh_projects();
        true
    }

    /// Closes the new-project form and empties it.
    pub fn cancel_new_project(&mut self)
        ensures
            *final(self) == (Session {
                show_create_project: false,
                new_project_name: final(self).new_project_name,
                new_project_goal: final(self).new_project_goal,
                ..*old(self)
            }),
            final(self).new_project_name@.len() == 0,
            final(self).new_project_goal@.len() == 0,
    {
        self.show_create_project = false;
        self.new_project_name = String::new();
        self.new_project_goal = String::new();
    }

    /// Fills the edit form from the project in view and opens it (or
    /// closes it when it was open).
    pub fn begin_edit(&mut self)
        ensures
            old(self).current_project is None ==> *final(self) == *old(self),
            old(self).current_project matches Some(p) ==> {
                &&& final(self).edit_project_name@ == p.name@
                &&& final(self).edit_project_goal@ == p.goal@
                &&& final(self).edit_project_current_task@ == p.current_task@
                &&& *final(self) == (Session {
                    edit_project_name: final(self).edit_project_name,
                    edit_project_goal: final(self).edit_project_goal,
                    edit_project_progress: p.progress,
                    edit_project_current_task: final(self).edit_project_current_task,
                    show_edit_project: !old(self).show_edit_project,
                    ..*old(self)
                })
            },
    {
        match &self.current_project {
            Some(p) => {
                let name = p.name.clone();
                let goal = p.goal.clone();
                let progress = p.progress;
                let current_task = p.current_task.clone();
                self.edit_project_name = name;
                self.edit_project_goal = goal;
                self.edit_project_progress = progress;
                self.edit_project_current_task = current_task;
                self.show_edit_project = !self.show_edit_project;
            },
            None => {},
        }
    }

    /// Saves the edit form to project `pid`: name, goal and current task
    /// trimmed, the progress as set, the status the project in view has;
    /// closes the form and reloads the detail and the list.
    pub fn save_edit(&mut self, pid: i64, now: &str)
        requires
            old(self).db@.wf(),
            old(self).current_project is Some,
        ensures
            final(self).db@.wf(),
            final(self).db@ == old(self).db@.with_project_edited(
                pid,
                trimmed(old(self).edit_project_name@),
                trimmed(old(self).edit_project_goal@),
                old(self).current_project.unwrap().status@,
                old(self).edit_project_progress,
                trimmed(old(self).edit_project_current_task@),
                now@,
            ),
            final(self).shows_projects(),
            final(self).shows_project_detail(pid),
            *final(self) == (Session {
                db: final(self).db,
                show_edit_project: false,
                projects: final(self).projects,
                current_project: final(self).current_project,
                tasks: final(self).tasks,
                logs: final(self).logs,
                latest_log: final(self).latest_log,
                ..*old(self)
            }),
    {
        let status = match &self.current_project {
            Some(p) => p.status.clone(),
            None => String::new(),
        };
        let name = trim(self.edit_project_name.as_str());
        let goal = trim(self.edit_project_goal.as_str());
        let current_task = trim(self.edit_project_current_task.as_str());
        let _ = update_project(
            &mut self.db,
            pid,
            name.as_str(),
            goal.as_str(),
            status.as_str(),
            self.edit_project_progress,
            current_task.as_str(),
            now,
        );
        self.show_edit_project = false;
        self.refresh_project_detail(pid);
        self.refresh_projects();
    }

    /// Closes the edit form.
    pub fn cancel_edit(&mut self)
        ensures
            *final(self) == (Session { show_edit_project: false, ..*old(self) }),
    {
        self.show_edit_project = false;
    }

    /// Archives project `pid` and goes back to the dashboard.
    pub fn archive_and_leave(&mut self, pid: i64, now: &str)
        requires
            old(self).db@.wf(),
        ensures
            final(self).db@.wf(),
            final(self).db@ == old(self).db@.with_project_archived(pid, now@),
            final(self).screen == Screen::Dashboard,
            final(self).shows_projects(),
            *final(self) == (Session {
                db: final(self).db,
                screen: Screen::Dashboard,
                projects: final(self).projects,
                ..*old(self)
            }),
    {
        let _ = archive_project(&mut self.db, pid, now);
        self.screen = Screen::Dashboard;
        self.refresh_projects();
    }

    /// Adds the new-task form's description, trimmed, as a task of project
    /// `pid` when it is not blank, empties the form and reloads the detail.
    /// Nothing changes for a blank description. Returns whether the form
    /// was taken.
    pub fn add_task(&mut self, pid: i64, now: &str) -> (taken: bool)
        requires
            old(self).db@.wf(),
        ensures
            final(self).db@.wf(),
            taken == (trimmed(old(self).new_task_desc@).len() > 0),
            !taken ==> *final(self) == *old(self),
            taken ==> {
                &&& final(self).db@ == if old(self).db@.task_seq < i64::MAX && old(self).db@.project(
                    pid,
                ) is Some {
                    old(self).db@.with_new_task(pid, trimmed(old(self).new_task_desc@), now@)
                } else {
                    old(self).db@
                }
                &&& final(self).new_task_desc@.len() == 0
                &&& final(self).shows_project_detail(pid)
                &&& *final(self) == (Session {
                    db: final(self).db,
                    new_task_desc: final(self).new_task_desc,
                    current_project: final(self).current_project,
                    tasks: final(self).tasks,
                    logs: final(self).logs,
                    latest_log: final(self).latest_log,
                    ..*old(self)
                })
            },
    {
        let desc = trim(self.new_task_desc.as_str());
        if desc.as_str().is_empty() {
            return false;
        }
        let _ = create_task(&mut self.db, pid, desc.as_str(), now);
        self.new_task_desc = String::new();
        self.refresh_project_detail(pid);
        true
    }

    /// Flips task `tid` between to do and done, and asks for a reload.
    pub fn toggle_task(&mut self, tid: i64, now: &str)
        requires
            old(self).db@.wf(),
        ensures
            final(self).db@.wf(),
            final(self).db@ == if old(self).db@.task(tid) is Some {
                old(self).db@.with_task_toggled(tid, now@)
            } else {
                old(self).db@
            },
            *final(self) == (Session { db: final(self).db, needs_refresh: true, ..*old(self) }),
    {
        let _ = toggle_task_status(&mut self.db, tid, now);
        self.needs_refresh = true;
    }

    /// Deletes task `tid`, and asks for a reload.
    pub fn remove_task(&mut self, tid: i64, now: &str)
        requires
            old(self).db@.wf(),
        ensures
            final(self).db@.wf(),
            final(self).db@ == if old(self).db@.task(tid) is Some {
                old(self).db@.without_task(tid, now@)
            } else {
                old(self).db@
            },
            *final(self) == (Session { db: final(self).db, needs_refresh: true, ..*old(self) }),
    {
        let _ = delete_task(&mut self.db, tid, now);
        self.needs_refresh = true;
    }

    /// Adds the new-log form's notes and next action, trimmed, as a log
    /// entry of project `pid` when the notes are not blank, empties the
    /// form and reloads the detail. Nothing changes for blank notes.
    /// Returns whether the form was taken.
    pub fn add_log(&mut self, pid: i64, today: &str, now: &str) -> (taken: bool)
        requires
            old(self).db@.wf(),
        ensures
            final(self).db@.wf(),
            taken == (trimmed(old(self).new_log_notes@).len() > 0),
            !taken ==> *final(self) == *old(self),
            taken ==> {
                &&& final(self).db@ == if old(self).db@.log_seq < i64::MAX && old(self).db@.project(
                    pid,
                ) is Some {
                    old(self).db@.with_new_log(
                        pid,
                        trimmed(old(self).new_log_notes@),
                        trimmed(old(self).new_log_next_action@),
                        today@,
                        now@,
                    )
                } else {
                    old(self).db@
                }
                &&& final(self).new_log_notes@.len() == 0
                &&& final(self).new_log_next_action@.len() == 0
                &&& final(self).shows_project_detail(pid)
                &&& *final(self) == (Session {
                    db: final(self).db,
                    new_log_notes: final(self).new_log_notes,
                    new_log_next_action: final(self).new_log_next_action,
                    current_project: final(self).current_project,
                    tasks: final(self).tasks,
                    logs: final(self).logs,
                    latest_log: final(self).latest_log,
                    ..*old(self)
                })
            },
    {
        let notes = trim(self.new_log_notes.as_str());
        if notes.as_str().is_empty() {
            return false;
        }
        let next = trim(self.new_log_next_action.as_str());
        let _ = create_log(&mut self.db, pid, notes.as_str(), next.as_str(), today, now);
        self.new_log_notes = String::new();
        self.new_log_next_action = String::new();
        self.refresh_project_detail(pid);
        true
    }

    /// Deletes log entry `lid`, and asks for a reload.
    pub fn remove_log(&mut self, lid: i64)
        requires
            old(self).db@.wf(),
        ensures
            final(self).db@.wf(),
            final(self).db@ == old(self).db@.without_log(lid),
            *final(self) == (Session { db: final(self).db, needs_refresh: true, ..*old(self) }),
    {
        let _ = delete_log(&mut self.db, lid);
        self.needs_refresh = true;
    }

    /// Searches for the query, trimmed, when it is not blank, and shows
    /// what was found. Nothing changes for a blank query. Returns whether
    /// a search ran.
    pub fn run_search(&mut self) -> (ran: bool)
        requires
            old(self).db@.wf(),
        ensures
            ran == (trimmed(old(self).search_query@).len() > 0),
            !ran ==> *final(self) == *old(self),
            ran ==> {
                &&& hit_rows(final(self).search_results@) == old(self).db@.search_hits(
                    trimmed(old(self).search_query@),
                )
                &&& *final(self) == (Session {
                    search_results: final(self).search_results,
                    search_performed: true,
                    ..*old(self)
                })
            },
    {
        let query = trim(self.search_query.as_str());
        if query.as_str().is_empty() {
            return false;
        }
        self.search_results = match search_all(&self.db, query.as_str()) {
            Ok(v) => v,
            Err(_) => Vec::new(),
        };
        self.search_performed = true;
        true
    }

    /// Adds exported data to the store (all or nothing), and asks for a
    /// reload.
    pub fn import(&mut self, data: &ExportData)
        requires
            old(self).db@.wf(),
        ensures
            final(self).db@.wf(),
            final(self).db@ == match imported(old(self).db@, data@) {
                Some(s) => s,
                None => old(self).db@,
            },
            *final(self) == (Session { db: final(self).db, needs_refresh: true, ..*old(self) }),
    {
        let _ = crate::db::import_data(&mut self.db, data);
        self.needs_refresh = true;
    }

    /// Everything in the store, as it is exported.
    pub fn export(&self) -> (r: ExportData)
        requires
            self.db@.wf(),
        ensures
            r@ == self.db@.export_rows(),
    {
        export_data(&self.db)
    }

    /// How many of the tasks in view are done.
    pub fn done_task_count(&self) -> (r: usize)
        ensures
            r == task_rows(self.tasks@).filter(|t: TaskRow| t.status == "done"@).len(),
    {
        let done = String::from_str("done");
        let ghost rows = task_rows(self.tasks@);
        let ghost pred = |t: TaskRow| t.status == "done"@;
        let mut count: usize = 0;
        let mut i: usize = 0;
        while i < self.tasks.len()
            invariant
                i <= self.tasks.len(),
                rows == task_rows(self.tasks@),
                done@ == "done"@,
                pred == (|t: TaskRow| t.status == "done"@),
                count == rows.take(i as int).filter(pred).len(),
                count <= i,
            decreases self.tasks.len() - i,
        {
            proof {
                assert(rows.take(i + 1) =~= rows.take(i as int).push(rows[i as int]));
                rows.take(i as int).lemma_filter_push(rows[i as int], pred);
            }
            if self.tasks[i].status == done {
                count = count + 1;
            }
            i = i + 1;
        }
        proof {
            assert(rows.take(self.tasks.len() as int) =~= rows);
        }
        count
    }
}

} // verus!
