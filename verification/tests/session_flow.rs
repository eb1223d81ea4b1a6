use project_tracker::db::{create_project, create_task, get_project, Database};
use project_tracker::session::{shortcut_for, Screen, Session, Shortcut};

const T1: &str = "2024-06-01 08:00:00";
const T2: &str = "2024-06-01 09:00:00";
const DAY: &str = "2024-06-01";

fn session_with_project() -> (Session, i64) {
    let mut db = Database::new();
    let id = create_project(&mut db, "Tracker", "ship it", T1).unwrap();
    (Session::new(db), id)
}

#[test]
fn shortcuts_need_ctrl_and_prefer_dashboard_then_search() {
    assert_eq!(shortcut_for(false, true, true, true), None);
    assert_eq!(shortcut_for(true, true, false, false), Some(Shortcut::NewProject));
    assert_eq!(shortcut_for(true, true, true, false), Some(Shortcut::Search));
    assert_eq!(shortcut_for(true, true, true, true), Some(Shortcut::Dashboard));
    assert_eq!(shortcut_for(true, false, false, false), None);
}

#[test]
fn new_session_lists_projects_on_the_dashboard() {
    let (s, id) = session_with_project();
    assert_eq!(s.screen, Screen::Dashboard);
    assert_eq!(s.projects.len(), 1);
    assert_eq!(s.projects[0].id, id);
}

#[test]
fn new_project_shortcut_only_opens_the_form_on_the_dashboard() {
    let (mut s, id) = session_with_project();
    s.apply_shortcut(Some(Shortcut::NewProject));
    assert!(s.show_create_project);
    s.show_create_project = false;
    s.navigate_to_project(id);
    s.apply_shortcut(Some(Shortcut::NewProject));
    assert!(!s.show_create_project);
}

#[test]
fn blank_project_names_are_not_taken() {
    let (mut s, _) = session_with_project();
    s.new_project_name = "   ".to_string();
    s.new_project_goal = "goal".to_string();
    assert!(!s.submit_new_project(T2));
    assert_eq!(s.projects.len(), 1);
    assert_eq!(s.new_project_goal, "goal");
}

#[test]
fn new_projects_are_trimmed_and_the_form_is_reset() {
    let (mut s, _) = session_with_project();
    s.show_create_project = true;
    s.new_project_name = "  Garden  ".to_string();
    s.new_project_goal = "\tgrow beans ".to_string();
    assert!(s.submit_new_project(T2));
    assert!(!s.show_create_project);
    assert_eq!(s.new_project_name, "");
    assert_eq!(s.projects.len(), 2);
    assert_eq!(s.projects[0].name, "Garden");
    assert_eq!(s.projects[0].goal, "grow beans");
}

#[test]
fn navigating_loads_the_detail_and_empties_the_forms() {
    let (mut s, id) = session_with_project();
    s.new_task_desc = "left over".to_string();
    s.new_log_notes = "left".to_string();
    s.show_edit_project = true;
    s.navigate_to_project(id);
    assert_eq!(s.screen, Screen::ProjectDetail(id));
    assert_eq!(s.current_project.as_ref().unwrap().name, "Tracker");
    assert_eq!(s.new_task_desc, "");
    assert_eq!(s.new_log_notes, "");
    assert!(!s.show_edit_project);
}

#[test]
fn tasks_are_added_toggled_and_counted() {
    let (mut s, id) = session_with_project();
    s.navigate_to_project(id);
    s.new_task_desc = " ".to_string();
    assert!(!s.add_task(id, T2));
    s.new_task_desc = " write tests ".to_string();
    assert!(s.add_task(id, T2));
    assert_eq!(s.tasks.len(), 1);
    assert_eq!(s.tasks[0].description, "write tests");
    assert_eq!(s.done_task_count(), 0);
    let tid = s.tasks[0].id;
    s.toggle_task(tid, T2);
    assert!(s.needs_refresh);
    s.apply_pending_refresh();
    assert!(!s.needs_refresh);
    assert_eq!(s.done_task_count(), 1);
    s.remove_task(tid, T2);
    s.apply_pending_refresh();
    assert!(s.tasks.is_empty());
}

#[test]
fn logs_are_added_with_trimmed_text_and_become_latest() {
    let (mut s, id) = session_with_project();
    s.navigate_to_project(id);
    s.new_log_notes = "  fixed the build ".to_string();
    s.new_log_next_action = " release ".to_string();
    assert!(s.add_log(id, DAY, T2));
    let latest = s.latest_log.as_ref().unwrap();
    assert_eq!(latest.notes, "fixed the build");
    assert_eq!(latest.next_action, "release");
    assert_eq!(latest.date, DAY);
    let lid = latest.id;
    s.remove_log(lid);
    s.apply_pending_refresh();
    assert!(s.latest_log.is_none());
}

#[test]
fn editing_keeps_the_status_and_trims() {
    let (mut s, id) = session_with_project();
    s.navigate_to_project(id);
    s.begin_edit();
    assert!(s.show_edit_project);
    assert_eq!(s.edit_project_name, "Tracker");
    s.edit_project_name = " Tracker 2 ".to_string();
    s.edit_project_progress = 60;
    s.edit_project_current_task = " polish ".to_string();
    s.save_edit(id, T2);
    assert!(!s.show_edit_project);
    let p = get_project(&s.db, id).unwrap();
    assert_eq!(p.name, "Tracker 2");
    assert_eq!(p.status, "active");
    assert_eq!(p.progress, 60);
    assert_eq!(p.current_task, "polish");
    assert_eq!(s.current_project.as_ref().unwrap().progress, 60);
}

#[test]
fn archiving_goes_back_to_an_emptier_dashboard() {
    let (mut s, id) = session_with_project();
    s.navigate_to_project(id);
    s.archive_and_leave(id, T2);
    assert_eq!(s.screen, Screen::Dashboard);
    assert!(s.projects.is_empty());
}

#[test]
fn searching_trims_the_query_and_blank_queries_do_nothing() {
    let (mut s, id) = session_with_project();
    create_task(&mut s.db, id, "ship the docs", T2).unwrap();
    s.apply_shortcut(Some(Shortcut::Search));
    assert_eq!(s.screen, Screen::Search);
    s.search_query = "   ".to_string();
    assert!(!s.run_search());
    assert!(!s.search_performed);
    s.search_query = "  SHIP ".to_string();
    assert!(s.run_search());
    assert!(s.search_performed);
    assert_eq!(s.search_results.len(), 2);
}

#[test]
fn export_and_import_through_a_session() {
    let (mut s, id) = session_with_project();
    create_task(&mut s.db, id, "t", T2).unwrap();
    let data = s.export();
    let mut other = Session::new(Database::new());
    other.import(&data);
    assert!(other.needs_refresh);
    other.apply_pending_refresh();
    assert_eq!(other.projects.len(), 1);
    assert_eq!(other.projects[0].name, "Tracker");
}
