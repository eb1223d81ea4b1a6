use project_tracker::db::{
    archive_project, create_log, create_project, create_task, delete_log, delete_project,
    delete_task, get_all_projects, get_latest_log, get_logs_for_project, get_project,
    get_tasks_for_project, toggle_task_status, update_project, Database,
};
use project_tracker::records::SearchResult;
use project_tracker::search::search_all;

const NOW: &str = "2024-05-01 09:30:00";
const TODAY: &str = "2024-05-01";

fn setup() -> Database {
    Database::new()
}

#[test]
fn test_create_and_get_project() {
    let mut conn = setup();
    let id = create_project(&mut conn, "Test Project", "Build something", NOW).unwrap();
    let project = get_project(&conn, id).unwrap();
    assert_eq!(project.name, "Test Project");
    assert_eq!(project.goal, "Build something");
    assert_eq!(project.status, "active");
    assert_eq!(project.progress, 0);
}

#[test]
fn test_get_all_projects_excludes_archived() {
    let mut conn = setup();
    create_project(&mut conn, "Active", "", NOW).unwrap();
    let id2 = create_project(&mut conn, "Archived", "", NOW).unwrap();
    archive_project(&mut conn, id2, NOW).unwrap();
    let projects = get_all_projects(&conn).unwrap();
    assert_eq!(projects.len(), 1);
    assert_eq!(projects[0].name, "Active");
}

#[test]
fn test_update_project() {
    let mut conn = setup();
    let id = create_project(&mut conn, "Old", "old goal", NOW).unwrap();
    update_project(&mut conn, id, "New", "new goal", "active", 50, "current", NOW).unwrap();
    let project = get_project(&conn, id).unwrap();
    assert_eq!(project.name, "New");
    assert_eq!(project.goal, "new goal");
    assert_eq!(project.progress, 50);
    assert_eq!(project.current_task, "current");
}

#[test]
fn test_delete_project() {
    let mut conn = setup();
    let id = create_project(&mut conn, "Del", "", NOW).unwrap();
    delete_project(&mut conn, id).unwrap();
    assert!(get_project(&conn, id).is_err());
}

#[test]
fn test_create_and_get_tasks() {
    let mut conn = setup();
    let pid = create_project(&mut conn, "P", "", NOW).unwrap();
    create_task(&mut conn, pid, "Task 1", NOW).unwrap();
    create_task(&mut conn, pid, "Task 2", NOW).unwrap();
    let tasks = get_tasks_for_project(&conn, pid).unwrap();
    assert_eq!(tasks.len(), 2);
    assert_eq!(tasks[0].description, "Task 1");
    assert_eq!(tasks[0].status, "todo");
}

#[test]
fn test_toggle_task_status() {
    let mut conn = setup();
    let pid = create_project(&mut conn, "P", "", NOW).unwrap();
    let tid = create_task(&mut conn, pid, "Task", NOW).unwrap();
    toggle_task_status(&mut conn, tid, NOW).unwrap();
    let tasks = get_tasks_for_project(&conn, pid).unwrap();
    assert_eq!(tasks.iter().find(|t| t.id == tid).unwrap().status, "done");
    toggle_task_status(&mut conn, tid, NOW).unwrap();
    let tasks = get_tasks_for_project(&conn, pid).unwrap();
    assert_eq!(tasks.iter().find(|t| t.id == tid).unwrap().status, "todo");
}

#[test]
fn test_delete_task() {
    let mut conn = setup();
    let pid = create_project(&mut conn, "P", "", NOW).unwrap();
    let tid = create_task(&mut conn, pid, "Task", NOW).unwrap();
    delete_task(&mut conn, tid, NOW).unwrap();
    let tasks = get_tasks_for_project(&conn, pid).unwrap();
    assert!(tasks.is_empty());
}

#[test]
fn test_create_and_get_logs() {
    let mut conn = setup();
    let pid = create_project(&mut conn, "P", "", NOW).unwrap();
    create_log(&mut conn, pid, "Did work", "Next step", TODAY, NOW).unwrap();
    let logs = get_logs_for_project(&conn, pid).unwrap();
    assert_eq!(logs.len(), 1);
    assert_eq!(logs[0].notes, "Did work");
    assert_eq!(logs[0].next_action, "Next step");
}

#[test]
fn test_get_latest_log() {
    let mut conn = setup();
    let pid = create_project(&mut conn, "P", "", NOW).unwrap();
    create_log(&mut conn, pid, "First", "", TODAY, NOW).unwrap();
    create_log(&mut conn, pid, "Second", "next", TODAY, NOW).unwrap();
    let latest = get_latest_log(&conn, pid).unwrap().unwrap();
    assert_eq!(latest.notes, "Second");
}

#[test]
fn test_get_latest_log_none() {
    let mut conn = setup();
    let pid = create_project(&mut conn, "P", "", NOW).unwrap();
    let latest = get_latest_log(&conn, pid).unwrap();
    assert!(latest.is_none());
}

#[test]
fn test_delete_log() {
    let mut conn = setup();
    let pid = create_project(&mut conn, "P", "", NOW).unwrap();
    let lid = create_log(&mut conn, pid, "note", "", TODAY, NOW).unwrap();
    delete_log(&mut conn, lid).unwrap();
    let logs = get_logs_for_project(&conn, pid).unwrap();
    assert!(logs.is_empty());
}

#[test]
fn test_search_projects() {
    let mut conn = setup();
    create_project(&mut conn, "Rust AI Tool", "build AI", NOW).unwrap();
    create_project(&mut conn, "Web App", "frontend", NOW).unwrap();
    let results = search_all(&conn, "AI").unwrap();
    assert_eq!(results.len(), 1);
    match &results[0] {
        SearchResult::ProjectResult(p) => assert_eq!(p.name, "Rust AI Tool"),
        _ => panic!("Expected ProjectResult"),
    }
}

#[test]
fn test_search_tasks() {
    let mut conn = setup();
    let pid = create_project(&mut conn, "P", "", NOW).unwrap();
    create_task(&mut conn, pid, "Implement login", NOW).unwrap();
    create_task(&mut conn, pid, "Design page", NOW).unwrap();
    let results = search_all(&conn, "login").unwrap();
    assert_eq!(results.len(), 1);
    match &results[0] {
        SearchResult::TaskResult(t) => assert_eq!(t.description, "Implement login"),
        _ => panic!("Expected TaskResult"),
    }
}

#[test]
fn test_search_logs() {
    let mut conn = setup();
    let pid = create_project(&mut conn, "P", "", NOW).unwrap();
    create_log(&mut conn, pid, "Fixed authentication bug", "Deploy", TODAY, NOW).unwrap();
    let results = search_all(&conn, "authentication").unwrap();
    assert_eq!(results.len(), 1);
    match &results[0] {
        SearchResult::LogResult(l) => assert!(l.notes.contains("authentication")),
        _ => panic!("Expected LogResult"),
    }
}

#[test]
fn test_cascade_delete() {
    let mut conn = setup();
    let pid = create_project(&mut conn, "P", "", NOW).unwrap();
    create_task(&mut conn, pid, "Task", NOW).unwrap();
    create_log(&mut conn, pid, "Log", "", TODAY, NOW).unwrap();
    delete_project(&mut conn, pid).unwrap();
    let tasks = get_tasks_for_project(&conn, pid).unwrap();
    let logs = get_logs_for_project(&conn, pid).unwrap();
    assert!(tasks.is_empty());
    assert!(logs.is_empty());
}

#[test]
fn test_query_performance() {
    let mut conn = setup();
    // Insert 100 projects
    for i in 0..100 {
        create_project(&mut conn, &format!("Project {i}"), &format!("goal {i}"), NOW).unwrap();
    }
    let start = std::time::Instant::now();
    let _projects = get_all_projects(&conn).unwrap();
    let elapsed = start.elapsed();
    assert!(
        elapsed.as_millis() < 10,
        "Query took {}ms, should be <10ms",
        elapsed.as_millis()
    );
}
