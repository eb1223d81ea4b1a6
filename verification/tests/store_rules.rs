use project_tracker::db::{
    archive_project, create_log, create_project, create_task, delete_log, delete_project,
    delete_task, get_all_projects, get_all_projects_including_archived, get_latest_log,
    get_logs_for_project, get_project, get_tasks_for_project, import_data, toggle_task_status,
    update_project, Database,
};
use project_tracker::records::{ExportData, Log, Project, SearchResult, Task};
use project_tracker::search::search_all;
use project_tracker::state::DbError;
use project_tracker::text::{chars_of, like, text_less, trim};
use project_tracker::transfer::export_data;

const T1: &str = "2024-05-01 09:00:00";
const T2: &str = "2024-05-01 10:00:00";
const T3: &str = "2024-05-02 08:15:00";
const DAY: &str = "2024-05-01";

fn project(id: i64, name: &str, status: &str, updated: &str) -> Project {
    Project {
        id,
        name: name.to_string(),
        goal: String::new(),
        status: status.to_string(),
        progress: 0,
        current_task: String::new(),
        created_at: T1.to_string(),
        updated_at: updated.to_string(),
    }
}

fn task(id: i64, project_id: i64, description: &str, status: &str, created: &str) -> Task {
    Task {
        id,
        project_id,
        description: description.to_string(),
        status: status.to_string(),
        created_at: created.to_string(),
    }
}

fn log(id: i64, project_id: i64, notes: &str) -> Log {
    Log {
        id,
        project_id,
        date: DAY.to_string(),
        notes: notes.to_string(),
        next_action: String::new(),
        created_at: T1.to_string(),
    }
}

#[test]
fn new_project_has_defaults_and_next_id() {
    let mut db = Database::new();
    let a = create_project(&mut db, "A", "goal", T1).unwrap();
    let b = create_project(&mut db, "B", "", T2).unwrap();
    assert_eq!((a, b), (1, 2));
    let p = get_project(&db, a).unwrap();
    assert_eq!(p.current_task, "");
    assert_eq!(p.created_at, T1);
    assert_eq!(p.updated_at, T1);
}

#[test]
fn ids_are_not_reused_after_delete() {
    let mut db = Database::new();
    let a = create_project(&mut db, "A", "", T1).unwrap();
    delete_project(&mut db, a).unwrap();
    let b = create_project(&mut db, "B", "", T1).unwrap();
    assert_eq!(b, 2);
    assert_eq!(get_project(&db, a).unwrap_err(), DbError::NoRows);
}

#[test]
fn projects_are_listed_most_recently_updated_first() {
    let mut db = Database::new();
    let a = create_project(&mut db, "A", "", T1).unwrap();
    let b = create_project(&mut db, "B", "", T2).unwrap();
    let names: Vec<String> = get_all_projects(&db).unwrap().into_iter().map(|p| p.name).collect();
    assert_eq!(names, vec!["B", "A"]);
    // Adding a task touches project A.
    create_task(&mut db, a, "work", T3).unwrap();
    assert_eq!(get_project(&db, a).unwrap().updated_at, T3);
    let ids: Vec<i64> = get_all_projects(&db).unwrap().into_iter().map(|p| p.id).collect();
    assert_eq!(ids, vec![a, b]);
}

#[test]
fn projects_updated_together_keep_id_order() {
    let mut db = Database::new();
    create_project(&mut db, "first", "", T1).unwrap();
    create_project(&mut db, "second", "", T1).unwrap();
    create_project(&mut db, "third", "", T1).unwrap();
    let ids: Vec<i64> = get_all_projects(&db).unwrap().into_iter().map(|p| p.id).collect();
    assert_eq!(ids, vec![1, 2, 3]);
}

#[test]
fn archived_projects_still_read_back_and_are_exported() {
    let mut db = Database::new();
    let a = create_project(&mut db, "A", "", T1).unwrap();
    archive_project(&mut db, a, T2).unwrap();
    let p = get_project(&db, a).unwrap();
    assert_eq!(p.status, "archived");
    assert_eq!(p.updated_at, T2);
    assert!(get_all_projects(&db).unwrap().is_empty());
    assert_eq!(get_all_projects_including_archived(&db).unwrap().len(), 1);
}

#[test]
fn updating_a_missing_project_changes_nothing() {
    let mut db = Database::new();
    let a = create_project(&mut db, "A", "g", T1).unwrap();
    update_project(&mut db, a + 7, "X", "Y", "done", 10, "c", T2).unwrap();
    let p = get_project(&db, a).unwrap();
    assert_eq!((p.name.as_str(), p.goal.as_str(), p.updated_at.as_str()), ("A", "g", T1));
}

#[test]
fn update_keeps_creation_time_and_touches() {
    let mut db = Database::new();
    let a = create_project(&mut db, "A", "g", T1).unwrap();
    update_project(&mut db, a, "A2", "g2", "paused", 75, "now this", T3).unwrap();
    let p = get_project(&db, a).unwrap();
    assert_eq!(p.status, "paused");
    assert_eq!(p.created_at, T1);
    assert_eq!(p.updated_at, T3);
}

#[test]
fn tasks_and_logs_need_an_existing_project() {
    let mut db = Database::new();
    assert_eq!(create_task(&mut db, 5, "t", T1), Err(DbError::ForeignKey));
    assert_eq!(create_log(&mut db, 5, "n", "", DAY, T1), Err(DbError::ForeignKey));
    let a = create_project(&mut db, "A", "", T1).unwrap();
    // The refused inserts used up no id.
    assert_eq!(create_task(&mut db, a, "t", T1), Ok(1));
    assert_eq!(create_log(&mut db, a, "n", "", DAY, T1), Ok(1));
}

#[test]
fn missing_tasks_are_reported() {
    let mut db = Database::new();
    assert_eq!(toggle_task_status(&mut db, 3, T1), Err(DbError::NoRows));
    assert_eq!(delete_task(&mut db, 3, T1), Err(DbError::NoRows));
    assert_eq!(delete_log(&mut db, 3), Ok(()));
}

#[test]
fn tasks_are_ordered_done_first_then_by_age() {
    let mut db = Database::new();
    let a = create_project(&mut db, "A", "", T1).unwrap();
    let t1 = create_task(&mut db, a, "late", T2).unwrap();
    let t2 = create_task(&mut db, a, "early", T1).unwrap();
    let t3 = create_task(&mut db, a, "finished", T3).unwrap();
    toggle_task_status(&mut db, t3, T3).unwrap();
    let ids: Vec<i64> = get_tasks_for_project(&db, a).unwrap().into_iter().map(|t| t.id).collect();
    assert_eq!(ids, vec![t3, t2, t1]);
}

#[test]
fn toggling_an_unusual_status_gives_todo() {
    let mut db = Database::from_tables(
        vec![project(1, "A", "active", T1)],
        vec![task(1, 1, "t", "blocked", T1)],
        vec![],
        1,
        1,
        0,
    )
    .unwrap();
    toggle_task_status(&mut db, 1, T2).unwrap();
    assert_eq!(get_tasks_for_project(&db, 1).unwrap()[0].status, "todo");
    toggle_task_status(&mut db, 1, T2).unwrap();
    assert_eq!(get_tasks_for_project(&db, 1).unwrap()[0].status, "done");
}

#[test]
fn deleting_a_task_or_a_log_touches_only_what_it_should() {
    let mut db = Database::new();
    let a = create_project(&mut db, "A", "", T1).unwrap();
    let t = create_task(&mut db, a, "t", T1).unwrap();
    let l = create_log(&mut db, a, "n", "", DAY, T1).unwrap();
    delete_log(&mut db, l).unwrap();
    assert_eq!(get_project(&db, a).unwrap().updated_at, T1);
    delete_task(&mut db, t, T2).unwrap();
    assert_eq!(get_project(&db, a).unwrap().updated_at, T2);
}

#[test]
fn deleting_a_project_keeps_other_projects_rows() {
    let mut db = Database::new();
    let a = create_project(&mut db, "A", "", T1).unwrap();
    let b = create_project(&mut db, "B", "", T1).unwrap();
    create_task(&mut db, a, "ta", T1).unwrap();
    create_task(&mut db, b, "tb", T1).unwrap();
    create_log(&mut db, b, "lb", "", DAY, T1).unwrap();
    delete_project(&mut db, a).unwrap();
    assert_eq!(get_tasks_for_project(&db, b).unwrap().len(), 1);
    assert_eq!(get_logs_for_project(&db, b).unwrap().len(), 1);
    assert_eq!(db.tasks().len(), 1);
}

#[test]
fn logs_come_newest_first_with_date() {
    let mut db = Database::new();
    let a = create_project(&mut db, "A", "", T1).unwrap();
    create_log(&mut db, a, "one", "", DAY, T1).unwrap();
    create_log(&mut db, a, "two", "x", "2024-05-02", T2).unwrap();
    let logs = get_logs_for_project(&db, a).unwrap();
    assert_eq!(logs[0].notes, "two");
    assert_eq!(logs[0].date, "2024-05-02");
    assert_eq!(logs[1].notes, "one");
    assert_eq!(get_latest_log(&db, a).unwrap().unwrap().id, 2);
    assert_eq!(get_project(&db, a).unwrap().updated_at, T2);
}

#[test]
fn ids_run_out() {
    let mut db = Database::from_tables(vec![project(3, "A", "active", T1)], vec![], vec![], i64::MAX, i64::MAX, i64::MAX).unwrap();
    assert_eq!(create_project(&mut db, "B", "", T1), Err(DbError::Full));
    assert_eq!(create_task(&mut db, 3, "t", T1), Err(DbError::Full));
    assert_eq!(create_log(&mut db, 3, "n", "", DAY, T1), Err(DbError::Full));
    assert_eq!(get_all_projects(&db).unwrap().len(), 1);
}

#[test]
fn inconsistent_tables_are_refused() {
    assert_eq!(
        Database::from_tables(vec![project(1, "A", "active", T1)], vec![task(1, 2, "t", "todo", T1)], vec![], 1, 1, 0).err(),
        Some(DbError::Inconsistent)
    );
    assert_eq!(
        Database::from_tables(vec![project(2, "A", "active", T1), project(1, "B", "active", T1)], vec![], vec![], 2, 0, 0).err(),
        Some(DbError::Inconsistent)
    );
    assert_eq!(
        Database::from_tables(vec![project(3, "A", "active", T1)], vec![], vec![], 2, 0, 0).err(),
        Some(DbError::Inconsistent)
    );
    assert!(Database::from_tables(vec![project(1, "A", "active", T1)], vec![], vec![log(4, 1, "n")], 1, 0, 4).is_ok());
}

#[test]
fn search_ignores_ascii_case_and_knows_wildcards() {
    let mut db = Database::new();
    let a = create_project(&mut db, "Login page", "", T1).unwrap();
    create_task(&mut db, a, "LOGIN flow", T1).unwrap();
    create_log(&mut db, a, "fixed log-in", "", DAY, T1).unwrap();
    let results = search_all(&db, "login").unwrap();
    assert_eq!(results.len(), 2);
    assert!(matches!(results[0], SearchResult::ProjectResult(_)));
    assert!(matches!(results[1], SearchResult::TaskResult(_)));
    let results = search_all(&db, "lo_in").unwrap();
    assert_eq!(results.len(), 2);
    let results = search_all(&db, "l%n").unwrap();
    assert_eq!(results.len(), 3);
}

#[test]
fn search_leaves_out_archived_projects_and_their_rows() {
    let mut db = Database::new();
    let a = create_project(&mut db, "alpha", "", T1).unwrap();
    create_task(&mut db, a, "alpha task", T1).unwrap();
    create_log(&mut db, a, "alpha log", "", DAY, T1).unwrap();
    assert_eq!(search_all(&db, "alpha").unwrap().len(), 3);
    archive_project(&mut db, a, T2).unwrap();
    assert!(search_all(&db, "alpha").unwrap().is_empty());
}

#[test]
fn search_matches_goals_and_next_actions() {
    let mut db = Database::new();
    let a = create_project(&mut db, "A", "ship the beta", T1).unwrap();
    create_log(&mut db, a, "", "write beta notes", DAY, T1).unwrap();
    let results = search_all(&db, "BETA").unwrap();
    assert_eq!(results.len(), 2);
    assert!(matches!(results[1], SearchResult::LogResult(_)));
}

#[test]
fn like_folds_only_ascii() {
    let pat = chars_of("%é%");
    assert!(like(&pat, &chars_of("café")));
    assert!(!like(&pat, &chars_of("CAFÉ")));
    assert!(like(&chars_of("a_c"), &chars_of("ABC")));
    assert!(!like(&chars_of("a_c"), &chars_of("ac")));
    assert!(like(&chars_of("%"), &chars_of("")));
    assert!(!like(&chars_of(""), &chars_of("x")));
}

#[test]
fn trim_removes_unicode_white_space() {
    assert_eq!(trim("  x y \t\n"), "x y");
    assert_eq!(trim(" \u{3000} "), "");
    assert_eq!(trim("\u{2003}word\u{00A0}"), "word");
    assert_eq!(trim("inner  space"), "inner  space");
}

#[test]
fn text_order_is_by_code_point() {
    assert!(text_less(&chars_of("a"), &chars_of("b")));
    assert!(text_less(&chars_of("ab"), &chars_of("abc")));
    assert!(!text_less(&chars_of("b"), &chars_of("abc")));
    assert!(text_less(&chars_of("Z"), &chars_of("a")));
    assert!(!text_less(&chars_of("same"), &chars_of("same")));
}

#[test]
fn export_lists_projects_then_their_tasks_and_logs() {
    let mut db = Database::new();
    let a = create_project(&mut db, "A", "", T1).unwrap();
    let b = create_project(&mut db, "B", "", T2).unwrap();
    create_task(&mut db, a, "ta", T1).unwrap();
    create_task(&mut db, b, "tb", T2).unwrap();
    create_log(&mut db, a, "la1", "", DAY, T1).unwrap();
    create_log(&mut db, a, "la2", "", DAY, T1).unwrap();
    archive_project(&mut db, b, T3).unwrap();
    let data = export_data(&db);
    let names: Vec<&str> = data.projects.iter().map(|p| p.name.as_str()).collect();
    assert_eq!(names, vec!["B", "A"]);
    let tasks: Vec<&str> = data.tasks.iter().map(|t| t.description.as_str()).collect();
    assert_eq!(tasks, vec!["tb", "ta"]);
    let logs: Vec<&str> = data.logs.iter().map(|l| l.notes.as_str()).collect();
    assert_eq!(logs, vec!["la2", "la1"]);
}

#[test]
fn import_of_an_export_reproduces_the_rows() {
    let mut db = Database::new();
    let a = create_project(&mut db, "A", "goal a", T1).unwrap();
    let b = create_project(&mut db, "B", "goal b", T2).unwrap();
    let ta = create_task(&mut db, a, "ta", T1).unwrap();
    toggle_task_status(&mut db, ta, T1).unwrap();
    create_task(&mut db, b, "tb", T2).unwrap();
    create_log(&mut db, b, "lb", "next", DAY, T2).unwrap();
    update_project(&mut db, a, "A", "goal a", "active", 40, "doing", T3).unwrap();
    let data = export_data(&db);

    let mut fresh = Database::new();
    import_data(&mut fresh, &data).unwrap();
    let again = export_data(&fresh);
    assert_eq!(again.projects.len(), 2);
    for (x, y) in data.projects.iter().zip(again.projects.iter()) {
        assert_eq!((&x.name, &x.goal, &x.status, x.progress, &x.current_task, &x.created_at, &x.updated_at),
                   (&y.name, &y.goal, &y.status, y.progress, &y.current_task, &y.created_at, &y.updated_at));
    }
    let d1: Vec<(&str, &str)> = data.tasks.iter().map(|t| (t.description.as_str(), t.status.as_str())).collect();
    let d2: Vec<(&str, &str)> = again.tasks.iter().map(|t| (t.description.as_str(), t.status.as_str())).collect();
    assert_eq!(d1, d2);
    assert_eq!(again.logs.len(), 1);
    assert_eq!(again.logs[0].next_action, "next");
}

#[test]
fn import_files_rows_under_new_ids_and_skips_orphans() {
    let mut db = Database::new();
    create_project(&mut db, "existing", "", T1).unwrap();
    let data = ExportData {
        projects: vec![project(10, "X", "archived", T2)],
        tasks: vec![task(4, 10, "x1", "done", T1), task(5, 99, "orphan", "todo", T1), task(6, 10, "x2", "todo", T2)],
        logs: vec![log(8, 10, "xl")],
    };
    import_data(&mut db, &data).unwrap();
    let x = get_project(&db, 2).unwrap();
    assert_eq!(x.status, "archived");
    let tasks = db.tasks();
    assert_eq!(tasks.len(), 2);
    assert_eq!((tasks[0].id, tasks[0].project_id, tasks[0].description.as_str()), (1, 2, "x1"));
    assert_eq!((tasks[1].id, tasks[1].project_id, tasks[1].description.as_str()), (2, 2, "x2"));
    assert_eq!(db.logs()[0].project_id, 2);
}

#[test]
fn import_is_all_or_nothing() {
    let mut db = Database::from_tables(vec![project(1, "A", "active", T1)], vec![], vec![], 1, i64::MAX - 1, 0).unwrap();
    let data = ExportData {
        projects: vec![project(1, "X", "active", T1)],
        tasks: vec![task(1, 1, "a", "todo", T1), task(2, 1, "b", "todo", T1)],
        logs: vec![],
    };
    assert_eq!(import_data(&mut db, &data), Err(DbError::Full));
    assert_eq!(db.projects().len(), 1);
    assert_eq!(db.sequences(), (1, i64::MAX - 1, 0));
}
