use project_tracker::db::{
    archive_project, create_log, create_project, create_task, delete_project, get_all_projects,
    get_latest_log, get_project, get_tasks_for_project, toggle_task_status, Database,
};
use project_tracker::search::search_all;

const NOW: &str = "2024-07-01 12:00:00";
const DAY: &str = "2024-07-01";

#[test]
fn toggling_twice_gives_back_the_status() {
    let mut db = Database::new();
    let p = create_project(&mut db, "P", "", NOW).unwrap();
    let t = create_task(&mut db, p, "t", NOW).unwrap();
    toggle_task_status(&mut db, t, NOW).unwrap();
    assert_eq!(get_tasks_for_project(&db, p).unwrap()[0].status, "done");
    toggle_task_status(&mut db, t, NOW).unwrap();
    assert_eq!(get_tasks_for_project(&db, p).unwrap()[0].status, "todo");
}

#[test]
fn the_newest_log_is_the_latest() {
    let mut db = Database::new();
    let p = create_project(&mut db, "P", "", NOW).unwrap();
    for i in 0..5 {
        let id = create_log(&mut db, p, &format!("entry {i}"), "", DAY, NOW).unwrap();
        assert_eq!(get_latest_log(&db, p).unwrap().unwrap().id, id);
    }
}

#[test]
fn archived_projects_leave_the_list_and_the_search() {
    let mut db = Database::new();
    let a = create_project(&mut db, "shared name", "", NOW).unwrap();
    let b = create_project(&mut db, "shared name too", "", NOW).unwrap();
    archive_project(&mut db, a, NOW).unwrap();
    let listed: Vec<i64> = get_all_projects(&db).unwrap().iter().map(|p| p.id).collect();
    assert_eq!(listed, vec![b]);
    assert_eq!(search_all(&db, "shared").unwrap().len(), 1);
}

#[test]
fn a_deleted_project_takes_its_rows_along() {
    let mut db = Database::new();
    let a = create_project(&mut db, "A", "", NOW).unwrap();
    create_task(&mut db, a, "t", NOW).unwrap();
    create_log(&mut db, a, "l", "", DAY, NOW).unwrap();
    delete_project(&mut db, a).unwrap();
    assert!(get_project(&db, a).is_err());
    assert!(db.tasks().is_empty());
    assert!(db.logs().is_empty());
}
