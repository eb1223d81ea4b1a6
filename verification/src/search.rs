//! Searching the tracker for text.
use crate::db::Database;
use crate::records::{hit_rows, LogRow, ProjectRow, SearchResult, TaskRow};
use crate::state::{
    as_log_hit, as_project_hit, as_task_hit, log_hit, log_hits, project_hit, project_hits, task_hit,
    task_hits,
};
use crate::text::{chars_of, contains_pattern, like, like_matches};
use vstd::prelude::*;

verus! {

broadcast use vstd::seq_lib::group_filter_ensures;

proof fn lemma_project_hits_push(rows: Seq<ProjectRow>, x: ProjectRow, pat: Seq<char>)
    ensures
        project_hits(rows.push(x), pat) == if (project_hit(pat))(x) {
            project_hits(rows, pat).push(as_project_hit(x))
        } else {
            project_hits(rows, pat)
        },
{
    rows.lemma_filter_push(x, project_hit(pat));
    let f = rows.filter(project_hit(pat));
    assert(f.push(x).map_values(|p: ProjectRow| as_project_hit(p)) =~= f.map_values(
        |p: ProjectRow| as_project_hit(p),
    ).push(as_project_hit(x)));
}

proof fn lemma_task_hits_push(
    rows: Seq<TaskRow>,
    x: TaskRow,
    pat: Seq<char>,
    projects: Seq<ProjectRow>,
)
    ensures
        task_hits(rows.push(x), pat, projects) == if (task_hit(pat, projects))(x) {
            task_hits(rows, pat, projects).push(as_task_hit(x))
        } else {
            task_hits(rows, pat, projects)
        },
{
    rows.lemma_filter_push(x, task_hit(pat, projects));
    let f = rows.filter(task_hit(pat, projects));
    assert(f.push(x).map_values(|t: TaskRow| as_task_hit(t)) =~= f.map_values(
        |t: TaskRow| as_task_hit(t),
    ).push(as_task_hit(x)));
}

proof fn lemma_log_hits_push(
    rows: Seq<LogRow>,
    x: LogRow,
    pat: Seq<char>,
    projects: Seq<ProjectRow>,
)
    ensures
        log_hits(rows.push(x), pat, projects) == if (log_hit(pat, projects))(x) {
            log_hits(rows, pat, projects).push(as_log_hit(x))
        } else {
            log_hits(rows, pat, projects)
        },
{
    rows.lemma_filter_push(x, log_hit(pat, projects));
    let f = rows.filter(log_hit(pat, projects));
    assert(f.push(x).map_values(|l: LogRow| as_log_hit(l)) =~= f.map_values(
        |l: LogRow| as_log_hit(l),
    ).push(as_log_hit(x)));
}

/// The `LIKE` pattern that finds `query` anywhere in a text.
fn pattern_for(query: &str) -> (pat: Vec<char>)
    ensures
        pat@ == contains_pattern(query@),
{
    let q = chars_of(query);
    let mut pat: Vec<char> = Vec::new();
    pat.push('%');
    let mut i: usize = 0;
    while i < q.len()
        invariant
            i <= q.len(),
            pat@ == seq!['%'] + q@.take(i as int),
        decreases q.len() - i,
    {
        pat.push(q[i]);
        proof {
            assert(q@.take(i + 1) =~= q@.take(i as int).push(q@[i as int]));
        }
        i = i + 1;
    }
    pat.push('%');
    proof {
        assert(q@.take(q.len() as int) =~= q@);
        assert(pat@ =~= contains_pattern(query@));
    }
    pat
}

fn text_matches(pat: &Vec<char>, s: &String) -> (r: bool)
    ensures
        r == like_matches(pat@, s@),
{
    let v = chars_of(s.as_str());
    like(pat, &v)
}

/// Finds `query` in the names and goals of projects, the descriptions of
/// tasks and the notes and next actions of log entries, ignoring ASCII
/// case and treating `%` and `_` in the query as wildcards; archived
/// projects and what belongs to them are left out. Projects come first,
/// then tasks, then log entries, each in id order.
pub fn search_all(db: &Database, query: &str) -> (r: Result<Vec<SearchResult>, crate::state::DbError>)
    requires
        db@.wf(),
    ensures
        r matches Ok(v) && hit_rows(v@) == db@.search_hits(query@),
{
    let pat = pattern_for(query);
    let ghost s = db@;
    let mut results: Vec<SearchResult> = Vec::new();

    let archived = String::from_str("archived");
    let projects = db.projects();
    let mut i: usize = 0;
    while i < projects.len()
        invariant
            i <= projects.len(),
            archived@ == "archived"@,
            s == db@,
            pat@ == contains_pattern(query@),
            crate::records::project_rows(projects@) == s.projects,
            hit_rows(results@) == project_hits(s.projects.take(i as int), pat@),
        decreases projects.len() - i,
    {
        let p = &projects[i];
        proof {
            assert(s.projects.take(i + 1) =~= s.projects.take(i as int).push(p@));
            lemma_project_hits_push(s.projects.take(i as int), p@, pat@);
        }
        let found = text_matches(&pat, &p.name) || text_matches(&pat, &p.goal);
        if found && !(p.status == archived) {
            let ghost prev = results@;
            results.push(SearchResult::ProjectResult(p.duplicate()));
            proof {
                assert(hit_rows(results@) =~= hit_rows(prev).push(as_project_hit(p@)));
            }
        }
        i = i + 1;
    }
    proof {
        assert(s.projects.take(projects.len() as int) =~= s.projects);
    }
    let ghost after_projects = hit_rows(results@);

    let tasks = db.tasks();
    let mut i: usize = 0;
    while i < tasks.len()
        invariant
            i <= tasks.len(),
            s == db@,
            s.wf(),
            pat@ == contains_pattern(query@),
            crate::records::task_rows(tasks@) == s.tasks,
            after_projects == project_hits(s.projects, pat@),
            hit_rows(results@) == after_projects + task_hits(s.tasks.take(i as int), pat@, s.projects),
        decreases tasks.len() - i,
    {
        let t = &tasks[i];
        proof {
            assert(s.tasks.take(i + 1) =~= s.tasks.take(i as int).push(t@));
            lemma_task_hits_push(s.tasks.take(i as int), t@, pat@, s.projects);
        }
        if text_matches(&pat, &t.description) && db.project_is_live(t.project_id) {
            let ghost prev = results@;
            results.push(SearchResult::TaskResult(t.duplicate()));
            proof {
                assert(hit_rows(results@) =~= hit_rows(prev).push(as_task_hit(t@)));
            }
        }
        i = i + 1;
    }
    proof {
        assert(s.tasks.take(tasks.len() as int) =~= s.tasks);
    }
    let ghost after_tasks = hit_rows(results@);

    let logs = db.logs();
    let mut i: usize = 0;
    while i < logs.len()
        invariant
            i <= logs.len(),
            s == db@,
            s.wf(),
            pat@ == contains_pattern(query@),
            crate::records::log_rows(logs@) == s.logs,
            after_tasks == project_hits(s.projects, pat@) + task_hits(s.tasks, pat@, s.projects),
            hit_rows(results@) == after_tasks + log_hits(s.logs.take(i as int), pat@, s.projects),
        decreases logs.len() - i,
    {
        let l = &logs[i];
        proof {
            assert(s.logs.take(i + 1) =~= s.logs.take(i as int).push(l@));
            lemma_log_hits_push(s.logs.take(i as int), l@, pat@, s.projects);
        }
        let found = text_matches(&pat, &l.notes) || text_matches(&pat, &l.next_action);
        if found && db.project_is_live(l.project_id) {
            let ghost prev = results@;
            results.push(SearchResult::LogResult(l.duplicate()));
            proof {
                assert(hit_rows(results@) =~= hit_rows(prev).push(as_log_hit(l@)));
            }
        }
        i = i + 1;
    }
    proof {
        assert(s.logs.take(logs.len() as int) =~= s.logs);
    }
    Ok(results)
}

} // verus!
