use tasktimer::tasks::Task;
use tasktimer::today::{today_fits, today_for, TodayRow, TodaySummary};

fn task(id: i64, parent: Option<i64>, due: Option<&str>, schedule: Option<&str>, status: &str) -> Task {
    Task {
        id,
        class_id: 1,
        parent_task_id: parent,
        title: "Task".to_string(),
        description: None,
        status: status.to_string(),
        priority: None,
        due_at: due.map(|d| d.to_string()),
        scheduled_date: schedule.map(|d| d.to_string()),
        estimated_minutes: None,
        source: "local".to_string(),
        external_id: None,
        completed_at: None,
        tracked_seconds: 0,
        tracked_seconds_direct: 0,
        remaining_minutes: None,
        external_state: "active".to_string(),
        task_type: "assignment".to_string(),
        tags: vec![],
        time_budget_minutes: None,
    }
}

/// The eligible rows of one active class, as the database lists them.
struct Db {
    rows: Vec<(i64, Option<i64>, Option<&'static str>, Option<&'static str>, &'static str)>,
}

impl Db {
    fn new() -> Db {
        Db { rows: vec![] }
    }
    fn add(&mut self, id: i64, parent: Option<i64>, due: Option<&'static str>, schedule: Option<&'static str>) {
        self.rows.push((id, parent, due, schedule, "not_started"));
    }
    fn complete(&mut self, id: Option<i64>) {
        for r in self.rows.iter_mut() {
            if id.is_none() || id == Some(r.0) {
                r.4 = "completed";
            }
        }
    }
    fn rows(&self) -> Vec<TodayRow> {
        self.rows
            .iter()
            .map(|&(id, parent, due, schedule, status)| TodayRow {
                task: task(id, parent, due, schedule, status),
                due_local: due.map(|d| d[..10].to_string()),
                course_code: "LGST".to_string(),
            })
            .collect()
    }
    fn summary(&self, include_overdue: bool) -> TodaySummary {
        today_for(self.rows(), "2026-09-15", include_overdue, 0)
    }
    fn ids(&self) -> Vec<i64> {
        self.summary(true)
            .groups
            .into_iter()
            .flat_map(|g| g.tasks.into_iter().map(|t| t.task.id))
            .collect()
    }
}

#[test]
fn parent_due_includes_undated_child() {
    let mut c = Db::new();
    c.add(1, None, Some("2026-09-15"), None);
    c.add(2, Some(1), None, None);
    assert_eq!(c.ids(), vec![1, 2]);
}

#[test]
fn child_due_includes_context_without_siblings() {
    let mut c = Db::new();
    c.add(1, None, Some("2026-10-01"), None);
    c.add(2, Some(1), Some("2026-09-15"), None);
    c.add(3, Some(1), None, None);
    assert_eq!(c.ids(), vec![1, 2]);
    assert_eq!(c.summary(true).task_count, 1);
}

#[test]
fn deep_tree() {
    let mut c = Db::new();
    c.add(1, None, None, None);
    c.add(2, Some(1), None, None);
    c.add(3, Some(2), None, Some("2026-09-15"));
    c.add(4, Some(3), None, None);
    assert_eq!(c.ids(), vec![1, 2, 3, 4]);
}

#[test]
fn overdue() {
    let mut c = Db::new();
    c.add(1, None, Some("2026-09-01"), None);
    assert_eq!(c.ids(), vec![1]);
    assert!(c.summary(false).groups.is_empty());
}

#[test]
fn scheduled_today() {
    let mut c = Db::new();
    c.add(1, None, Some("2026-10-01"), Some("2026-09-15"));
    assert_eq!(c.ids(), vec![1]);
}

#[test]
fn future_not_scheduled() {
    let mut c = Db::new();
    c.add(1, None, Some("2026-10-01"), None);
    assert!(c.ids().is_empty());
}

#[test]
fn archived_hidden() {
    // An archived class's tasks are not eligible, so no row reaches the view.
    let c = Db::new();
    assert!(c.ids().is_empty());
}

#[test]
fn completed_hidden() {
    let mut c = Db::new();
    c.add(1, None, None, Some("2026-09-15"));
    c.complete(None);
    assert!(c.ids().is_empty());
}

#[test]
fn completed_ancestor_keeps_incomplete_child_visible() {
    let mut c = Db::new();
    c.add(1, None, None, None);
    c.add(2, Some(1), None, Some("2026-09-15"));
    c.complete(Some(1));
    assert_eq!(c.ids(), vec![1, 2]);
}

#[test]
fn today_total_counts_each_session_once_including_completed_work() {
    let mut c = Db::new();
    c.add(1, None, Some("2026-09-15"), None);
    c.add(2, Some(1), None, None);
    // Sessions of 1800 s on task 1 and 2400 s on its child: the rolled-up
    // total of task 1 and the day's total are both 4200 s.
    let mut rows = c.rows();
    rows[0].task.tracked_seconds = 4200;
    rows[0].task.tracked_seconds_direct = 1800;
    rows[1].task.tracked_seconds = 2400;
    rows[1].task.tracked_seconds_direct = 2400;
    let summary = today_for(rows, "2026-09-15", true, 4200);
    assert_eq!(summary.tracked_seconds_total, 4200);
    assert_eq!(summary.groups[0].tasks[0].task.tracked_seconds, 4200);
    c.complete(None);
    assert_eq!(today_for(c.rows(), "2026-09-15", true, 4200).tracked_seconds_total, 4200);
}

#[test]
fn groups_follow_course_code_then_class_id() {
    let mut rows = Vec::new();
    for (id, class_id, code) in [(1, 7, "MATH"), (2, 3, "BIO"), (3, 5, "MATH")] {
        let mut t = task(id, None, None, Some("2026-09-15"), "not_started");
        t.class_id = class_id;
        t.estimated_minutes = Some(10 * id);
        rows.push(TodayRow { task: t, due_local: None, course_code: code.to_string() });
    }
    let s = today_for(rows, "2026-09-15", true, 0);
    let keys: Vec<(String, i64)> = s.groups.iter().map(|g| (g.course_code.clone(), g.class_id)).collect();
    assert_eq!(keys, vec![("BIO".to_string(), 3), ("MATH".to_string(), 5), ("MATH".to_string(), 7)]);
    assert_eq!(s.task_count, 3);
    assert_eq!(s.estimated_minutes_total, 60);
}

#[test]
fn context_ancestors_are_marked_and_not_counted() {
    let mut c = Db::new();
    c.add(1, None, None, None);
    c.add(2, Some(1), Some("2026-09-10"), None);
    let mut rows = c.rows();
    rows[0].task.estimated_minutes = Some(100);
    rows[1].task.estimated_minutes = Some(25);
    let s = today_for(rows, "2026-09-15", true, 0);
    let tasks = &s.groups[0].tasks;
    assert!(tasks[0].context_only);
    assert!(!tasks[0].overdue);
    assert!(!tasks[1].context_only);
    assert!(tasks[1].overdue);
    assert_eq!(s.task_count, 1);
    assert_eq!(s.estimated_minutes_total, 25);
}

#[test]
fn today_fit_check_covers_the_actionable_estimates() {
    let mut db = Db::new();
    db.add(1, None, Some("2026-09-15"), None);
    assert!(today_fits(&db.rows(), "2026-09-15", true));
    let mut rows = db.rows();
    rows[0].task.estimated_minutes = Some(i64::MAX);
    let mut second = db.rows().remove(0);
    second.task.id = 2;
    second.task.estimated_minutes = Some(1);
    rows.push(second);
    assert!(!today_fits(&rows, "2026-09-15", true));
    assert!(today_fits(&rows, "2026-09-20", false));
}

#[test]
fn each_shown_task_is_listed_once_and_context_is_marked() {
    let mut db = Db::new();
    db.add(1, None, None, None);
    db.add(2, Some(1), Some("2026-09-15"), None);
    let s = db.summary(true);
    let tasks: Vec<_> = s.groups.iter().flat_map(|g| g.tasks.iter()).collect();
    assert_eq!(tasks.iter().map(|t| t.task.id).collect::<Vec<_>>(), vec![1, 2]);
    assert!(tasks[0].context_only);
    assert!(!tasks[1].context_only);
}
