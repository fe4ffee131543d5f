use tasktimer::num::sums_fit_exec;
use tasktimer::text::cut_ok_exec;
use tasktimer::tasks::{
    check_duplicate, check_schedule_date, check_status_change, normalize_tags, remaining_minutes,
    status_after_start, validate_metadata, validate_new_task, NewTask,
};

#[test]
fn metadata_is_normalized_and_validated() {
    let tags: Vec<String> = vec![" Exam ".into(), "exam".into(), "reading".into()];
    validate_metadata(Some("exam"), Some(&tags), Some(90)).unwrap();
    assert_eq!(normalize_tags(&tags), vec!["exam", "reading"]);
    assert!(validate_metadata(Some("invalid"), None, None).is_err());
    assert!(validate_metadata(None, None, Some(-1)).is_err());
}

#[test]
fn tags_are_capped_at_twelve_after_dedup() {
    let tags: Vec<String> = (0..20).map(|i| format!(" T{} ", i % 15)).collect();
    let normal = normalize_tags(&tags);
    assert_eq!(normal.len(), 12);
    assert_eq!(normal[0], "t0");
    assert_eq!(normal[11], "t11");
    let blanks: Vec<String> = vec!["  ".into(), "".into(), "A".into(), "a".into()];
    assert_eq!(normalize_tags(&blanks), vec!["a"]);
}

#[test]
fn metadata_rejects_bad_tags() {
    let thirteen: Vec<String> = (0..13).map(|i| format!("t{i}")).collect();
    assert_eq!(
        validate_metadata(None, Some(&thirteen), None).unwrap_err(),
        "Use up to 12 non-empty tags of 32 characters or fewer."
    );
    let blank: Vec<String> = vec!["ok".into(), "   ".into()];
    assert!(validate_metadata(None, Some(&blank), None).is_err());
    let long: Vec<String> = vec!["x".repeat(33)];
    assert!(validate_metadata(None, Some(&long), None).is_err());
    let exact: Vec<String> = vec!["x".repeat(32)];
    assert!(validate_metadata(None, Some(&exact), None).is_ok());
    assert_eq!(validate_metadata(Some("quiz"), None, None).unwrap_err(), "Choose a valid task type.");
    assert_eq!(
        validate_metadata(Some("reading"), None, Some(-5)).unwrap_err(),
        "Time budget must be zero or greater."
    );
}

fn new_task(title: &str) -> NewTask {
    NewTask {
        class_id: 1,
        parent_task_id: None,
        title: title.into(),
        description: None,
        priority: None,
        due_at: None,
        scheduled_date: None,
        estimated_minutes: None,
        task_type: None,
        tags: None,
        time_budget_minutes: None,
    }
}

#[test]
fn new_task_checks() {
    assert!(validate_new_task(&new_task("Read"), false).is_ok());
    assert_eq!(validate_new_task(&new_task("  "), true).unwrap_err(), "Enter a task title.");
    let mut t = new_task("Read");
    t.estimated_minutes = Some(-1);
    assert_eq!(validate_new_task(&t, true).unwrap_err(), "Estimate must be zero or greater.");
    let mut t = new_task("Read");
    t.due_at = Some("2026-02-30".into());
    assert_eq!(validate_new_task(&t, true).unwrap_err(), "Choose a valid date.");
    let mut t = new_task("Read");
    t.scheduled_date = Some("2026-09-15".into());
    t.parent_task_id = Some(4);
    assert_eq!(
        validate_new_task(&t, false).unwrap_err(),
        "Choose an incomplete local parent in the same class."
    );
    assert!(validate_new_task(&t, true).is_ok());
}

#[test]
fn remaining_minutes_counts_whole_tracked_minutes() {
    assert_eq!(remaining_minutes(Some(30), 3600), Some(0));
    assert_eq!(remaining_minutes(Some(60), 119), Some(59));
    assert_eq!(remaining_minutes(None, 10), None);
}

#[test]
fn status_changes() {
    assert_eq!(check_status_change("done", Some("local")).unwrap_err(), "invalid status: done");
    assert_eq!(check_status_change("completed", None).unwrap_err(), "Task not found");
    assert!(check_status_change("completed", Some("todoist")).is_err());
    assert!(check_status_change("in_progress", Some("local")).is_ok());
    assert!(check_duplicate(Some("todoist")).is_err());
    assert!(check_duplicate(Some("local")).is_ok());
    assert!(check_schedule_date(Some("2026-13-01")).is_err());
    assert!(check_schedule_date(None).is_ok());
    assert_eq!(status_after_start("not_started"), "in_progress");
    assert_eq!(status_after_start("completed"), "completed");
}

#[test]
fn running_sums_and_byte_cuts_are_checked_exactly() {
    assert!(sums_fit_exec(&vec![1, 2, 3]));
    assert!(sums_fit_exec(&vec![]));
    assert!(!sums_fit_exec(&vec![i64::MAX, 1, -5]));
    assert!(sums_fit_exec(&vec![i64::MAX, -1, 1]));
    assert!(cut_ok_exec("2026-09-15T10:00", 10));
    assert!(cut_ok_exec("short", 10));
    assert!(!cut_ok_exec("2026-09-1é", 10));
    assert!(cut_ok_exec("2026-09-é", 10));
}

#[test]
fn remaining_fit_check_follows_the_subtraction() {
    assert!(tasktimer::tasks::remaining_fits(Some(60), 600));
    assert!(tasktimer::tasks::remaining_fits(None, i64::MIN));
    assert!(!tasktimer::tasks::remaining_fits(Some(i64::MAX), -120));
    assert!(tasktimer::tasks::remaining_fits(Some(i64::MAX), -59));
}
