use chrono::Datelike;
use tasktimer::tasks::{remaining_minutes, Task};
use tasktimer::week::{keep_open, week_dates, week_fits_check, week_for, WeekError, WeekRow, WeekSummary};

fn day(s: &str) -> i32 {
    chrono::NaiveDate::parse_from_str(s, "%Y-%m-%d").unwrap().num_days_from_ce()
}

fn task(id: i64, due: Option<&str>, scheduled: Option<&str>, estimate: Option<i64>, logged: i64) -> Task {
    Task {
        id,
        class_id: 1,
        parent_task_id: None,
        title: "Task".to_string(),
        description: None,
        status: "not_started".to_string(),
        priority: None,
        due_at: due.map(|d| d.to_string()),
        scheduled_date: scheduled.map(|d| d.to_string()),
        estimated_minutes: estimate,
        source: "local".to_string(),
        external_id: None,
        completed_at: None,
        tracked_seconds: logged,
        tracked_seconds_direct: logged,
        remaining_minutes: remaining_minutes(estimate, logged),
        external_state: "active".to_string(),
        task_type: "assignment".to_string(),
        tags: vec![],
        time_budget_minutes: None,
    }
}

fn row(id: i64, due: Option<&str>, scheduled: Option<&str>, estimate: Option<i64>, logged: i64) -> WeekRow {
    WeekRow {
        task: task(id, due, scheduled, estimate, logged),
        course_code: "LGST".to_string(),
        due_local: due.map(|d| d[..10].to_string()),
    }
}

fn week(rows: Vec<WeekRow>, overrides: Vec<(String, i64)>, weekday_minutes: Vec<Option<i64>>) -> WeekSummary {
    let today = day("2026-09-16");
    let dates = week_dates("2026-09-14", today).unwrap();
    week_for(rows, &dates, &overrides, &weekday_minutes).ok().unwrap()
}

fn no_capacity() -> Vec<Option<i64>> {
    vec![None; 7]
}

#[test]
fn scheduled_task_lands_on_correct_day() {
    let w = week(vec![row(1, Some("2026-09-17"), Some("2026-09-15"), Some(60), 0)], vec![], no_capacity());
    assert_eq!(w.days[1].date, "2026-09-15");
    assert_eq!(w.days[1].tasks.len(), 1);
    assert_eq!(w.days[1].tasks[0].due_at.as_deref(), Some("2026-09-17"));
}

#[test]
fn unscheduled_due_within_lookahead_is_surfaced() {
    let w = week(vec![row(1, Some("2026-09-18"), None, Some(30), 0)], vec![], no_capacity());
    assert_eq!(w.unscheduled.len(), 1);
    assert!(w.days.iter().all(|d| d.tasks.is_empty()));
}

#[test]
fn unscheduled_far_future_not_surfaced() {
    let w = week(vec![row(1, Some("2026-12-01"), None, Some(30), 0)], vec![], no_capacity());
    assert!(w.unscheduled.is_empty());
}

#[test]
fn remaining_minutes_clamped_at_zero() {
    let w = week(vec![row(1, None, Some("2026-09-15"), Some(30), 3600)], vec![], no_capacity());
    assert_eq!(w.days[1].tasks[0].remaining_minutes, Some(0));
}

#[test]
fn capacity_override_wins_over_weekday_default() {
    let mut weekday = no_capacity();
    weekday[1] = Some(120);
    let w = week(vec![], vec![("2026-09-15".to_string(), 45)], weekday);
    assert_eq!(w.days[1].capacity_minutes, Some(45));
}

#[test]
fn week_dates_lay_out_seven_days_and_the_lookahead() {
    let today = day("2026-09-16");
    let d = week_dates("2026-09-14", today).unwrap();
    assert_eq!(d.start, "2026-09-14");
    assert_eq!(d.end, "2026-09-20");
    assert_eq!(d.lookahead, "2026-09-27");
    assert_eq!(d.today, "2026-09-16");
    assert_eq!(d.weekdays, vec![1, 2, 3, 4, 5, 6, 7]);
    let fallback = week_dates("not a date", today).unwrap();
    assert_eq!(fallback.start, "2026-09-16");
    assert_eq!(fallback.days[6], "2026-09-22");
}

#[test]
fn loads_and_totals_follow_the_day_capacity() {
    let mut weekday = no_capacity();
    weekday[0] = Some(90);
    let rows = vec![
        row(1, None, Some("2026-09-14"), Some(60), 600),
        row(2, None, Some("2026-09-14"), Some(30), 0),
        row(3, None, Some("2026-09-16"), None, 120),
    ];
    let w = week(rows, vec![], weekday);
    assert_eq!(w.days[0].estimated_minutes_remaining, 80);
    assert_eq!(w.days[0].capacity_minutes, Some(90));
    assert_eq!(w.days[0].load_percent, Some(88));
    assert_eq!(w.days[2].load_percent, None);
    assert_eq!(w.estimated_minutes_remaining, 80);
    assert_eq!(w.tracked_seconds, 720);
}

#[test]
fn unreadable_due_is_reported() {
    let today = day("2026-09-16");
    let dates = week_dates("2026-09-14", today).unwrap();
    let mut r = row(4, Some("2026-09-18T10:00:00Z"), None, None, 0);
    r.due_local = None;
    match week_for(vec![r], &dates, &vec![], &no_capacity()) {
        Err(WeekError::UnreadableDue(id)) => assert_eq!(id, 4),
        Ok(_) => panic!("expected an error"),
    }
}

#[test]
fn week_fit_check_follows_the_sums_and_due_cuts() {
    let dates = week_dates("2026-09-14", day("2026-09-16")).unwrap();
    let rows = keep_open(vec![row(1, Some("2026-09-18"), None, Some(30), 0), row(2, None, Some("2026-09-15"), Some(20), 5)]);
    assert!(week_fits_check(&rows, &dates, &vec![], &no_capacity()));
    let big = keep_open(vec![
        row(1, None, Some("2026-09-15"), Some(i64::MAX), 0),
        row(2, None, Some("2026-09-15"), Some(1), 0),
    ]);
    assert!(!week_fits_check(&big, &dates, &vec![], &no_capacity()));
    let mut odd = row(3, None, None, Some(10), 0);
    odd.due_local = None;
    odd.task.due_at = Some("2026-09-1é".to_string());
    assert!(!week_fits_check(&keep_open(vec![odd]), &dates, &vec![], &no_capacity()));
}

#[test]
fn loose_task_is_listed_as_unscheduled_and_on_no_day() {
    let w = week(
        vec![
            row(1, Some("2026-09-20"), None, Some(30), 0),
            row(2, Some("2026-12-01"), None, Some(30), 0),
            row(3, Some("2026-09-17"), Some("2026-09-16"), Some(30), 0),
        ],
        vec![],
        no_capacity(),
    );
    assert_eq!(w.unscheduled.iter().map(|t| t.id).collect::<Vec<_>>(), vec![1]);
    assert!(w.days.iter().all(|d| d.tasks.iter().all(|t| t.id != 1 && t.id != 2)));
}
