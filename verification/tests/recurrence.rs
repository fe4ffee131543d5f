use chrono::Datelike;
use tasktimer::recurrence::{calendar_month, should_generate, template_days, validate, NewRecurringTemplate, RecurringTemplate};

fn template(kind: &str, interval: i64, weekdays: Option<&str>, start: &str, end: Option<&str>) -> RecurringTemplate {
    RecurringTemplate {
        id: 1,
        class_id: 1,
        title: "Review".to_string(),
        description: None,
        priority: 2,
        estimated_minutes: None,
        recurrence_type: kind.to_string(),
        interval,
        weekdays: weekdays.map(|w| w.to_string()),
        start_date: start.to_string(),
        end_date: end.map(|e| e.to_string()),
        active: true,
    }
}

fn day(s: &str) -> i32 {
    chrono::NaiveDate::parse_from_str(s, "%Y-%m-%d").unwrap().num_days_from_ce()
}

#[test]
fn daily_occurrences_are_unique() {
    let today = day("2026-09-15");
    let t = template("daily", 1, None, "2026-09-15", None);
    let first = template_days(&t, today, 3).unwrap();
    let second = template_days(&t, today, 3).unwrap();
    assert_eq!(first, second);
    assert_eq!(first, vec![today, today + 1, today + 2, today + 3]);
    let mut distinct = first.clone();
    distinct.dedup();
    assert_eq!(distinct.len(), 4);
}

#[test]
fn weekly_and_interval_rules() {
    let start = day("2026-09-01");
    let weekly = template("weekly", 2, None, "2026-09-01", None);
    assert!(should_generate(&weekly, start, start + 14));
    assert!(!should_generate(&weekly, start, start + 7));
    assert!(!should_generate(&weekly, start, start - 14));
    let every_third = template("daily", 3, None, "2026-09-01", Some("2026-09-07"));
    assert_eq!(template_days(&every_third, start, 30).unwrap(), vec![start, start + 3, start + 6]);
}

#[test]
fn weekdays_follow_the_listed_days() {
    // 2026-09-14 is a Monday.
    let start = day("2026-09-14");
    let t = template("weekdays", 1, Some(" 1, 3 ,x"), "2026-09-14", None);
    assert_eq!(template_days(&t, start, 6).unwrap(), vec![start, start + 2]);
    let workdays = template("weekdays", 1, None, "2026-09-14", None);
    assert_eq!(template_days(&workdays, start, 6).unwrap().len(), 5);
}

#[test]
fn generation_starts_at_the_later_of_today_and_the_start() {
    let t = template("daily", 1, None, "2026-09-20", None);
    assert_eq!(template_days(&t, day("2026-09-15"), 6).unwrap(), vec![day("2026-09-20"), day("2026-09-21")]);
    assert_eq!(template_days(&template("daily", 1, None, "bad", None), 0, 3), None);
}

fn new_template(title: &str, kind: &str, interval: Option<i64>, end: Option<&str>) -> NewRecurringTemplate {
    NewRecurringTemplate {
        class_id: 1,
        title: title.to_string(),
        description: None,
        priority: None,
        estimated_minutes: None,
        recurrence_type: kind.to_string(),
        interval,
        weekdays: None,
        start_date: "2026-09-01".to_string(),
        end_date: end.map(|e| e.to_string()),
    }
}

#[test]
fn templates_are_validated() {
    assert!(validate(&new_template("Review", "daily", None, None)).is_ok());
    assert_eq!(validate(&new_template("  ", "daily", None, None)).unwrap_err(), "Enter a recurring task title.");
    assert_eq!(validate(&new_template("Review", "monthly", None, None)).unwrap_err(), "Choose a valid recurrence.");
    assert_eq!(
        validate(&new_template("Review", "daily", Some(0), None)).unwrap_err(),
        "Check the recurrence interval, priority, and estimate."
    );
    assert_eq!(validate(&new_template("Review", "daily", None, Some("2026-08-01"))).unwrap_err(), "Choose a valid date range.");
}

#[test]
fn months_span_to_the_next_first_day() {
    assert_eq!(calendar_month("2026-02").unwrap(), (day("2026-02-01"), day("2026-03-01")));
    assert_eq!(calendar_month("2026-12").unwrap(), (day("2026-12-01"), day("2027-01-01")));
    assert_eq!(calendar_month("2026-13").unwrap_err(), "Choose a valid month");
}
