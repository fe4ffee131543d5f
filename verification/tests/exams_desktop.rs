use chrono::Datelike;
use tasktimer::desktop::{
    check_shortcuts, default_settings, keeps_running, migrate_shortcuts, shortcut_action, starts_hidden, ShortcutAction, ShortcutKey,
};
use tasktimer::exams::{
    check_new_exam, countdown_key, dashboard_fits, countdown_notice, days_until_exam, exam_task_title, semester_dashboard, whole_minutes,
    DueExam, NewExam, SemesterClassSummary,
};

fn day(s: &str) -> i32 {
    chrono::NaiveDate::parse_from_str(s, "%Y-%m-%d").unwrap().num_days_from_ce()
}

// Exams.

#[test]
fn finds_exams_within_warn_window() {
    let today = day("2026-09-20");
    assert_eq!(days_until_exam("2026-09-22", today), Some(2));
    assert_eq!(days_until_exam("2026-09-20", today), Some(0));
    assert_eq!(days_until_exam("2026-09-23", today), Some(3));
    assert_eq!(days_until_exam("2026-09-24", today), None);
    assert_eq!(days_until_exam("2026-09-19", today), None);
    assert_eq!(days_until_exam("soon", today), None);
}

#[test]
fn notifies_once_per_exam_per_day() {
    assert_eq!(countdown_key(1, "2026-09-20"), "exam_countdown_notified_1_2026-09-20");
    assert_ne!(countdown_key(1, "2026-09-21"), countdown_key(1, "2026-09-20"));
}

fn exam(target: Option<i64>, tracked_minutes: i64) -> DueExam {
    DueExam {
        id: 1,
        title: "Midterm".to_string(),
        course_code: "CS101".to_string(),
        exam_date: "2026-09-22".to_string(),
        target_study_minutes: target,
        tracked_minutes,
    }
}

#[test]
fn countdown_notices_report_whole_hours() {
    assert_eq!(
        countdown_notice(&exam(Some(600), 150), 2),
        "Midterm (CS101) is in 2 days. You've logged 2h of the 10h you planned to study."
    );
    assert_eq!(countdown_notice(&exam(None, 59), 1), "Midterm (CS101) is tomorrow. You've logged 0h of study time so far.");
    assert_eq!(countdown_notice(&exam(Some(0), 60), 0), "Midterm (CS101) is today. You've logged 1h of study time so far.");
}

#[test]
fn new_exams_are_checked() {
    let ok = NewExam { class_id: 1, title: "Final".to_string(), exam_date: "2026-12-10".to_string(), target_study_minutes: Some(300) };
    assert!(check_new_exam(&ok, true).is_ok());
    let blank = NewExam { title: "  ".to_string(), ..ok };
    assert_eq!(check_new_exam(&blank, true).unwrap_err(), "Exam title cannot be empty.");
    let bad_date = NewExam { class_id: 1, title: "Final".to_string(), exam_date: "Dec 10".to_string(), target_study_minutes: None };
    assert_eq!(check_new_exam(&bad_date, true).unwrap_err(), "Choose a valid exam date.");
    assert_eq!(exam_task_title("  Final "), "Exam prep · Final");
    assert_eq!(whole_minutes(119), 1);
    assert_eq!(whole_minutes(-61), -1);
}

#[test]
fn semester_dashboard_totals_its_classes() {
    let class = |id: i64, logged: i64, done: i64, due: i64| SemesterClassSummary {
        class_id: id,
        course_code: format!("C{id}"),
        tracked_seconds: logged,
        completed_tasks: done,
        open_tasks: 1,
        upcoming_deadlines: due,
    };
    let d = semester_dashboard("Fall".to_string(), vec![class(1, 600, 2, 1), class(2, 1200, 3, 0)]);
    assert_eq!(d.semester, "Fall");
    assert_eq!(d.tracked_seconds, 1800);
    assert_eq!(d.completed_tasks, 5);
    assert_eq!(d.upcoming_deadlines, 1);
    assert_eq!(d.classes.len(), 2);
}

// Desktop shortcuts.

fn key(mods: u32, key: u32) -> Option<ShortcutKey> {
    Some(ShortcutKey { mods, key })
}

fn default_keys() -> Vec<Option<ShortcutKey>> {
    vec![key(3, 89), key(3, 32), key(3, 70), key(3, 65)]
}

#[test]
fn defaults_and_disabled_shortcuts_are_valid() {
    let settings = default_settings(true);
    assert_eq!(check_shortcuts(&settings.shortcuts, &default_keys()).unwrap().len(), 4);
    let blank: Vec<String> = vec![String::new(); 4];
    assert!(check_shortcuts(&blank, &vec![None; 4]).unwrap().is_empty());
}

#[test]
fn shortcuts_reject_duplicates_and_unmodified_keys() {
    let mut settings = default_settings(true);
    let mut keys = default_keys();
    settings.shortcuts[1] = settings.shortcuts[0].clone();
    keys[1] = keys[0];
    assert_eq!(check_shortcuts(&settings.shortcuts, &keys).err().unwrap(), "Choose a different shortcut for each action.");
    settings.shortcuts[1] = "A".into();
    keys[1] = key(0, 65);
    assert_eq!(check_shortcuts(&settings.shortcuts, &keys).err().unwrap(), "Global shortcuts must include a modifier key.");
    keys[1] = None;
    assert_eq!(
        check_shortcuts(&settings.shortcuts, &keys).err().unwrap(),
        "Invalid shortcut. Use CommandOrControl+Shift+Y, for example."
    );
}

#[test]
fn shortcut_slots_and_launch_behaviour() {
    let settings = default_settings(false);
    assert!(!settings.close_to_tray);
    assert_eq!(settings.shortcuts[0], "CommandOrControl+Shift+Y");
    assert!(matches!(shortcut_action(0), ShortcutAction::StartTask));
    assert!(matches!(shortcut_action(1), ShortcutAction::Pause));
    assert!(matches!(shortcut_action(2), ShortcutAction::Finish));
    assert!(matches!(shortcut_action(3), ShortcutAction::QuickCapture));
    assert!(!starts_hidden(&settings, true));
    let mut hidden = default_settings(true);
    hidden.start_hidden = true;
    assert!(starts_hidden(&hidden, true));
    assert!(!starts_hidden(&hidden, false));
}

#[test]
fn legacy_start_shortcut_is_migrated() {
    let mut shortcuts: Vec<String> = vec!["CommandOrControl+Shift+T".into(), "x".into()];
    assert!(migrate_shortcuts(&mut shortcuts));
    assert_eq!(shortcuts[0], "CommandOrControl+Shift+Y");
    let mut current = default_settings(true).shortcuts;
    let before = current.clone();
    assert!(!migrate_shortcuts(&mut current));
    assert_eq!(current, before);
}

#[test]
fn closing_keeps_running_only_when_hidden_to_the_tray() {
    assert!(keeps_running(true, true));
    assert!(!keeps_running(true, false));
    assert!(!keeps_running(false, true));
    assert!(!keeps_running(false, false));
}

#[test]
fn dashboard_fits_only_when_every_column_total_fits() {
    let class = |logged: i64, done: i64| SemesterClassSummary {
        class_id: 1,
        course_code: "C1".to_string(),
        tracked_seconds: logged,
        completed_tasks: done,
        open_tasks: 0,
        upcoming_deadlines: 0,
    };
    assert!(dashboard_fits(&vec![class(10, 1), class(20, 2)]));
    assert!(dashboard_fits(&vec![]));
    assert!(!dashboard_fits(&vec![class(i64::MAX, 1), class(1, 1)]));
    assert!(!dashboard_fits(&vec![class(1, i64::MIN), class(1, -1)]));
    assert!(dashboard_fits(&vec![class(i64::MAX, 0), class(-1, 0)]));
}
