use tasktimer::cloud_backup::{
    backup_due, backup_file_name, backup_folder, backup_run_key, backups_to_remove, check_backup_settings,
    default_backup_settings, default_icloud_folder, CloudBackupSettings,
};
use tasktimer::idle::{check_idle_threshold, default_threshold, idle_limit_seconds, parse_idle_nanoseconds};
use tasktimer::pomodoro::{check_pomodoro, phase_notice, PomodoroSettings};
use tasktimer::weekly_review::{check_review_settings, review_notice, review_step, week_key, WeeklyReviewSettings};

// Cloud backup.

#[test]
fn defaults_are_disabled_with_no_chosen_folder_override() {
    let s = default_backup_settings(Some("/Users/ana"), true);
    assert!(!s.enabled);
}

#[test]
fn icloud_folder_is_offered_only_when_the_container_is_present() {
    assert_eq!(
        default_icloud_folder(Some("/Users/ana"), true).as_deref(),
        Some("/Users/ana/Library/Mobile Documents/com~apple~CloudDocs/TaskTimer Backups")
    );
    assert_eq!(
        default_icloud_folder(Some("/Users/ana/"), true).as_deref(),
        Some("/Users/ana/Library/Mobile Documents/com~apple~CloudDocs/TaskTimer Backups")
    );
    assert_eq!(default_icloud_folder(Some("/Users/ana"), false), None);
    assert_eq!(default_icloud_folder(None, true), None);
    assert!(default_backup_settings(Some("/Users/ana"), false).folder.is_none());
    assert!(!default_backup_settings(None, false).enabled);
}

#[test]
fn rejects_enabling_without_a_folder() {
    let s = CloudBackupSettings { enabled: true, folder: None };
    assert_eq!(check_backup_settings(&s).unwrap_err(), "Choose a backup folder first.");
    let empty = CloudBackupSettings { enabled: true, folder: Some(String::new()) };
    assert!(check_backup_settings(&empty).is_err());
    assert!(check_backup_settings(&CloudBackupSettings { enabled: false, folder: None }).is_ok());
    assert_eq!(backup_folder(&s).unwrap_err(), "Choose a backup folder first.");
}

#[test]
fn cloud_backup_saved_settings_round_trip() {
    let s = CloudBackupSettings { enabled: true, folder: Some("/tmp/backups".into()) };
    check_backup_settings(&s).unwrap();
    assert!(s.enabled);
    assert_eq!(backup_folder(&s).unwrap(), "/tmp/backups");
}

#[test]
fn writes_and_prunes_backups() {
    // Three snapshots written a second apart, beside an unrelated file: all are kept.
    let mut names: Vec<String> = (0..3).map(|i| backup_file_name(&format!("2026-09-20_1200{:02}", i))).collect();
    names.push("notes.txt".to_string());
    assert_eq!(names[2], "task-timer-2026-09-20_120002.json");
    assert!(backups_to_remove(&names).is_empty());
    // Thirty-three snapshots listed newest first: the three oldest go.
    let many: Vec<String> = (0..33).rev().map(|i| backup_file_name(&format!("2026-09-20_12{:02}00", i))).collect();
    let gone = backups_to_remove(&many);
    assert_eq!(
        gone,
        vec!["task-timer-2026-09-20_120000.json", "task-timer-2026-09-20_120100.json", "task-timer-2026-09-20_120200.json"]
    );
}

#[test]
fn runs_once_per_day() {
    let key = backup_run_key("2026-09-20");
    assert_eq!(key, "cloud_backup_last_run_2026-09-20");
    let s = CloudBackupSettings { enabled: true, folder: Some("/tmp/b".into()) };
    assert_eq!(backup_due(&s, false).as_deref(), Some("/tmp/b"));
    assert_eq!(backup_due(&s, true), None);
    assert_eq!(backup_due(&CloudBackupSettings { enabled: false, folder: Some("/tmp/b".into()) }, false), None);
}

// Pomodoro.

#[test]
fn defaults_are_25_and_5_when_unset() {
    let s = PomodoroSettings::default();
    assert_eq!(s.work_minutes, 25);
    assert_eq!(s.break_minutes, 5);
}

#[test]
fn pomodoro_saved_settings_round_trip() {
    let s = PomodoroSettings { work_minutes: 50, break_minutes: 10 };
    check_pomodoro(&s).unwrap();
    assert_eq!(s.work_minutes, 50);
    assert_eq!(s.break_minutes, 10);
}

#[test]
fn rejects_out_of_range_values() {
    assert!(check_pomodoro(&PomodoroSettings { work_minutes: 0, break_minutes: 5 }).is_err());
    assert!(check_pomodoro(&PomodoroSettings { work_minutes: 25, break_minutes: 0 }).is_err());
    assert_eq!(
        check_pomodoro(&PomodoroSettings { work_minutes: 181, break_minutes: 5 }).unwrap_err(),
        "Work length must be between 1 and 180 minutes."
    );
    assert!(check_pomodoro(&PomodoroSettings { work_minutes: 180, break_minutes: 60 }).is_ok());
    assert!(check_pomodoro(&PomodoroSettings { work_minutes: 25, break_minutes: 61 }).is_err());
}

#[test]
fn pomodoro_phase_notices() {
    assert_eq!(
        phase_notice("work_done").unwrap(),
        ("Pomodoro: work session done".to_string(), "Time for a break.".to_string())
    );
    assert_eq!(phase_notice("break_done").unwrap().1, "Back to work.");
    assert_eq!(phase_notice("nap").unwrap_err(), "Unknown Pomodoro phase.");
}

// Weekly review.

#[test]
fn defaults_are_disabled_sunday_evening() {
    let s = WeeklyReviewSettings::default();
    assert!(!s.enabled);
    assert_eq!(s.weekday, 0);
    assert_eq!(s.hour, 18);
}

#[test]
fn weekly_review_saved_settings_round_trip() {
    let s = WeeklyReviewSettings { enabled: true, weekday: 5, hour: 9 };
    check_review_settings(&s).unwrap();
    assert!(s.enabled);
    assert_eq!(s.weekday, 5);
    assert_eq!(s.hour, 9);
}

#[test]
fn rejects_invalid_weekday_or_hour() {
    assert!(check_review_settings(&WeeklyReviewSettings { enabled: true, weekday: 7, hour: 9 }).is_err());
    assert!(check_review_settings(&WeeklyReviewSettings { enabled: true, weekday: 0, hour: 24 }).is_err());
}

#[test]
fn notifies_once_per_iso_week() {
    let s = WeeklyReviewSettings { enabled: true, weekday: 0, hour: 18 };
    let w38 = week_key(2026, 38);
    assert_eq!(w38, "2026-W38");
    assert_eq!(week_key(2027, 1), "2027-W01");
    assert_eq!(review_step(&s, 0, 18, &w38, None).as_deref(), Some("2026-W38"));
    assert_eq!(review_step(&s, 0, 18, &w38, Some(&w38)), None);
    let w39 = week_key(2026, 39);
    assert_eq!(review_step(&s, 0, 18, &w39, Some(&w38)).as_deref(), Some("2026-W39"));
    assert_eq!(review_step(&s, 1, 18, &w39, None), None);
    assert_eq!(review_step(&s, 0, 17, &w39, None), None);
    assert_eq!(review_notice().0, "TaskTimer");
}

// Idle detection.

#[test]
fn parses_nanoseconds_from_ioreg_line() {
    let sample = "    | |     \"HIDIdleTime\" = 28324375\n";
    let ns = parse_idle_nanoseconds(sample);
    assert_eq!(ns, Some(28324375));
    assert_eq!(ns.map(|n| n as f64 / 1_000_000_000.0), Some(28324375.0 / 1_000_000_000.0));
}

#[test]
fn returns_none_when_field_missing() {
    assert_eq!(parse_idle_nanoseconds("no relevant fields here"), None);
    assert_eq!(parse_idle_nanoseconds("\"HIDIdleTime\" = soon"), None);
}

#[test]
fn threshold_defaults_to_five_minutes() {
    assert_eq!(default_threshold(), 5);
}

#[test]
fn idle_limit_applies_only_to_a_running_timer() {
    assert_eq!(idle_limit_seconds(5, true, false), Some(300));
    assert_eq!(idle_limit_seconds(0, true, false), None);
    assert_eq!(idle_limit_seconds(5, false, false), None);
    assert_eq!(idle_limit_seconds(5, true, true), None);
    assert!(check_idle_threshold(120).is_ok());
    assert_eq!(check_idle_threshold(121).unwrap_err(), "Idle threshold must be between 0 (off) and 120 minutes.");
    assert!(check_idle_threshold(-1).is_err());
}
