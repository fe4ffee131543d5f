use tasktimer::timer::{ActiveSessionInfo, Session};
use tasktimer::tray::{blur_is_spurious, elapsed_label, pomodoro_text, timer_command, tray_texts, TimerCommand};

#[test]
fn elapsed_label_is_compact_and_minute_accurate() {
    assert_eq!(elapsed_label(0), "0:00");
    assert_eq!(elapsed_label(3661), "1:01");
    assert_eq!(elapsed_label(-5), "0:00");
}

#[test]
fn elapsed_label_counts_whole_minutes_and_many_hours() {
    assert_eq!(elapsed_label(59), "0:00");
    assert_eq!(elapsed_label(600), "0:10");
    assert_eq!(elapsed_label(36000 + 59 * 60), "10:59");
}

fn active(paused: bool) -> ActiveSessionInfo {
    ActiveSessionInfo {
        session: Session {
            id: 1,
            task_id: 2,
            start_ts: "2026-09-15 10:00:00".into(),
            end_ts: None,
            accumulated_pause_seconds: 0,
            pause_started_ts: None,
            final_duration_seconds: None,
            edited: false,
        },
        task_title: "Essay".into(),
        class_course_code: "LGST".into(),
        is_paused: paused,
        elapsed_seconds: 3661,
    }
}

#[test]
fn tray_texts_follow_the_timer() {
    let (status, pause, enabled) = tray_texts(Some(&active(false)));
    assert_eq!(status, "LGST — Essay · 1:01");
    assert_eq!(pause, "Pause");
    assert!(enabled);
    assert_eq!(tray_texts(Some(&active(true))).1, "Resume");
    let (status, pause, enabled) = tray_texts(None);
    assert_eq!(status, "No active timer");
    assert_eq!(pause, "Pause");
    assert!(!enabled);
    assert_eq!(pomodoro_text(None), "Pomodoro: off");
    assert_eq!(pomodoro_text(Some("Work 12:00".into())), "Work 12:00");
}

#[test]
fn timer_commands_toggle_pause_and_finish() {
    assert!(matches!(timer_command("pause", Some(&active(false))), TimerCommand::Pause));
    assert!(matches!(timer_command("pause", Some(&active(true))), TimerCommand::Resume));
    assert!(matches!(timer_command("finish", Some(&active(true))), TimerCommand::Finish));
    assert!(matches!(timer_command("other", Some(&active(false))), TimerCommand::Nothing));
    assert!(matches!(timer_command("pause", None), TimerCommand::Nothing));
}

#[test]
fn quick_capture_ignores_blur_right_after_showing() {
    assert!(blur_is_spurious(0));
    assert!(blur_is_spurious(399));
    assert!(!blur_is_spurious(400));
    assert!(!blur_is_spurious(5_000));
}
