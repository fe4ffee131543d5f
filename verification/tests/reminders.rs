use tasktimer::reminders::{
    check_preferences, check_test_notification, overrun_fits, overrun_step, remaining, unset_preferences, OverrunStep, Preferences,
};
use tasktimer::timer::{ActiveSessionInfo, Session};

#[test]
fn overrun_uses_direct_work_and_threshold() {
    assert_eq!(remaining(40, 25, 600, 1200), 1200);
    assert_eq!(remaining(40, 0, 600, 1800), 0);
    assert!(remaining(40, 50, 0, 4000) < 0);
}

#[test]
fn notifications_default_off() {
    let p = unset_preferences();
    assert!(!p.enabled);
    assert_eq!(p.overrun_percent, 25);
    let d = Preferences::default();
    assert!(!d.enabled);
}

#[test]
fn preferences_accept_only_supported_thresholds() {
    let bad = Preferences { enabled: false, overrun_percent: 30 };
    assert_eq!(check_preferences(&bad, true).unwrap_err(), "Choose a supported estimate threshold.");
    let blocked = Preferences { enabled: true, overrun_percent: 50 };
    assert_eq!(
        check_preferences(&blocked, false).unwrap_err(),
        "Notifications are blocked. Enable them in system settings."
    );
    assert!(check_preferences(&blocked, true).is_ok());
    assert!(check_preferences(&Preferences { enabled: false, overrun_percent: 0 }, false).is_ok());
    assert_eq!(check_test_notification(false).unwrap_err(), "Enable notifications first.");
}

fn active(paused: bool, elapsed: i64) -> ActiveSessionInfo {
    ActiveSessionInfo {
        session: Session {
            id: 9,
            task_id: 1,
            start_ts: "2026-09-15 10:00:00".into(),
            end_ts: None,
            accumulated_pause_seconds: 0,
            pause_started_ts: None,
            final_duration_seconds: None,
            edited: false,
        },
        task_title: "Read".into(),
        class_course_code: "LGST".into(),
        is_paused: paused,
        elapsed_seconds: elapsed,
    }
}

#[test]
fn overrun_step_waits_then_notifies() {
    let on = Preferences { enabled: true, overrun_percent: 25 };
    let a = active(false, 1200);
    assert!(matches!(overrun_step(&on, false, Some(&a), Some(40), 600, false), OverrunStep::Wait(1200)));
    let late = active(false, 2400);
    match overrun_step(&on, false, Some(&late), Some(40), 600, false) {
        OverrunStep::Notify { session_id, threshold, body } => {
            assert_eq!(session_id, 9);
            assert_eq!(threshold, 25);
            assert_eq!(body, "Read has passed its 40m estimate. Tracked directly: 50m.");
        }
        _ => panic!("expected a notice"),
    }
    assert!(matches!(overrun_step(&on, false, Some(&late), Some(40), 600, true), OverrunStep::Stop));
    assert!(matches!(overrun_step(&on, true, Some(&late), Some(40), 600, false), OverrunStep::Wait(300)));
    assert!(matches!(overrun_step(&on, false, Some(&active(true, 9999)), Some(40), 0, false), OverrunStep::Stop));
    assert!(matches!(overrun_step(&on, false, Some(&late), Some(0), 600, false), OverrunStep::Stop));
    assert!(matches!(overrun_step(&on, false, None, Some(40), 0, false), OverrunStep::Stop));
    let off = Preferences { enabled: false, overrun_percent: 25 };
    assert!(matches!(overrun_step(&off, false, Some(&late), Some(40), 600, false), OverrunStep::Stop));
}

#[test]
fn overrun_fit_check_follows_the_time_worked_and_left() {
    let p = Preferences { enabled: true, overrun_percent: 25 };
    assert!(overrun_fits(&p, None, Some(i64::MAX), i64::MAX));
    assert!(overrun_fits(&p, Some(&active(false, 1200)), Some(40), 600));
    assert!(!overrun_fits(&p, Some(&active(false, 1)), Some(40), i64::MAX));
    assert!(!overrun_fits(&p, Some(&active(false, 0)), Some(i64::MAX), i64::MIN));
    assert!(overrun_fits(&p, Some(&active(false, 0)), None, 0));
}
