use tasktimer::timer::{
    build_active_info, check_edit_duration, clock_fits, check_recover, check_start, check_switch, compute_elapsed_seconds,
    finish_clock, lock_err, pause_clock, require_active, resume_clock, Session, SessionClock, TimerError,
};

/// 2026-09-15 12:00:00 UTC.
const T0: i64 = 1_789_473_600;

fn started(at: i64) -> SessionClock {
    SessionClock { start: at, accumulated_pause_seconds: 0, pause_started: None, end: None, final_duration_seconds: None }
}

#[test]
fn start_then_finish_produces_positive_duration() {
    let finished = finish_clock(started(T0), T0 + 1);
    assert_eq!(finished.end, Some(T0 + 1));
    assert!(finished.final_duration_seconds.unwrap() >= 1);
}

#[test]
fn second_start_is_rejected_with_conflict() {
    match check_start(Some((7, "Essay".to_string(), "LGST".to_string()))) {
        Err(TimerError::ActiveSessionConflict { task_id, task_title, class_course_code }) => {
            assert_eq!(task_id, 7);
            assert_eq!(task_title, "Essay");
            assert_eq!(class_course_code, "LGST");
        }
        _ => panic!("expected ActiveSessionConflict"),
    }
    assert!(check_start(None).is_ok());
}

#[test]
fn pause_then_resume_excludes_paused_time_from_duration() {
    let c = started(T0);
    let paused = pause_clock(c, T0 + 1);
    assert_eq!(paused.pause_started, Some(T0 + 1));
    let resumed = resume_clock(paused, T0 + 4);
    assert_eq!(resumed.pause_started, None);
    assert!(resumed.accumulated_pause_seconds >= 2);
    let finished = finish_clock(resumed, T0 + 5);
    let duration = finished.final_duration_seconds.unwrap();
    assert!(duration <= 2);
    assert_eq!(duration, 2);
}

#[test]
fn multiple_pauses_accumulate() {
    let mut c = started(T0);
    c = pause_clock(c, T0);
    c = resume_clock(c, T0 + 1);
    c = pause_clock(c, T0 + 1);
    c = resume_clock(c, T0 + 2);
    assert!(c.accumulated_pause_seconds >= 1);
    assert_eq!(c.accumulated_pause_seconds, 2);
}

#[test]
fn finish_with_no_active_session_returns_not_found() {
    assert!(matches!(require_active(None), Err(TimerError::NotFound)));
    assert!(matches!(require_active(Some(3)), Ok(3)));
}

#[test]
fn restart_recovery_recomputes_elapsed_from_timestamps_not_a_counter() {
    let c = started(T0 - 90);
    let e = compute_elapsed_seconds(&c, T0);
    assert!((89..=91).contains(&e));
}

fn finished_session(id: i64) -> (i64, Option<bool>) {
    (id, Some(true))
}

#[test]
fn manual_edit_overrides_duration_and_marks_edited() {
    let (_, ended) = finished_session(1);
    assert!(check_edit_duration(3420, ended).is_ok());
}

#[test]
fn manual_edit_rejects_negative_duration() {
    let err = check_edit_duration(-5, Some(true)).unwrap_err();
    assert!(err.contains("negative"));
}

#[test]
fn cannot_edit_a_running_session() {
    assert_eq!(check_edit_duration(60, Some(false)).unwrap_err(), "Finish the session before editing its duration");
    assert_eq!(check_edit_duration(60, None).unwrap_err(), "Session not found");
}

#[test]
fn day_boundary_crossing_does_not_break_elapsed_computation() {
    let c = started(T0 - 24 * 3600 - 30);
    let expected = 24 * 3600 + 30;
    assert!((compute_elapsed_seconds(&c, T0) - expected).abs() <= 2);
}

#[test]
fn switching_is_atomic_and_preserves_requested_task() {
    assert!(check_switch(Some(5), 5).is_ok());
    assert!(matches!(check_switch(Some(6), 5), Err(TimerError::NotFound)));
    assert!(matches!(check_switch(None, 5), Err(TimerError::NotFound)));
    assert_eq!(check_recover(Some(6), 5).unwrap_err(), "The active session has changed. Refresh and try again.");
}

#[test]
fn sleep_gap_and_paused_gap_are_timestamp_derived() {
    let c = SessionClock {
        start: T0 - 7200,
        accumulated_pause_seconds: 600,
        pause_started: Some(T0 - 3600),
        end: None,
        final_duration_seconds: None,
    };
    assert_eq!(compute_elapsed_seconds(&c, T0), 3000);
    assert_eq!(finish_clock(c, T0).final_duration_seconds, Some(3000));
}

#[test]
fn paused_clock_is_frozen_and_pausing_twice_keeps_the_first_start() {
    let paused = pause_clock(started(T0), T0 + 60);
    assert_eq!(compute_elapsed_seconds(&paused, T0 + 100), 60);
    assert_eq!(compute_elapsed_seconds(&paused, T0 + 5000), 60);
    assert_eq!(pause_clock(paused, T0 + 90).pause_started, Some(T0 + 60));
    assert_eq!(compute_elapsed_seconds(&started(T0 + 10), T0), 0);
}

#[test]
fn active_info_reports_pause_and_elapsed_time() {
    let session = Session {
        id: 1,
        task_id: 2,
        start_ts: "2026-09-15 11:59:00".to_string(),
        end_ts: None,
        accumulated_pause_seconds: 0,
        pause_started_ts: None,
        final_duration_seconds: None,
        edited: false,
    };
    let info = build_active_info(session, &started(T0 - 60), "Essay".to_string(), "LGST".to_string(), T0);
    assert!(!info.is_paused);
    assert_eq!(info.elapsed_seconds, 60);
    assert_eq!(info.task_title, "Essay");
    assert!(matches!(lock_err("busy".to_string()), TimerError::Other { message } if message == "busy"));
}

#[test]
fn running_elapsed_advances_with_the_clock() {
    let c = SessionClock { start: T0, accumulated_pause_seconds: 30, pause_started: None, end: None, final_duration_seconds: None };
    assert_eq!(compute_elapsed_seconds(&c, T0 + 10), 0);
    assert_eq!(compute_elapsed_seconds(&c, T0 + 40), 10);
    assert_eq!(compute_elapsed_seconds(&c, T0 + 100), 70);
}

#[test]
fn clock_fit_check_follows_the_stored_ranges() {
    assert!(clock_fits(&started(T0), T0 + 60));
    assert!(!clock_fits(&started(T0), 253_402_300_800));
    assert!(!clock_fits(&started(-62_167_219_201), T0));
    let mut paused = started(T0);
    paused.pause_started = Some(i64::MAX);
    assert!(!clock_fits(&paused, T0));
    let mut long_pause = started(T0);
    long_pause.accumulated_pause_seconds = i64::MAX;
    assert!(!clock_fits(&long_pause, T0));
}
