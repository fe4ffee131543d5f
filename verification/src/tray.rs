//! The tray menu's texts and the timer actions it offers.
use vstd::prelude::*;
use crate::num::tdiv;
use crate::text::{decimal, message, pad2, push_decimal, push_pad2, push_str, signed_decimal, str_eq, string_of};
use crate::timer::ActiveSessionInfo;

verus! {

/// A task offered by the start picker.
pub struct PickerTask {
    pub id: i64,
    pub title: String,
    pub course_code: String,
    pub class_name: Option<String>,
}

/// Elapsed time as hours and two-digit minutes; negative time shows as zero.
pub open spec fn elapsed_text(seconds: int) -> Seq<char> {
    let minutes = if seconds > 0 { seconds / 60 } else { 0 };
    decimal((minutes / 60) as nat) + ":"@ + pad2(minutes % 60)
}

/// `h:mm` of elapsed seconds.
pub fn elapsed_label(seconds: i64) -> (r: String)
    ensures
        r@ == elapsed_text(seconds as int),
{
    let minutes: i64 = if seconds > 0 { seconds / 60 } else { 0 };
    let mut v: Vec<char> = Vec::new();
    push_decimal(&mut v, (minutes / 60) as u64);
    push_str(&mut v, ":");
    push_pad2(&mut v, minutes % 60);
    string_of(v.as_slice())
}

/// The status line of the tray menu.
pub open spec fn status_text(active: Option<ActiveSessionInfo>) -> Seq<char> {
    match active {
        Some(a) => a.class_course_code@ + " — "@ + a.task_title@ + " · "@ + elapsed_text(a.elapsed_seconds as int),
        None => "No active timer"@,
    }
}

/// The tray menu's status line, pause label, and whether pause and finish
/// are enabled.
pub fn tray_texts(active: Option<&ActiveSessionInfo>) -> (r: (String, String, bool))
    ensures
        r.0@ == status_text(match active {
            Some(a) => Some(*a),
            None => None,
        }),
        r.1@ == (if active matches Some(a) && a.is_paused { "Resume"@ } else { "Pause"@ }),
        r.2 == active is Some,
{
    match active {
        Some(a) => {
            let mut v: Vec<char> = Vec::new();
            push_str(&mut v, a.class_course_code.as_str());
            push_str(&mut v, " — ");
            push_str(&mut v, a.task_title.as_str());
            push_str(&mut v, " · ");
            let label = elapsed_label(a.elapsed_seconds);
            push_str(&mut v, label.as_str());
            let status = string_of(v.as_slice());
            let pause = if a.is_paused { message("Resume") } else { message("Pause") };
            (status, pause, true)
        },
        None => (message("No active timer"), message("Pause"), false),
    }
}

/// The Pomodoro line of the tray menu.
pub fn pomodoro_text(text: Option<String>) -> (r: String)
    ensures
        text matches Some(t) ==> r == t,
        text is None ==> r@ == "Pomodoro: off"@,
{
    match text {
        Some(t) => t,
        None => message("Pomodoro: off"),
    }
}

/// What a tray or shortcut timer action does to the running timer.
pub enum TimerCommand {
    Nothing,
    Pause,
    Resume,
    Finish,
}

/// The timer change for an action ("pause" toggles pause and resume,
/// "finish" finishes); nothing without a running timer.
pub fn timer_command(action: &str, active: Option<&ActiveSessionInfo>) -> (r: TimerCommand)
    ensures
        active is None ==> r is Nothing,
        active matches Some(a) ==> {
            &&& action@ == "pause"@ && a.is_paused ==> r is Resume
            &&& action@ == "pause"@ && !a.is_paused ==> r is Pause
            &&& action@ == "finish"@ ==> r is Finish
            &&& action@ != "pause"@ && action@ != "finish"@ ==> r is Nothing
        },
{
    proof {
        reveal_strlit("pause");
        reveal_strlit("finish");
        assert("pause"@.len() != "finish"@.len());
    }
    match active {
        None => TimerCommand::Nothing,
        Some(a) => {
            if str_eq(action, "pause") {
                if a.is_paused { TimerCommand::Resume } else { TimerCommand::Pause }
            } else if str_eq(action, "finish") {
                TimerCommand::Finish
            } else {
                TimerCommand::Nothing
            }
        },
    }
}

/// The message shown when a timer change could not be saved.
pub fn timer_change_failed() -> (r: String)
    ensures
        r@ == "TaskTimer couldn't save the timer change. Try again."@,
{
    message("TaskTimer couldn't save the timer change. Try again.")
}

/// How long after the quick-capture window is shown a focus loss is taken
/// for the race between showing and focusing it, in milliseconds.
pub open spec fn blur_grace_millis() -> int {
    400
}

/// Whether a focus loss of the quick-capture window `elapsed_millis` after
/// it was shown is spurious and should not hide it.
pub fn blur_is_spurious(elapsed_millis: u128) -> (r: bool)
    ensures
        r <==> elapsed_millis < blur_grace_millis(),
{
    elapsed_millis < 400
}

} // verus!
