//! The Pomodoro clock's settings and phase notices.
use vstd::prelude::*;
use crate::text::{message, str_eq};

verus! {

/// Work and break lengths in minutes.
#[derive(PartialEq, Eq, Structural)]
pub struct PomodoroSettings {
    pub work_minutes: i64,
    pub break_minutes: i64,
}

impl Default for PomodoroSettings {
    /// 25 minutes of work, 5 of break.
    fn default() -> (r: Self)
        ensures
            r.work_minutes == 25,
            r.break_minutes == 5,
    {
        PomodoroSettings { work_minutes: 25, break_minutes: 5 }
    }
}

/// What is wrong with Pomodoro settings, if anything: work must last 1 to
/// 180 minutes, a break 1 to 60.
pub open spec fn pomodoro_problem(s: PomodoroSettings) -> Option<Seq<char>> {
    if s.work_minutes < 1 || s.work_minutes > 180 {
        Some("Work length must be between 1 and 180 minutes."@)
    } else if s.break_minutes < 1 || s.break_minutes > 60 {
        Some("Break length must be between 1 and 60 minutes."@)
    } else {
        None
    }
}

/// Checks Pomodoro settings before they are stored.
pub fn check_pomodoro(s: &PomodoroSettings) -> (r: Result<(), String>)
    ensures
        match pomodoro_problem(*s) {
            Some(m) => r matches Err(e) && e@ == m,
            None => r is Ok,
        },
{
    if s.work_minutes < 1 || s.work_minutes > 180 {
        return Err(message("Work length must be between 1 and 180 minutes."));
    }
    if s.break_minutes < 1 || s.break_minutes > 60 {
        return Err(message("Break length must be between 1 and 60 minutes."));
    }
    Ok(())
}

/// The title and body of the notice for a phase change ("work_done" or
/// "break_done"); any other phase is refused.
pub fn phase_notice(phase: &str) -> (r: Result<(String, String), String>)
    ensures
        phase@ == "work_done"@ ==> (r matches Ok(p) && p.0@ == "Pomodoro: work session done"@ && p.1@ == "Time for a break."@),
        phase@ == "break_done"@ ==> (r matches Ok(p) && p.0@ == "Pomodoro: break's over"@ && p.1@ == "Back to work."@),
        phase@ != "work_done"@ && phase@ != "break_done"@ ==> (r matches Err(m) && m@ == "Unknown Pomodoro phase."@),
{
    proof {
        reveal_strlit("work_done");
        reveal_strlit("break_done");
        assert("work_done"@.len() != "break_done"@.len());
    }
    if str_eq(phase, "work_done") {
        Ok((message("Pomodoro: work session done"), message("Time for a break.")))
    } else if str_eq(phase, "break_done") {
        Ok((message("Pomodoro: break's over"), message("Back to work.")))
    } else {
        Err(message("Unknown Pomodoro phase."))
    }
}

} // verus!
