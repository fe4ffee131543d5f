//! Overrun reminders: the settings, the time left before a running timer
//! passes its estimate, and what the reminder loop does next.
use vstd::prelude::*;
use crate::num::{clamp_i64, div_trunc, sat_add, sat_mul, tdiv};
use crate::text::{message, push_signed, push_str, signed_decimal, string_of};
use crate::timer::ActiveSessionInfo;

verus! {

/// Whether overrun reminders are on, and the percent past the estimate at
/// which they fire.
pub struct Preferences {
    pub enabled: bool,
    pub overrun_percent: u32,
}

impl Default for Preferences {
    /// Off, at zero percent.
    fn default() -> (r: Self)
        ensures
            !r.enabled,
            r.overrun_percent == 0,
    {
        Preferences { enabled: false, overrun_percent: 0 }
    }
}

/// The preferences used while none are stored: off, at 25 percent.
pub fn unset_preferences() -> (r: Preferences)
    ensures
        !r.enabled,
        r.overrun_percent == 25,
{
    Preferences { enabled: false, overrun_percent: 25 }
}

/// The supported thresholds: 0, 25 or 50 percent past the estimate.
pub open spec fn supported_percent(p: u32) -> bool {
    p == 0 || p == 25 || p == 50
}

/// Checks preferences before they are stored; `permission_granted` tells
/// whether the system allows notifications (asked only when enabling).
pub fn check_preferences(s: &Preferences, permission_granted: bool) -> (r: Result<(), String>)
    ensures
        !supported_percent(s.overrun_percent) ==> (r matches Err(m) && m@ == "Choose a supported estimate threshold."@),
        supported_percent(s.overrun_percent) && s.enabled && !permission_granted
            ==> (r matches Err(m) && m@ == "Notifications are blocked. Enable them in system settings."@),
        r is Ok <==> supported_percent(s.overrun_percent) && (!s.enabled || permission_granted),
{
    if !(s.overrun_percent == 0 || s.overrun_percent == 25 || s.overrun_percent == 50) {
        return Err(message("Choose a supported estimate threshold."));
    }
    if s.enabled && !permission_granted {
        return Err(message("Notifications are blocked. Enable them in system settings."));
    }
    Ok(())
}

/// A test notification needs notifications enabled.
pub fn check_test_notification(enabled: bool) -> (r: Result<(), String>)
    ensures
        r is Ok <==> enabled,
        r matches Err(m) ==> m@ == "Enable notifications first."@,
{
    if !enabled {
        return Err(message("Enable notifications first."));
    }
    Ok(())
}

/// Seconds left before a session passes its estimate by `percent`: the
/// estimate in seconds, raised by the percent (saturating, then divided
/// toward zero), less the time already worked directly on the task.
pub open spec fn remaining_seconds(estimate: i64, percent: u32, direct_finished: i64, elapsed: i64) -> int {
    tdiv(clamp_i64(clamp_i64(estimate * 60) * (100 + percent)), 100) - clamp_i64(direct_finished + elapsed)
}

/// The seconds left before the overrun reminder fires.
pub fn remaining(estimate: i64, percent: u32, direct_finished: i64, elapsed: i64) -> (r: i64)
    requires
        i64::MIN <= remaining_seconds(estimate, percent, direct_finished, elapsed) <= i64::MAX,
    ensures
        r as int == remaining_seconds(estimate, percent, direct_finished, elapsed),
{
    let raised = sat_mul(sat_mul(estimate, 60), 100 + percent as i64);
    div_trunc(raised, 100) - sat_add(direct_finished, elapsed)
}

/// What the reminder loop does next.
pub enum OverrunStep {
    /// Nothing to wait for until the timer or the settings change.
    Stop,
    /// Check again after this many seconds.
    Wait(u64),
    /// Record an attempt for the session and threshold, then deliver this
    /// notice.
    Notify { session_id: i64, threshold: u32, body: String },
}

/// The notice of an overrun.
pub open spec fn overrun_body(title: Seq<char>, estimate: i64, worked_seconds: int) -> Seq<char> {
    title + " has passed its "@ + signed_decimal(estimate as int) + "m estimate. Tracked directly: "@
        + signed_decimal(tdiv(worked_seconds, 60)) + "m."@
}

/// Whether `overrun_step` can weigh these figures: with a running
/// session, the time worked (finished plus elapsed) and the seconds left
/// before the threshold both fit an `i64`.
pub fn overrun_fits(prefs: &Preferences, active: Option<&ActiveSessionInfo>, estimate: Option<i64>, direct_finished: i64) -> (r: bool)
    ensures
        r == (active matches Some(a) ==> i64::MIN <= remaining_seconds(
            match estimate { Some(e) => e, None => 0 }, prefs.overrun_percent, direct_finished, a.elapsed_seconds) <= i64::MAX
            && i64::MIN <= direct_finished + a.elapsed_seconds <= i64::MAX),
{
    match active {
        None => true,
        Some(a) => {
            let e: i64 = match estimate {
                Some(e) => e,
                None => 0,
            };
            let worked: i128 = direct_finished as i128 + a.elapsed_seconds as i128;
            if worked < i64::MIN as i128 || worked > i64::MAX as i128 {
                return false;
            }
            let raised = div_trunc(sat_mul(sat_mul(e, 60), 100 + prefs.overrun_percent as i64), 100);
            let left: i128 = raised as i128 - worked;
            left >= i64::MIN as i128 && left <= i64::MAX as i128
        },
    }
}

/// The reminder loop's decision. Reminders off, no running timer (or a
/// paused one), no positive estimate, or a notice already sent for this
/// session and threshold: stop. Focus Mode on: check again in five
/// minutes. Time left: wait for it. Otherwise notify.
pub fn overrun_step(
    prefs: &Preferences,
    focus_active: bool,
    active: Option<&ActiveSessionInfo>,
    estimate: Option<i64>,
    direct_finished: i64,
    already_sent: bool,
) -> (r: OverrunStep)
    requires
        active matches Some(a) ==> i64::MIN <= remaining_seconds(
            match estimate { Some(e) => e, None => 0 }, prefs.overrun_percent, direct_finished, a.elapsed_seconds) <= i64::MAX
            && i64::MIN <= direct_finished + a.elapsed_seconds <= i64::MAX,
    ensures
        !prefs.enabled ==> r is Stop,
        prefs.enabled && focus_active ==> r == OverrunStep::Wait(300),
        prefs.enabled && !focus_active ==> match active {
            None => r is Stop,
            Some(a) => if a.is_paused || !(estimate matches Some(e) && e > 0) || already_sent {
                r is Stop
            } else {
                let e = estimate->0;
                let left = remaining_seconds(e, prefs.overrun_percent, direct_finished, a.elapsed_seconds);
                if left > 0 {
                    r == OverrunStep::Wait(left as u64)
                } else {
                    r matches OverrunStep::Notify { session_id, threshold, body }
                        && session_id == a.session.id && threshold == prefs.overrun_percent
                        && body@ == overrun_body(a.task_title@, e, direct_finished + a.elapsed_seconds)
                }
            },
        },
{
    if !prefs.enabled {
        return OverrunStep::Stop;
    }
    if focus_active {
        return OverrunStep::Wait(300);
    }
    let a = match active {
        Some(a) => a,
        None => {
            return OverrunStep::Stop;
        },
    };
    if a.is_paused {
        return OverrunStep::Stop;
    }
    let e = match estimate {
        Some(e) => if e > 0 { e } else { return OverrunStep::Stop },
        None => {
            return OverrunStep::Stop;
        },
    };
    if already_sent {
        return OverrunStep::Stop;
    }
    let left = remaining(e, prefs.overrun_percent, direct_finished, a.elapsed_seconds);
    if left > 0 {
        return OverrunStep::Wait(left as u64);
    }
    let mut v: Vec<char> = Vec::new();
    push_str(&mut v, a.task_title.as_str());
    push_str(&mut v, " has passed its ");
    push_signed(&mut v, e);
    push_str(&mut v, "m estimate. Tracked directly: ");
    push_signed(&mut v, div_trunc(direct_finished + a.elapsed_seconds, 60));
    push_str(&mut v, "m.");
    let body = string_of(v.as_slice());
    assert(body@ =~= overrun_body(a.task_title@, e, direct_finished + a.elapsed_seconds));
    OverrunStep::Notify { session_id: a.session.id, threshold: prefs.overrun_percent, body }
}

/// The notice title for reminders and desktop notices.
pub fn notice_title() -> (r: String)
    ensures
        r@ == "TaskTimer"@,
{
    message("TaskTimer")
}

} // verus!
