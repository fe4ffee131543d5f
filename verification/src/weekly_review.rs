//! The weekly review reminder: its settings and when it is due.
use vstd::prelude::*;
use crate::text::{message, pad2, push_pad2, push_signed, push_str, signed_decimal, str_eq, string_of};

verus! {

/// When the weekly review reminder fires.
#[derive(PartialEq, Eq, Structural)]
pub struct WeeklyReviewSettings {
    pub enabled: bool,
    /// 0 = Sunday .. 6 = Saturday, as chrono's `Weekday::num_days_from_sunday`.
    pub weekday: u32,
    pub hour: u32,
}

impl Default for WeeklyReviewSettings {
    /// Off, Sunday at 18:00.
    fn default() -> (r: Self)
        ensures
            !r.enabled,
            r.weekday == 0,
            r.hour == 18,
    {
        WeeklyReviewSettings { enabled: false, weekday: 0, hour: 18 }
    }
}

/// What is wrong with review settings, if anything.
pub open spec fn review_problem(s: WeeklyReviewSettings) -> Option<Seq<char>> {
    if s.weekday > 6 {
        Some("Choose a valid day of the week."@)
    } else if s.hour > 23 {
        Some("Choose a valid hour (0-23)."@)
    } else {
        None
    }
}

/// Checks review settings before they are stored.
pub fn check_review_settings(s: &WeeklyReviewSettings) -> (r: Result<(), String>)
    ensures
        match review_problem(*s) {
            Some(m) => r matches Err(e) && e@ == m,
            None => r is Ok,
        },
{
    if s.weekday > 6 {
        return Err(message("Choose a valid day of the week."));
    }
    if s.hour > 23 {
        return Err(message("Choose a valid hour (0-23)."));
    }
    Ok(())
}

/// The ISO week's key, `{year}-W{week:02}`.
pub open spec fn week_key_text(iso_year: int, iso_week: int) -> Seq<char> {
    signed_decimal(iso_year) + "-W"@ + pad2(iso_week)
}

/// The key of an ISO week.
pub fn week_key(iso_year: i32, iso_week: u32) -> (r: String)
    ensures
        r@ == week_key_text(iso_year as int, iso_week as int),
{
    let mut v: Vec<char> = Vec::new();
    push_signed(&mut v, iso_year as i64);
    push_str(&mut v, "-W");
    push_pad2(&mut v, iso_week as i64);
    string_of(v.as_slice())
}

/// The review is due now: enabled, on its weekday and hour, and not yet
/// noted for this ISO week (`last_notified` is the last week noted).
pub open spec fn review_due(s: WeeklyReviewSettings, weekday: u32, hour: u32, this_week: Seq<char>, last_notified: Option<Seq<char>>) -> bool {
    s.enabled && weekday == s.weekday && hour == s.hour && last_notified != Some(this_week)
}

/// Decides the review reminder at a moment (weekday from Sunday, hour,
/// and this ISO week's key): the week to record as notified, or `None`.
pub fn review_step(s: &WeeklyReviewSettings, weekday: u32, hour: u32, this_week: &String, last_notified: Option<&String>) -> (r: Option<String>)
    ensures
        r is Some <==> review_due(*s, weekday, hour, this_week@, match last_notified {
            Some(l) => Some(l@),
            None => None,
        }),
        r matches Some(k) ==> k@ == this_week@,
{
    if !s.enabled || weekday != s.weekday || hour != s.hour {
        return None;
    }
    let seen = match last_notified {
        Some(l) => str_eq(l.as_str(), this_week.as_str()),
        None => false,
    };
    if seen {
        None
    } else {
        Some(this_week.clone())
    }
}

/// Law: once the review has been noted for a week, it is not due again
/// that week.
pub proof fn review_fires_once_per_week(s: WeeklyReviewSettings, weekday: u32, hour: u32, this_week: Seq<char>)
    ensures
        !review_due(s, weekday, hour, this_week, Some(this_week)),
{
}

/// The title and body of the review reminder.
pub fn review_notice() -> (r: (String, String))
    ensures
        r.0@ == "TaskTimer"@,
        r.1@ == "Your weekly review is ready. Check Analytics for what changed this week."@,
{
    (message("TaskTimer"), message("Your weekly review is ready. Check Analytics for what changed this week."))
}

} // verus!
