//! Calendar days as integers, with chrono doing the parsing and printing.
//!
//! A day is the number that chrono's `num_days_from_ce` gives it: January 1
//! of year 1 is day 1, and consecutive days differ by one.
use vstd::prelude::*;
use chrono::Datelike;

verus! {

/// What chrono's `NaiveDate::parse_from_str(s, "%Y-%m-%d")` yields for `s`,
/// as a day number (`None` where the text is no valid date).
pub uninterp spec fn parsed_ymd(s: Seq<char>) -> Option<int>;

/// The day numbers of valid dates.
pub open spec fn day_range(d: int) -> bool {
    -100_000_000 < d < 100_000_000
}

/// The text chrono prints for a day (`NaiveDate`'s `Display`, `%Y-%m-%d`),
/// or `None` where the day is outside chrono's range.
pub uninterp spec fn printed_ymd(day: int) -> Option<Seq<char>>;

/// Calls `chrono::NaiveDate::parse_from_str(s, "%Y-%m-%d")` and converts the
/// date to its `num_days_from_ce`. The result is named: it depends on `s` alone.
/// A `NaiveDate` lies between `NaiveDate::MIN` and `NaiveDate::MAX`, about
/// 262,144 years either side of year 1, so its day number is well within
/// plus or minus 100,000,000.
#[verifier::external_body]
pub(crate) fn parse_ymd(s: &str) -> (r: Option<i32>)
    ensures
        r matches Some(d) ==> parsed_ymd(s@) == Some(d as int) && -100_000_000 < d < 100_000_000,
        r is None ==> parsed_ymd(s@) is None,
{
    chrono::NaiveDate::parse_from_str(s, "%Y-%m-%d").ok().map(|d| d.num_days_from_ce())
}

/// Calls `chrono::NaiveDate::from_num_days_from_ce_opt(day)` and prints the
/// date with its `Display` impl. The result is named: it depends on `day` alone.
#[verifier::external_body]
pub(crate) fn print_ymd(day: i32) -> (r: Option<String>)
    ensures
        r matches Some(t) ==> printed_ymd(day as int) == Some(t@),
        r is None ==> printed_ymd(day as int) is None,
{
    chrono::NaiveDate::from_num_days_from_ce_opt(day).map(|d| d.to_string())
}

/// ISO weekday number (Monday = 1 .. Sunday = 7) of a day number. Day 1
/// (January 1 of year 1 in the proleptic Gregorian calendar) is a Monday.
pub open spec fn weekday_of(day: int) -> int {
    (day - 1) % 7 + 1
}

/// Weekday number from Monday, as chrono's `weekday().number_from_monday()`.
pub fn weekday_from_monday(day: i32) -> (r: u32)
    ensures
        r as int == weekday_of(day as int),
        1 <= r <= 7,
{
    let shifted: i64 = day as i64 - 1;
    let m: i64 = shifted % 7;
    let m: i64 = if m < 0 { m + 7 } else { m };
    (m + 1) as u32
}

/// Whether `s` is a valid `YYYY-MM-DD` date.
pub fn is_valid_date(s: &str) -> (r: bool)
    ensures
        r == parsed_ymd(s@) is Some,
{
    parse_ymd(s).is_some()
}

/// A day number chrono can print.
pub open spec fn printable(d: int) -> bool {
    i32::MIN <= d <= i32::MAX && printed_ymd(d) is Some
}

/// Prints a day number given as an `i64`; `None` where chrono cannot.
pub fn print_day(d: i64) -> (r: Option<String>)
    ensures
        r matches Some(t) ==> printable(d as int) && printed_ymd(d as int) == Some(t@),
        r is None ==> !printable(d as int),
{
    if d < i32::MIN as i64 || d > i32::MAX as i64 {
        return None;
    }
    print_ymd(d as i32)
}

} // verus!
