//! Idle detection: the threshold setting and reading the system's idle time.
use vstd::prelude::*;
use crate::text::{chars_of, contains_chars, contains_text, message, parse_u64, parsed_u64, split_chars, split_on, trim_chars, trimmed};

verus! {

/// The idle threshold used when none is set, in minutes.
pub open spec fn default_threshold_minutes() -> i64 {
    5
}

/// The idle threshold when none is stored.
pub fn default_threshold() -> (r: i64)
    ensures
        r == default_threshold_minutes(),
{
    5
}

/// The threshold must be 0 (off) to 120 minutes.
pub fn check_idle_threshold(minutes: i64) -> (r: Result<(), String>)
    ensures
        r is Ok <==> 0 <= minutes <= 120,
        r matches Err(m) ==> m@ == "Idle threshold must be between 0 (off) and 120 minutes."@,
{
    if minutes < 0 || minutes > 120 {
        return Err(message("Idle threshold must be between 0 (off) and 120 minutes."));
    }
    Ok(())
}

/// The idle time in seconds at which a running timer pauses; `None` when
/// the check does not apply (threshold off, no timer, or a paused one).
pub fn idle_limit_seconds(threshold_minutes: i64, active: bool, paused: bool) -> (r: Option<i64>)
    requires
        0 <= threshold_minutes <= 120,
    ensures
        r is Some <==> threshold_minutes != 0 && active && !paused,
        r matches Some(s) ==> s == threshold_minutes * 60,
{
    if threshold_minutes == 0 || !active || paused {
        return None;
    }
    Some(threshold_minutes * 60)
}

/// The index of the first line that contains `pat`, at or after `from`.
pub open spec fn first_line_with(lines: Seq<Seq<char>>, pat: Seq<char>, from: int) -> Option<int>
    decreases lines.len() - from,
{
    if from < 0 || from >= lines.len() {
        None
    } else if contains_text(lines[from], pat) {
        Some(from)
    } else {
        first_line_with(lines, pat, from + 1)
    }
}

/// The nanoseconds in the `HIDIdleTime` line of `ioreg -c IOHIDSystem`
/// output: the first line naming it, the text after its first '=' (up to
/// any next '='), trimmed and read as a `u64`.
pub open spec fn idle_nanoseconds(output: Seq<char>) -> Option<u64> {
    let lines = split_on(output, '\n');
    match first_line_with(lines, "HIDIdleTime"@, 0) {
        Some(i) => {
            let parts = split_on(lines[i], '=');
            if parts.len() >= 2 {
                parsed_u64(trimmed(parts[1]))
            } else {
                None
            }
        },
        None => None,
    }
}

/// Reads the idle nanoseconds from `ioreg` output.
pub fn parse_idle_nanoseconds(output: &str) -> (r: Option<u64>)
    ensures
        r == idle_nanoseconds(output@),
{
    proof {
        reveal_strlit("HIDIdleTime");
    }
    let cs = chars_of(output);
    let lines = split_chars(cs.as_slice(), '\n');
    let pat = chars_of("HIDIdleTime");
    let ghost all = split_on(output@, '\n');
    let mut i: usize = 0;
    while i < lines.len()
        invariant
            cs@ == output@,
            pat@ == "HIDIdleTime"@,
            all == split_on(output@, '\n'),
            lines@.len() == all.len(),
            forall|k: int| 0 <= k < lines@.len() ==> (#[trigger] lines@[k])@ == all[k],
            i <= lines.len(),
            first_line_with(all, "HIDIdleTime"@, 0) == first_line_with(all, "HIDIdleTime"@, i as int),
        decreases lines.len() - i,
    {
        if contains_chars(lines[i].as_slice(), pat.as_slice()) {
            let parts = split_chars(lines[i].as_slice(), '=');
            if parts.len() < 2 {
                return None;
            }
            let t = trim_chars(parts[1].as_slice());
            return parse_u64(t.as_slice());
        }
        i += 1;
    }
    None
}

} // verus!
