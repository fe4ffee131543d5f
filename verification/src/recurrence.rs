//! Recurring task templates: their checks, the days they fall on, and the
//! month calendar.
use vstd::prelude::*;
use crate::dates::{parse_ymd, parsed_ymd, print_day, printable, printed_ymd, weekday_from_monday, weekday_of};
use crate::num::{rem_trunc, tdiv, trem};
use crate::planning::{copy_block, StudyBlock};
use crate::tasks::{copy_task, same_task, Task};
use crate::text::{
    chars_of, is_blank, message, one_of, parse_i64, parsed_i64, seq_lt, split_chars, split_on, str_eq, str_lt,
    trim_chars, trimmed,
};

verus! {

/// A template that creates a task on each day it falls on.
pub struct RecurringTemplate {
    pub id: i64,
    pub class_id: i64,
    pub title: String,
    pub description: Option<String>,
    pub priority: i64,
    pub estimated_minutes: Option<i64>,
    pub recurrence_type: String,
    pub interval: i64,
    pub weekdays: Option<String>,
    pub start_date: String,
    pub end_date: Option<String>,
    pub active: bool,
}

/// The fields of a template to create.
pub struct NewRecurringTemplate {
    pub class_id: i64,
    pub title: String,
    pub description: Option<String>,
    pub priority: Option<i64>,
    pub estimated_minutes: Option<i64>,
    pub recurrence_type: String,
    pub interval: Option<i64>,
    pub weekdays: Option<String>,
    pub start_date: String,
    pub end_date: Option<String>,
}

/// The fields of a template to change.
pub struct UpdateRecurringTemplate {
    pub id: i64,
    pub class_id: i64,
    pub title: String,
    pub description: Option<String>,
    pub priority: Option<i64>,
    pub estimated_minutes: Option<i64>,
    pub recurrence_type: String,
    pub interval: Option<i64>,
    pub weekdays: Option<String>,
    pub start_date: String,
    pub end_date: Option<String>,
}

/// The recurrences a template may have.
pub open spec fn recurrence_types() -> Seq<Seq<char>> {
    seq!["daily"@, "weekly"@, "weekdays"@]
}

/// What is wrong with a template, if anything: a blank title, an unknown
/// recurrence, an interval below one, a priority outside one to four
/// (two when unset), a negative estimate, or a bad date range (an
/// unreadable start or end, or an end before the start).
pub open spec fn template_problem(i: NewRecurringTemplate) -> Option<Seq<char>> {
    let interval = match i.interval {
        Some(n) => n as int,
        None => 1,
    };
    let priority = match i.priority {
        Some(p) => p as int,
        None => 2,
    };
    if trimmed(i.title@).len() == 0 {
        Some("Enter a recurring task title."@)
    } else if !one_of(i.recurrence_type@, recurrence_types()) {
        Some("Choose a valid recurrence."@)
    } else if interval < 1 || priority < 1 || priority > 4 || (i.estimated_minutes matches Some(n) && n < 0) {
        Some("Check the recurrence interval, priority, and estimate."@)
    } else if parsed_ymd(i.start_date@) is None
        || (i.end_date matches Some(d) && parsed_ymd(d@) is None)
        || (i.end_date matches Some(d) && seq_lt(d@, i.start_date@)) {
        Some("Choose a valid date range."@)
    } else {
        None
    }
}

fn is_recurrence_type(t: &str) -> (r: bool)
    ensures
        r == one_of(t@, recurrence_types()),
{
    proof {
        reveal_strlit("daily");
        reveal_strlit("weekly");
        reveal_strlit("weekdays");
    }
    let r = str_eq(t, "daily") || str_eq(t, "weekly") || str_eq(t, "weekdays");
    assert(r == one_of(t@, recurrence_types())) by {
        let ts = recurrence_types();
        if one_of(t@, ts) {
            let k = choose|k: int| 0 <= k < ts.len() && ts[k] == t@;
        }
        if t@ == "daily"@ { assert(ts[0] == t@); }
        if t@ == "weekly"@ { assert(ts[1] == t@); }
        if t@ == "weekdays"@ { assert(ts[2] == t@); }
    }
    r
}

/// Checks a template before it is stored.
pub fn validate(i: &NewRecurringTemplate) -> (r: Result<(), String>)
    ensures
        match template_problem(*i) {
            Some(m) => r matches Err(e) && e@ == m,
            None => r is Ok,
        },
{
    if is_blank(i.title.as_str()) {
        return Err(message("Enter a recurring task title."));
    }
    if !is_recurrence_type(i.recurrence_type.as_str()) {
        return Err(message("Choose a valid recurrence."));
    }
    let interval: i64 = match i.interval {
        Some(n) => n,
        None => 1,
    };
    let priority: i64 = match i.priority {
        Some(p) => p,
        None => 2,
    };
    let negative_estimate = match i.estimated_minutes {
        Some(n) => n < 0,
        None => false,
    };
    if interval < 1 || priority < 1 || priority > 4 || negative_estimate {
        return Err(message("Check the recurrence interval, priority, and estimate."));
    }
    let bad_end = match &i.end_date {
        Some(d) => parse_ymd(d.as_str()).is_none() || str_lt(d.as_str(), i.start_date.as_str()),
        None => false,
    };
    if parse_ymd(i.start_date.as_str()).is_none() || bad_end {
        return Err(message("Choose a valid date range."));
    }
    Ok(())
}

fn copy_text(s: &Option<String>) -> (r: Option<String>)
    ensures
        r == *s,
{
    match s {
        Some(t) => Some(t.clone()),
        None => None,
    }
}

/// The template fields of an update, checked as a new template would be.
pub fn update_as_new(u: &UpdateRecurringTemplate) -> (r: NewRecurringTemplate)
    ensures
        r.class_id == u.class_id,
        r.title == u.title,
        r.description == u.description,
        r.priority == u.priority,
        r.estimated_minutes == u.estimated_minutes,
        r.recurrence_type == u.recurrence_type,
        r.interval == u.interval,
        r.weekdays == u.weekdays,
        r.start_date == u.start_date,
        r.end_date == u.end_date,
{
    NewRecurringTemplate {
        class_id: u.class_id,
        title: u.title.clone(),
        description: copy_text(&u.description),
        priority: u.priority,
        estimated_minutes: u.estimated_minutes,
        recurrence_type: u.recurrence_type.clone(),
        interval: u.interval,
        weekdays: copy_text(&u.weekdays),
        start_date: u.start_date.clone(),
        end_date: copy_text(&u.end_date),
    }
}

/// The weekdays of a "weekdays" template: Monday to Friday when unset.
pub open spec fn weekday_text(t: RecurringTemplate) -> Seq<char> {
    match t.weekdays {
        Some(w) => w@,
        None => "1,2,3,4,5"@,
    }
}

/// Some comma-separated entry of `text`, trimmed, reads as the number `wd`.
pub open spec fn lists_weekday(text: Seq<char>, wd: int) -> bool {
    exists|i: int| 0 <= i < split_on(text, ',').len()
        && (#[trigger] parsed_i64(trimmed(split_on(text, ',')[i])) matches Some(v) && v == wd)
}

/// The template has a readable end date before `date`.
pub open spec fn ended_by(t: RecurringTemplate, date: int) -> bool {
    t.end_date matches Some(e) && (parsed_ymd(e@) matches Some(ed) && date > ed)
}

/// The template's rule for `date` divides by its interval.
pub open spec fn interval_used(t: RecurringTemplate, start: int, date: int) -> bool {
    &&& date >= start
    &&& !ended_by(t, date)
    &&& (t.recurrence_type@ == "daily"@
        || (t.recurrence_type@ == "weekly"@ && (date - start) % 7 == 0)
        || (t.recurrence_type@ == "weekdays"@ && lists_weekday(weekday_text(t), weekday_of(date))))
}

/// The template starting on day `start` falls on day `date`: within its
/// range, every `interval` days ("daily"), every `interval` weeks on the
/// start's weekday ("weekly"), or on listed weekdays of every `interval`th
/// week counted from the start ("weekdays").
pub open spec fn generates(t: RecurringTemplate, start: int, date: int) -> bool {
    if date < start || ended_by(t, date) {
        false
    } else {
        let days = date - start;
        if t.recurrence_type@ == "daily"@ {
            trem(days, t.interval as int) == 0
        } else if t.recurrence_type@ == "weekly"@ {
            days % 7 == 0 && trem(days / 7, t.interval as int) == 0
        } else if t.recurrence_type@ == "weekdays"@ {
            lists_weekday(weekday_text(t), weekday_of(date)) && trem(days / 7, t.interval as int) == 0
        } else {
            false
        }
    }
}

fn lists_weekday_exec(text: &str, wd: i64) -> (r: bool)
    ensures
        r == lists_weekday(text@, wd as int),
{
    let cs = chars_of(text);
    let parts = split_chars(cs.as_slice(), ',');
    let ghost pieces = split_on(text@, ',');
    let mut i: usize = 0;
    while i < parts.len()
        invariant
            cs@ == text@,
            pieces == split_on(text@, ','),
            parts@.len() == pieces.len(),
            forall|k: int| 0 <= k < parts@.len() ==> (#[trigger] parts@[k])@ == pieces[k],
            i <= parts.len(),
            forall|k: int| 0 <= k < i ==> #[trigger] parsed_i64(trimmed(pieces[k])) != Some(wd),
        decreases parts.len() - i,
    {
        let p = trim_chars(parts[i].as_slice());
        let hit = match parse_i64(p.as_slice()) {
            Some(v) => v == wd,
            None => false,
        };
        if hit {
            assert(parsed_i64(trimmed(pieces[i as int])) == Some(wd));
            assert(parsed_i64(trimmed(split_on(text@, ',')[i as int])) matches Some(v) && v == wd as int);
            return true;
        }
        i += 1;
    }
    false
}

/// Whether the template starting on day `start_day` falls on day `date`.
pub fn should_generate(t: &RecurringTemplate, start_day: i32, date: i32) -> (r: bool)
    requires
        interval_used(*t, start_day as int, date as int) ==> t.interval != 0,
    ensures
        r == generates(*t, start_day as int, date as int),
{
    proof {
        reveal_strlit("daily");
        reveal_strlit("weekly");
        reveal_strlit("weekdays");
    }
    let ended = match &t.end_date {
        Some(e) => match parse_ymd(e.as_str()) {
            Some(ed) => date > ed,
            None => false,
        },
        None => false,
    };
    if date < start_day || ended {
        return false;
    }
    let days: i64 = date as i64 - start_day as i64;
    if str_eq(t.recurrence_type.as_str(), "daily") {
        rem_trunc(days, t.interval) == 0
    } else if str_eq(t.recurrence_type.as_str(), "weekly") {
        days % 7 == 0 && rem_trunc(days / 7, t.interval) == 0
    } else if str_eq(t.recurrence_type.as_str(), "weekdays") {
        let listed = match &t.weekdays {
            Some(w) => lists_weekday_exec(w.as_str(), weekday_from_monday(date) as i64),
            None => lists_weekday_exec("1,2,3,4,5", weekday_from_monday(date) as i64),
        };
        listed && rem_trunc(days / 7, t.interval) == 0
    } else {
        false
    }
}

fn interval_used_exec(t: &RecurringTemplate, start_day: i32, date: i32) -> (r: bool)
    ensures
        r == interval_used(*t, start_day as int, date as int),
{
    proof {
        reveal_strlit("daily");
        reveal_strlit("weekly");
        reveal_strlit("weekdays");
        assert("weekly"@.len() != "weekdays"@.len());
        assert("daily"@.len() != "weekdays"@.len());
    }
    let ended = match &t.end_date {
        Some(e) => match parse_ymd(e.as_str()) {
            Some(ed) => date > ed,
            None => false,
        },
        None => false,
    };
    if date < start_day || ended {
        return false;
    }
    let days: i64 = date as i64 - start_day as i64;
    if str_eq(t.recurrence_type.as_str(), "daily") {
        true
    } else if str_eq(t.recurrence_type.as_str(), "weekly") {
        days % 7 == 0
    } else if str_eq(t.recurrence_type.as_str(), "weekdays") {
        let wd = weekday_from_monday(date);
        let listed = match &t.weekdays {
            Some(w) => lists_weekday_exec(w.as_str(), wd as i64),
            None => lists_weekday_exec("1,2,3,4,5", wd as i64),
        };
        listed
    } else {
        false
    }
}

/// The days from `from` to `to`, inclusive, that the template starting on
/// day `start` falls on, in order.
pub open spec fn occurrence_days(t: RecurringTemplate, start: int, from: int, to: int) -> Seq<int>
    decreases to - from + 1,
{
    if from > to {
        Seq::empty()
    } else {
        let rest = occurrence_days(t, start, from + 1, to);
        if generates(t, start, from) {
            seq![from] + rest
        } else {
            rest
        }
    }
}

/// Some day from `from` to `to` needs the interval, and it is zero.
pub open spec fn divides_by_zero(t: RecurringTemplate, start: int, from: int, to: int) -> bool {
    t.interval == 0 && exists|d: int| from <= d <= to && #[trigger] interval_used(t, start, d)
}

/// The days as integers.
pub open spec fn day_ints(v: Seq<i32>) -> Seq<int> {
    v.map_values(|d: i32| d as int)
}

/// The largest amount of days a duration can hold (`TimeDelta::days`).
pub open spec fn max_duration_days() -> int {
    i64::MAX / 86400
}

/// The days on which an active template should have a task, from today (or
/// its start, if later) through `horizon_days` days ahead; today is a day
/// number. `None` where the template's start date cannot be read, where
/// the horizon (or the day after it, once a day is looked at) lies beyond
/// the dates chrono can represent, or where a zero interval would divide.
pub fn template_days(t: &RecurringTemplate, today: i32, horizon_days: i64) -> (r: Option<Vec<i32>>)
    requires
        -max_duration_days() <= horizon_days <= max_duration_days(),
    ensures
        parsed_ymd(t.start_date@) is None ==> r is None,
        parsed_ymd(t.start_date@) matches Some(s) ==> {
            let to = today + horizon_days;
            let from = if today >= s { today as int } else { s };
            &&& r is None <==> (!printable(to) || (from <= to && !printable(to + 1)) || divides_by_zero(*t, s, from, to))
            &&& r matches Some(v) ==> day_ints(v@) == occurrence_days(*t, s, from, to)
        },
{
    let start = match parse_ymd(t.start_date.as_str()) {
        Some(d) => d,
        None => {
            return None;
        },
    };
    let to: i64 = today as i64 + horizon_days;
    if print_day(to).is_none() {
        return None;
    }
    let from: i64 = if today >= start { today as i64 } else { start as i64 };
    if from <= to && print_day(to + 1).is_none() {
        return None;
    }
    let ghost whole = occurrence_days(*t, start as int, from as int, to as int);
    let mut out: Vec<i32> = Vec::new();
    let mut d: i64 = from;
    while d <= to
        invariant
            printable(to as int),
            parsed_ymd(t.start_date@) == Some(start as int),
            to == today + horizon_days,
            from == (if today >= start { today as int } else { start as int }),
            i32::MIN <= from,
            from <= d <= to + 1 || (d == from && from > to),
            whole == occurrence_days(*t, start as int, from as int, to as int),
            day_ints(out@) + occurrence_days(*t, start as int, d as int, to as int) == whole,
            forall|e: int| from <= e < d ==> !(t.interval == 0 && #[trigger] interval_used(*t, start as int, e)),
        decreases to - d + 1,
    {
        assert(i32::MIN <= d <= i32::MAX);
        let day = d as i32;
        if t.interval == 0 && interval_used_exec(t, start, day) {
            assert(interval_used(*t, start as int, d as int));
            return None;
        }
        let ghost before = out@;
        if should_generate(t, start, day) {
            out.push(day);
            assert(day_ints(out@) =~= day_ints(before).push(d as int));
            assert(day_ints(before).push(d as int) + occurrence_days(*t, start as int, d + 1, to as int)
                =~= day_ints(before) + (seq![d as int] + occurrence_days(*t, start as int, d + 1, to as int)));
        }
        d += 1;
    }
    assert(day_ints(out@) + Seq::<int>::empty() =~= day_ints(out@));
    Some(out)
}

/// Law: the days a template falls on come in strictly increasing order,
/// so no day is produced twice, and each lies in the range and satisfies
/// the rule.
pub proof fn occurrence_days_are_ordered(t: RecurringTemplate, start: int, from: int, to: int)
    ensures
        forall|i: int, j: int| 0 <= i < j < occurrence_days(t, start, from, to).len()
            ==> #[trigger] occurrence_days(t, start, from, to)[i] < #[trigger] occurrence_days(t, start, from, to)[j],
        forall|i: int| 0 <= i < occurrence_days(t, start, from, to).len() ==> {
            let d = #[trigger] occurrence_days(t, start, from, to)[i];
            from <= d <= to && generates(t, start, d)
        },
    decreases to - from + 1,
{
    if from <= to {
        occurrence_days_are_ordered(t, start, from + 1, to);
        let rest = occurrence_days(t, start, from + 1, to);
        if generates(t, start, from) {
            let all = seq![from] + rest;
            assert(occurrence_days(t, start, from, to) == all);
            assert forall|i: int| 0 <= i < all.len() implies {
                let d = #[trigger] all[i];
                from <= d <= to && generates(t, start, d)
            } by {
                if i > 0 {
                    assert(all[i] == rest[i - 1]);
                }
            }
            assert forall|i: int, j: int| 0 <= i < j < all.len() implies #[trigger] all[i] < #[trigger] all[j] by {
                if i == 0 {
                    assert(all[j] == rest[j - 1]);
                } else {
                    assert(all[i] == rest[i - 1] && all[j] == rest[j - 1]);
                }
            }
        }
    }
}

/// Law: an open-ended daily template with interval one falls on every day
/// from its start on.
pub proof fn daily_template_fills_every_day(t: RecurringTemplate, start: int, from: int, to: int)
    requires
        t.recurrence_type@ == "daily"@,
        t.interval == 1,
        t.end_date is None,
        start <= from,
    ensures
        occurrence_days(t, start, from, to) == Seq::new(if from <= to { (to - from + 1) as nat } else { 0 }, |i: int| from + i),
    decreases to - from + 1,
{
    if from <= to {
        daily_template_fills_every_day(t, start, from + 1, to);
        assert(trem(from - start, 1) == 0);
        assert(generates(t, start, from));
        assert(occurrence_days(t, start, from, to)
            =~= Seq::new((to - from + 1) as nat, |i: int| from + i));
    } else {
        assert(occurrence_days(t, start, from, to) =~= Seq::<int>::empty());
    }
}

/// One day of the month calendar: the tasks planned on it, the tasks due
/// on it, and its study blocks.
pub struct CalendarDay {
    pub date: String,
    pub planned: Vec<Task>,
    pub due: Vec<Task>,
    pub study_blocks: Vec<StudyBlock>,
}

/// The first day of the next month, as chrono's
/// `NaiveDate::checked_add_months(Months::new(1))` gives it for the first
/// day of a month (`None` beyond its dates).
pub uninterp spec fn month_after(day: int) -> Option<int>;

/// Calls `NaiveDate::checked_add_months(Months::new(1))` on a day number.
/// The result is named: it depends on `day` alone.
#[verifier::external_body]
fn add_one_month(day: i32) -> (r: Option<i32>)
    ensures
        r matches Some(n) ==> month_after(day as int) == Some(n as int),
        r is None ==> month_after(day as int) is None,
{
    chrono::NaiveDate::from_num_days_from_ce_opt(day)
        .and_then(|d| d.checked_add_months(chrono::Months::new(1)))
        .map(|d| chrono::Datelike::num_days_from_ce(&d))
}

/// The first day of `month` (`YYYY-MM`) and of the month after it.
pub fn calendar_month(month: &str) -> (r: Result<(i32, i32), String>)
    ensures
        parsed_ymd(month@ + "-01"@) is None ==> (r matches Err(m) && m@ == "Choose a valid month"@),
        parsed_ymd(month@ + "-01"@) matches Some(first) ==> match month_after(first) {
            Some(next) => r matches Ok(p) && p.0 == first && p.1 == next,
            None => r matches Err(m) && m@ == "Invalid month"@,
        },
{
    let mut text: Vec<char> = chars_of(month);
    crate::text::push_str(&mut text, "-01");
    let day_text = crate::text::string_of(text.as_slice());
    let first = match parse_ymd(day_text.as_str()) {
        Some(d) => d,
        None => {
            return Err(message("Choose a valid month"));
        },
    };
    match add_one_month(first) {
        Some(next) => Ok((first, next)),
        None => Err(message("Invalid month")),
    }
}

/// The tasks scheduled on `key`.
pub open spec fn planned_on(tasks: Seq<Task>, key: Seq<char>) -> Seq<Task>
    decreases tasks.len(),
{
    if tasks.len() == 0 {
        Seq::empty()
    } else {
        let rest = planned_on(tasks.drop_last(), key);
        if tasks.last().scheduled_date matches Some(d) && d@ == key {
            rest.push(tasks.last())
        } else {
            rest
        }
    }
}

/// `key` begins `text`.
pub open spec fn begins_with(text: Seq<char>, key: Seq<char>) -> bool {
    key.len() <= text.len() && text.subrange(0, key.len() as int) == key
}

/// The tasks whose due value begins with `key`.
pub open spec fn due_on_day(tasks: Seq<Task>, key: Seq<char>) -> Seq<Task>
    decreases tasks.len(),
{
    if tasks.len() == 0 {
        Seq::empty()
    } else {
        let rest = due_on_day(tasks.drop_last(), key);
        if tasks.last().due_at matches Some(d) && begins_with(d@, key) {
            rest.push(tasks.last())
        } else {
            rest
        }
    }
}

/// The study blocks planned on `key`.
pub open spec fn blocks_on(blocks: Seq<StudyBlock>, key: Seq<char>) -> Seq<StudyBlock>
    decreases blocks.len(),
{
    if blocks.len() == 0 {
        Seq::empty()
    } else {
        let rest = blocks_on(blocks.drop_last(), key);
        if blocks.last().planned_date@ == key {
            rest.push(blocks.last())
        } else {
            rest
        }
    }
}

/// Two task lists hold the same tasks in the same order.
pub open spec fn same_tasks(a: Seq<Task>, b: Seq<Task>) -> bool {
    a.len() == b.len() && forall|i: int| 0 <= i < a.len() ==> same_task(#[trigger] a[i], b[i])
}

/// Whether `key` begins `text` (`str::starts_with`).
pub fn begins_with_text(text: &str, key: &str) -> (r: bool)
    ensures
        r == begins_with(text@, key@),
{
    let t = chars_of(text);
    let k = chars_of(key);
    if k.len() > t.len() {
        return false;
    }
    let mut i: usize = 0;
    while i < k.len()
        invariant
            t@ == text@,
            k@ == key@,
            k.len() <= t.len(),
            i <= k.len(),
            forall|q: int| 0 <= q < i ==> t@[q] == k@[q],
        decreases k.len() - i,
    {
        if t[i] != k[i] {
            assert(t@.subrange(0, k.len() as int)[i as int] != k@[i as int]);
            return false;
        }
        i += 1;
    }
    assert(t@.subrange(0, k.len() as int) =~= k@);
    true
}

fn day_lists(tasks: &Vec<Task>, blocks: &Vec<StudyBlock>, key: &String) -> (r: (Vec<Task>, Vec<Task>, Vec<StudyBlock>))
    ensures
        same_tasks(r.0@, planned_on(tasks@, key@)),
        same_tasks(r.1@, due_on_day(tasks@, key@)),
        r.2@ == blocks_on(blocks@, key@),
{
    let mut planned: Vec<Task> = Vec::new();
    let mut due: Vec<Task> = Vec::new();
    let mut k: usize = 0;
    while k < tasks.len()
        invariant
            k <= tasks.len(),
            same_tasks(planned@, planned_on(tasks@.take(k as int), key@)),
            same_tasks(due@, due_on_day(tasks@.take(k as int), key@)),
        decreases tasks.len() - k,
    {
        assert(tasks@.take(k + 1).drop_last() =~= tasks@.take(k as int));
        assert(tasks@.take(k + 1).last() == tasks@[k as int]);
        let t = &tasks[k];
        let on = match &t.scheduled_date {
            Some(d) => str_eq(d.as_str(), key.as_str()),
            None => false,
        };
        if on {
            planned.push(copy_task(t));
        }
        let due_here = match &t.due_at {
            Some(d) => begins_with_text(d.as_str(), key.as_str()),
            None => false,
        };
        if due_here {
            due.push(copy_task(t));
        }
        k += 1;
    }
    assert(tasks@.take(tasks.len() as int) =~= tasks@);
    let mut day_blocks: Vec<StudyBlock> = Vec::new();
    let mut j: usize = 0;
    while j < blocks.len()
        invariant
            j <= blocks.len(),
            day_blocks@ == blocks_on(blocks@.take(j as int), key@),
        decreases blocks.len() - j,
    {
        assert(blocks@.take(j + 1).drop_last() =~= blocks@.take(j as int));
        assert(blocks@.take(j + 1).last() == blocks@[j as int]);
        if str_eq(blocks[j].planned_date.as_str(), key.as_str()) {
            day_blocks.push(copy_block(&blocks[j]));
        }
        j += 1;
    }
    assert(blocks@.take(blocks.len() as int) =~= blocks@);
    (planned, due, day_blocks)
}

/// The calendar days from `first` up to `next` (day numbers), each with
/// its planned tasks, due tasks and study blocks; `None` where a day lies
/// beyond the dates chrono can print.
pub fn calendar_days(tasks: &Vec<Task>, blocks: &Vec<StudyBlock>, first: i32, next: i32) -> (r: Option<Vec<CalendarDay>>)
    ensures
        r is Some <==> forall|d: int| first <= d < next ==> #[trigger] printable(d),
        r matches Some(days) ==> {
            &&& days.len() == (if first < next { next - first } else { 0 })
            &&& forall|o: int| 0 <= o < days.len() ==> {
                let day = #[trigger] days@[o];
                &&& Some(day.date@) == printed_ymd(first + o)
                &&& same_tasks(day.planned@, planned_on(tasks@, day.date@))
                &&& same_tasks(day.due@, due_on_day(tasks@, day.date@))
                &&& day.study_blocks@ == blocks_on(blocks@, day.date@)
            }
        },
{
    let mut out: Vec<CalendarDay> = Vec::new();
    let mut d: i64 = first as i64;
    while d < next as i64
        invariant
            first <= d,
            d <= next || d == first,
            out.len() == d - first,
            forall|e: int| first <= e < d ==> #[trigger] printable(e),
            forall|o: int| 0 <= o < out.len() ==> {
                let day = #[trigger] out@[o];
                &&& Some(day.date@) == printed_ymd(first + o)
                &&& same_tasks(day.planned@, planned_on(tasks@, day.date@))
                &&& same_tasks(day.due@, due_on_day(tasks@, day.date@))
                &&& day.study_blocks@ == blocks_on(blocks@, day.date@)
            },
        decreases next - d,
    {
        let key = match print_day(d) {
            Some(k) => k,
            None => {
                return None;
            },
        };
        let (planned, due, study_blocks) = day_lists(tasks, blocks, &key);
        out.push(CalendarDay { date: key, planned, due, study_blocks });
        d += 1;
    }
    Some(out)
}

/// Law: a template falls only on days from its start on, and its interval
/// counts from the start: a "daily" template every `interval` days, a
/// "weekly" one on the start's weekday every `interval` weeks, and a
/// "weekdays" one only in weeks whose number since the start,
/// `(date - start) / 7`, is a multiple of `interval`.
pub proof fn interval_counts_from_the_start(t: RecurringTemplate, start: int, date: int)
    requires
        t.interval > 0,
        generates(t, start, date),
    ensures
        date >= start,
        t.recurrence_type@ == "daily"@ ==> (date - start) % (t.interval as int) == 0,
        t.recurrence_type@ == "weekly"@ ==> (date - start) % 7 == 0 && ((date - start) / 7) % (t.interval as int) == 0,
        t.recurrence_type@ == "weekdays"@ ==> ((date - start) / 7) % (t.interval as int) == 0
            && lists_weekday(weekday_text(t), weekday_of(date)),
        !ended_by(t, date),
{
    reveal_strlit("daily");
    reveal_strlit("weekly");
    reveal_strlit("weekdays");
    assert("daily"@.len() != "weekly"@.len());
    assert("daily"@.len() != "weekdays"@.len());
    assert("weekly"@.len() != "weekdays"@.len());
    let days = date - start;
    let n = t.interval as int;
    assert(days >= 0);
    assert(days / 7 >= 0);
    assert(trem(days, n) == days % n) by {
        assert(tdiv(days, n) == days / n);
        vstd::arithmetic::div_mod::lemma_fundamental_div_mod(days, n);
    }
    assert(trem(days / 7, n) == (days / 7) % n) by {
        assert(tdiv(days / 7, n) == (days / 7) / n);
        vstd::arithmetic::div_mod::lemma_fundamental_div_mod(days / 7, n);
    }
}

/// Law: a template falls on every day its rule names: from its start,
/// before any end, every `interval` days ("daily"), every `interval`
/// weeks on the start's weekday ("weekly"), or on each listed weekday of
/// every `interval`th week ("weekdays").
pub proof fn template_falls_on_each_matching_day(t: RecurringTemplate, start: int, date: int)
    requires
        t.interval > 0,
        date >= start,
        !ended_by(t, date),
    ensures
        t.recurrence_type@ == "daily"@ && (date - start) % (t.interval as int) == 0 ==> generates(t, start, date),
        t.recurrence_type@ == "weekly"@ && (date - start) % 7 == 0 && ((date - start) / 7) % (t.interval as int) == 0
            ==> generates(t, start, date),
        t.recurrence_type@ == "weekdays"@ && ((date - start) / 7) % (t.interval as int) == 0
            && lists_weekday(weekday_text(t), weekday_of(date)) ==> generates(t, start, date),
{
    reveal_strlit("daily");
    reveal_strlit("weekly");
    reveal_strlit("weekdays");
    assert("daily"@.len() != "weekly"@.len());
    assert("daily"@.len() != "weekdays"@.len());
    assert("weekly"@.len() != "weekdays"@.len());
    let days = date - start;
    let n = t.interval as int;
    assert(trem(days, n) == days % n) by {
        assert(tdiv(days, n) == days / n);
        vstd::arithmetic::div_mod::lemma_fundamental_div_mod(days, n);
    }
    assert(trem(days / 7, n) == (days / 7) % n) by {
        assert(tdiv(days / 7, n) == (days / 7) / n);
        vstd::arithmetic::div_mod::lemma_fundamental_div_mod(days / 7, n);
    }
}

} // verus!
