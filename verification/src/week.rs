//! The Week view: scheduled work for seven days with per-day load, and the
//! unscheduled tasks due soon after.
use vstd::prelude::*;
use crate::dates::{parse_ymd, parsed_ymd, print_day, printable, printed_ymd, weekday_from_monday, weekday_of};
use crate::graph::{reach, reaches_any, Reached};
use crate::num::{div_trunc, sum_i64, sums_fit, sums_fit_exec, tdiv, total};
use crate::tasks::Task;
use crate::text::{byte_prefix, cut_ok, cut_ok_exec, first_ten_bytes, seq_lt, str_eq, str_lt};

verus! {

/// A task shown on the Week view.
pub struct WeekTask {
    pub id: i64,
    pub class_id: i64,
    pub course_code: String,
    pub title: String,
    pub status: String,
    pub due_at: Option<String>,
    pub scheduled_date: Option<String>,
    pub estimated_minutes: Option<i64>,
    pub tracked_seconds_direct: i64,
    pub tracked_seconds_total: i64,
    pub remaining_minutes: Option<i64>,
    pub overdue: bool,
    pub context_only: bool,
}

/// One day of the week with its tasks and load.
pub struct WeekDay {
    pub date: String,
    pub tasks: Vec<WeekTask>,
    pub estimated_minutes_remaining: i64,
    pub tracked_seconds: i64,
    pub capacity_minutes: Option<i64>,
    pub load_percent: Option<i64>,
}

/// The Week view.
pub struct WeekSummary {
    pub start_date: String,
    pub end_date: String,
    pub days: Vec<WeekDay>,
    pub unscheduled: Vec<WeekTask>,
    pub estimated_minutes_remaining: i64,
    pub tracked_seconds: i64,
}

/// The study capacity set for each weekday, Monday first.
pub struct CapacitySettings {
    pub weekday_minutes: [Option<i64>; 7],
}

/// The dates a week is laid out on: its seven days (with their ISO
/// weekdays), its last day, the end of the due-date lookahead one week
/// later, and today.
pub struct WeekDates {
    pub start: String,
    pub end: String,
    pub lookahead: String,
    pub today: String,
    pub days: Vec<String>,
    pub weekdays: Vec<u32>,
}

/// The first day of the week: the given start date, or today when it
/// cannot be read.
pub open spec fn week_start(start_date: Seq<char>, today_day: int) -> int {
    match parsed_ymd(start_date) {
        Some(d) => d,
        None => today_day,
    }
}

/// Every date the week needs can be printed.
pub open spec fn week_printable(s: int, today_day: int) -> bool {
    &&& forall|o: int| 0 <= o < 7 ==> #[trigger] printable(s + o)
    &&& printable(s + 13)
    &&& printable(today_day)
}

/// Lays out the week that starts at `start_date` (today, given as a day
/// number, when `start_date` is no valid date). `None` where a date of the
/// week lies beyond what chrono can represent, where date arithmetic would
/// overflow.
pub fn week_dates(start_date: &str, today_day: i32) -> (r: Option<WeekDates>)
    ensures
        r is Some <==> week_printable(week_start(start_date@, today_day as int), today_day as int),
        r matches Some(w) ==> {
            let s = week_start(start_date@, today_day as int);
            &&& w.days.len() == 7
            &&& w.weekdays.len() == 7
            &&& forall|o: int| 0 <= o < 7 ==> Some((#[trigger] w.days@[o])@) == printed_ymd(s + o)
                && w.weekdays@[o] as int == weekday_of(s + o)
            &&& Some(w.start@) == printed_ymd(s)
            &&& Some(w.end@) == printed_ymd(s + 6)
            &&& Some(w.lookahead@) == printed_ymd(s + 13)
            &&& Some(w.today@) == printed_ymd(today_day as int)
        },
{
    let s: i64 = match parse_ymd(start_date) {
        Some(d) => d as i64,
        None => today_day as i64,
    };
    let mut days: Vec<String> = Vec::new();
    let mut weekdays: Vec<u32> = Vec::new();
    let mut o: i64 = 0;
    while o < 7
        invariant
            0 <= o <= 7,
            s == week_start(start_date@, today_day as int),
            i32::MIN <= s <= i32::MAX,
            days.len() == o,
            weekdays.len() == o,
            forall|q: int| 0 <= q < o ==> #[trigger] printable(s + q),
            forall|q: int| 0 <= q < o ==> Some((#[trigger] days@[q])@) == printed_ymd(s + q)
                && weekdays@[q] as int == weekday_of(s + q),
        decreases 7 - o,
    {
        match print_day(s + o) {
            Some(t) => {
                days.push(t);
                weekdays.push(weekday_from_monday((s + o) as i32));
            },
            None => {
                return None;
            },
        }
        o += 1;
    }
    let lookahead = match print_day(s + 13) {
        Some(t) => t,
        None => {
            return None;
        },
    };
    let today = match print_day(today_day as i64) {
        Some(t) => t,
        None => {
            return None;
        },
    };
    assert(printable(s + 0) && printable(s + 6));
    let start = days[0].clone();
    let end = days[6].clone();
    Some(WeekDates { start, end, lookahead, today, days, weekdays })
}

/// An eligible task with its class's course code and the local calendar
/// date of its due value (`None` where it has none, or where that value is
/// no readable date).
pub struct WeekRow {
    pub task: Task,
    pub course_code: String,
    pub due_local: Option<String>,
}

/// The rows of tasks not completed, in order: the Week view shows open work only.
pub open spec fn open_rows(rows: Seq<WeekRow>) -> Seq<WeekRow>
    decreases rows.len(),
{
    if rows.len() == 0 {
        Seq::empty()
    } else {
        let rest = open_rows(rows.drop_last());
        if rows.last().task.status@ != "completed"@ {
            rest.push(rows.last())
        } else {
            rest
        }
    }
}

/// Scheduled within the week (dates compared as text).
pub open spec fn in_week(r: WeekRow, d: WeekDates) -> bool {
    r.task.scheduled_date matches Some(s) && !seq_lt(s@, d.start@) && !seq_lt(d.end@, s@)
}

/// Scheduled on day `o` of the week.
pub open spec fn on_day(r: WeekRow, d: WeekDates, o: int) -> bool {
    in_week(r, d) && (r.task.scheduled_date matches Some(s) && s@ == d.days@[o]@)
}

/// Links from each task to its parent.
pub open spec fn up_links(rs: Seq<WeekRow>) -> Seq<(i64, i64)>
    decreases rs.len(),
{
    if rs.len() == 0 {
        Seq::empty()
    } else {
        let rest = up_links(rs.drop_last());
        let t = rs.last().task;
        if t.parent_task_id is Some {
            rest.push((t.id, t.parent_task_id->0))
        } else {
            rest
        }
    }
}

/// The ids of the tasks scheduled within the week.
pub open spec fn week_ids(rs: Seq<WeekRow>, d: WeekDates) -> Seq<i64>
    decreases rs.len(),
{
    if rs.len() == 0 {
        Seq::empty()
    } else {
        let rest = week_ids(rs.drop_last(), d);
        if in_week(rs.last(), d) {
            rest.push(rs.last().task.id)
        } else {
            rest
        }
    }
}

/// Scheduled within the week, or an ancestor of such a task.
pub open spec fn is_selected(rs: Seq<WeekRow>, d: WeekDates, id: i64) -> bool {
    reaches_any(up_links(rs), week_ids(rs, d), id)
}

/// A row the view looks at: unscheduled, or selected.
pub open spec fn considered(rs: Seq<WeekRow>, d: WeekDates, r: WeekRow) -> bool {
    r.task.scheduled_date is None || is_selected(rs, d, r.task.id)
}

/// A due value whose local date could not be read.
pub open spec fn unreadable_due(r: WeekRow) -> bool {
    r.task.due_at is Some && r.due_local is None
}

/// How a row appears on the Week view.
pub open spec fn week_task_of(r: WeekRow, today: Seq<char>) -> WeekTask {
    WeekTask {
        id: r.task.id,
        class_id: r.task.class_id,
        course_code: r.course_code,
        title: r.task.title,
        status: r.task.status,
        due_at: r.task.due_at,
        scheduled_date: r.task.scheduled_date,
        estimated_minutes: r.task.estimated_minutes,
        tracked_seconds_direct: r.task.tracked_seconds_direct,
        tracked_seconds_total: r.task.tracked_seconds,
        remaining_minutes: r.task.remaining_minutes,
        overdue: (r.due_local matches Some(l) && seq_lt(l@, today)) && r.task.status@ != "completed"@,
        context_only: false,
    }
}

/// The tasks of day `o`, in row order.
pub open spec fn day_tasks(rs: Seq<WeekRow>, d: WeekDates, o: int) -> Seq<WeekTask>
    decreases rs.len(),
{
    if rs.len() == 0 {
        Seq::empty()
    } else {
        let rest = day_tasks(rs.drop_last(), d, o);
        if on_day(rs.last(), d, o) {
            rest.push(week_task_of(rs.last(), d.today@))
        } else {
            rest
        }
    }
}

/// The remaining minutes (where known) of the rows that pass `keep`.
pub open spec fn remaining_where(rs: Seq<WeekRow>, keep: spec_fn(WeekRow) -> bool) -> Seq<int>
    decreases rs.len(),
{
    if rs.len() == 0 {
        Seq::empty()
    } else {
        let rest = remaining_where(rs.drop_last(), keep);
        if keep(rs.last()) && rs.last().task.remaining_minutes is Some {
            rest.push(rs.last().task.remaining_minutes->0 as int)
        } else {
            rest
        }
    }
}

/// The seconds tracked directly on the rows that pass `keep`.
pub open spec fn direct_where(rs: Seq<WeekRow>, keep: spec_fn(WeekRow) -> bool) -> Seq<int>
    decreases rs.len(),
{
    if rs.len() == 0 {
        Seq::empty()
    } else {
        let rest = direct_where(rs.drop_last(), keep);
        if keep(rs.last()) {
            rest.push(rs.last().task.tracked_seconds_direct as int)
        } else {
            rest
        }
    }
}

/// Scheduled on day `o`.
pub open spec fn on_day_of(d: WeekDates, o: int) -> spec_fn(WeekRow) -> bool {
    |r: WeekRow| on_day(r, d, o)
}

/// Scheduled within the week.
pub open spec fn in_week_of(d: WeekDates) -> spec_fn(WeekRow) -> bool {
    |r: WeekRow| in_week(r, d)
}

/// Due, by the date part of its due value, no later than `lookahead`.
pub open spec fn due_within(r: WeekRow, lookahead: Seq<char>) -> bool {
    r.task.due_at matches Some(due) && !seq_lt(lookahead, byte_prefix(due@, 10))
}

/// An unscheduled task outside every selected tree.
pub open spec fn loose(rs: Seq<WeekRow>, d: WeekDates, r: WeekRow) -> bool {
    r.task.scheduled_date is None && !is_selected(rs, d, r.task.id)
}

/// The unscheduled tasks due within the lookahead, among the first `n` rows.
pub open spec fn unscheduled_tasks(rs: Seq<WeekRow>, d: WeekDates, n: int) -> Seq<WeekTask>
    decreases n,
{
    if n <= 0 {
        Seq::empty()
    } else {
        let rest = unscheduled_tasks(rs, d, n - 1);
        let r = rs[n - 1];
        if loose(rs, d, r) && due_within(r, d.lookahead@) {
            rest.push(week_task_of(r, d.today@))
        } else {
            rest
        }
    }
}

/// The capacity override of a date: the first one recorded for it.
pub open spec fn override_for(overrides: Seq<(String, i64)>, date: Seq<char>) -> Option<i64>
    decreases overrides.len(),
{
    if overrides.len() == 0 {
        None
    } else if overrides[0].0@ == date {
        Some(overrides[0].1)
    } else {
        override_for(overrides.drop_first(), date)
    }
}

/// The capacity of day `o`: its override, else its weekday's setting.
pub open spec fn capacity_of(d: WeekDates, o: int, overrides: Seq<(String, i64)>, weekday_minutes: Seq<Option<i64>>) -> Option<i64> {
    match override_for(overrides, d.days@[o]@) {
        Some(m) => Some(m),
        None => weekday_minutes[d.weekdays@[o] - 1],
    }
}

/// Percent of a positive capacity that the remaining estimate fills.
pub open spec fn load_of(remaining: int, capacity: Option<i64>) -> Option<int> {
    match capacity {
        Some(c) => if c > 0 { Some(tdiv(remaining * 100, c as int)) } else { None },
        None => None,
    }
}

/// The rows of tasks not completed, in order.
pub fn keep_open(rows: Vec<WeekRow>) -> (r: Vec<WeekRow>)
    ensures
        r@ == open_rows(rows@),
{
    proof {
        reveal_strlit("completed");
    }
    let ghost all = rows@;
    let n = rows.len();
    let mut rows = rows;
    let mut out: Vec<WeekRow> = Vec::new();
    let mut k: usize = 0;
    while k < n
        invariant
            n == all.len(),
            k <= n,
            rows@ == all.subrange(k as int, n as int),
            out@ == open_rows(all.take(k as int)),
        decreases n - k,
    {
        assert(rows@[0] == all[k as int]);
        assert(all.take(k + 1).drop_last() =~= all.take(k as int));
        assert(all.take(k + 1).last() == all[k as int]);
        let r = rows.remove(0);
        assert(rows@ =~= all.subrange(k + 1, n as int));
        if !str_eq(r.task.status.as_str(), "completed") {
            out.push(r);
        }
        k += 1;
    }
    assert(all.take(n as int) =~= all);
    out
}

fn is_in_week(r: &WeekRow, d: &WeekDates) -> (b: bool)
    ensures
        b == in_week(*r, *d),
{
    match &r.task.scheduled_date {
        Some(s) => !str_lt(s.as_str(), d.start.as_str()) && !str_lt(d.end.as_str(), s.as_str()),
        None => false,
    }
}

fn is_on_day(r: &WeekRow, d: &WeekDates, o: usize) -> (b: bool)
    requires
        o < d.days.len(),
    ensures
        b == on_day(*r, *d, o as int),
{
    if !is_in_week(r, d) {
        return false;
    }
    match &r.task.scheduled_date {
        Some(s) => str_eq(s.as_str(), d.days[o].as_str()),
        None => false,
    }
}

fn copy_text(s: &Option<String>) -> (r: Option<String>)
    ensures
        r == *s,
{
    match s {
        Some(t) => Some(t.clone()),
        None => None,
    }
}

fn week_task(r: &WeekRow, today: &String) -> (t: WeekTask)
    ensures
        t == week_task_of(*r, today@),
{
    proof {
        reveal_strlit("completed");
    }
    let late = match &r.due_local {
        Some(l) => str_lt(l.as_str(), today.as_str()),
        None => false,
    };
    let open = !str_eq(r.task.status.as_str(), "completed");
    WeekTask {
        id: r.task.id,
        class_id: r.task.class_id,
        course_code: r.course_code.clone(),
        title: r.task.title.clone(),
        status: r.task.status.clone(),
        due_at: copy_text(&r.task.due_at),
        scheduled_date: copy_text(&r.task.scheduled_date),
        estimated_minutes: r.task.estimated_minutes,
        tracked_seconds_direct: r.task.tracked_seconds_direct,
        tracked_seconds_total: r.task.tracked_seconds,
        remaining_minutes: r.task.remaining_minutes,
        overdue: late && open,
        context_only: false,
    }
}

/// The ids scheduled within the week and the links to parents.
fn week_links(rs: &Vec<WeekRow>, d: &WeekDates) -> (res: (Vec<i64>, Vec<(i64, i64)>))
    ensures
        res.0@ == week_ids(rs@, *d),
        res.1@ == up_links(rs@),
{
    let mut ids: Vec<i64> = Vec::new();
    let mut up: Vec<(i64, i64)> = Vec::new();
    let mut k: usize = 0;
    while k < rs.len()
        invariant
            k <= rs.len(),
            ids@ == week_ids(rs@.take(k as int), *d),
            up@ == up_links(rs@.take(k as int)),
        decreases rs.len() - k,
    {
        assert(rs@.take(k + 1).drop_last() =~= rs@.take(k as int));
        assert(rs@.take(k + 1).last() == rs@[k as int]);
        let r = &rs[k];
        if is_in_week(r, d) {
            ids.push(r.task.id);
        }
        if let Some(p) = r.task.parent_task_id {
            up.push((r.task.id, p));
        }
        k += 1;
    }
    assert(rs@.take(rs.len() as int) =~= rs@);
    (ids, up)
}

/// The first row the view looks at whose due date cannot be read.
fn first_unreadable(rs: &Vec<WeekRow>, d: &WeekDates, selected: &Reached) -> (r: Option<usize>)
    requires
        selected.wf(),
        forall|x: i64| #[trigger] selected.holds(x) <==> is_selected(rs@, *d, x),
    ensures
        r is None <==> forall|i: int| 0 <= i < rs.len() ==> !(considered(rs@, *d, #[trigger] rs@[i]) && unreadable_due(rs@[i])),
        r matches Some(k) ==> k < rs.len() && considered(rs@, *d, rs@[k as int]) && unreadable_due(rs@[k as int])
            && forall|i: int| 0 <= i < k ==> !(considered(rs@, *d, #[trigger] rs@[i]) && unreadable_due(rs@[i])),
{
    let mut k: usize = 0;
    while k < rs.len()
        invariant
            k <= rs.len(),
            selected.wf(),
            forall|x: i64| #[trigger] selected.holds(x) <==> is_selected(rs@, *d, x),
            forall|i: int| 0 <= i < k ==> !(considered(rs@, *d, #[trigger] rs@[i]) && unreadable_due(rs@[i])),
        decreases rs.len() - k,
    {
        let r = &rs[k];
        let looked_at = r.task.scheduled_date.is_none() || selected.contains(r.task.id);
        if looked_at && r.task.due_at.is_some() && r.due_local.is_none() {
            return Some(k);
        }
        k += 1;
    }
    None
}

/// An optional machine integer as an optional integer.
pub open spec fn opt_int(v: Option<i64>) -> Option<int> {
    match v {
        Some(x) => Some(x as int),
        None => None,
    }
}

/// The tasks of day `o` with the sums of their remaining estimates and of
/// their directly tracked seconds.
fn day_parts(rs: &Vec<WeekRow>, d: &WeekDates, o: usize) -> (res: (Vec<WeekTask>, Vec<i64>, Vec<i64>))
    requires
        o < d.days.len(),
    ensures
        res.0@ == day_tasks(rs@, *d, o as int),
        crate::num::as_ints(res.1@) == remaining_where(rs@, on_day_of(*d, o as int)),
        crate::num::as_ints(res.2@) == direct_where(rs@, on_day_of(*d, o as int)),
{
    let mut tasks: Vec<WeekTask> = Vec::new();
    let mut rem: Vec<i64> = Vec::new();
    let mut direct: Vec<i64> = Vec::new();
    let mut k: usize = 0;
    while k < rs.len()
        invariant
            o < d.days.len(),
            k <= rs.len(),
            tasks@ == day_tasks(rs@.take(k as int), *d, o as int),
            crate::num::as_ints(rem@) == remaining_where(rs@.take(k as int), on_day_of(*d, o as int)),
            crate::num::as_ints(direct@) == direct_where(rs@.take(k as int), on_day_of(*d, o as int)),
        decreases rs.len() - k,
    {
        assert(rs@.take(k + 1).drop_last() =~= rs@.take(k as int));
        assert(rs@.take(k + 1).last() == rs@[k as int]);
        let r = &rs[k];
        if is_on_day(r, d, o) {
            tasks.push(week_task(r, &d.today));
            let ghost before = direct@;
            direct.push(r.task.tracked_seconds_direct);
            assert(crate::num::as_ints(direct@) =~= crate::num::as_ints(before).push(r.task.tracked_seconds_direct as int));
            if let Some(m) = r.task.remaining_minutes {
                let ghost before_rem = rem@;
                rem.push(m);
                assert(crate::num::as_ints(rem@) =~= crate::num::as_ints(before_rem).push(m as int));
            }
        }
        k += 1;
    }
    assert(rs@.take(rs.len() as int) =~= rs@);
    (tasks, rem, direct)
}

/// The capacity override recorded for a date, if any.
fn find_override(overrides: &Vec<(String, i64)>, date: &String) -> (r: Option<i64>)
    ensures
        r == override_for(overrides@, date@),
{
    let mut k: usize = 0;
    assert(overrides@.subrange(0, overrides.len() as int) =~= overrides@);
    while k < overrides.len()
        invariant
            k <= overrides.len(),
            override_for(overrides@, date@) == override_for(overrides@.subrange(k as int, overrides.len() as int), date@),
        decreases overrides.len() - k,
    {
        let ghost rest = overrides@.subrange(k as int, overrides.len() as int);
        assert(rest[0] == overrides@[k as int]);
        assert(rest.drop_first() =~= overrides@.subrange(k + 1, overrides.len() as int));
        if str_eq(overrides[k].0.as_str(), date.as_str()) {
            return Some(overrides[k].1);
        }
        k += 1;
    }
    None
}

/// The remaining estimates and directly tracked seconds of the tasks
/// scheduled within the week.
fn week_parts(rs: &Vec<WeekRow>, d: &WeekDates) -> (res: (Vec<i64>, Vec<i64>))
    ensures
        crate::num::as_ints(res.0@) == remaining_where(rs@, in_week_of(*d)),
        crate::num::as_ints(res.1@) == direct_where(rs@, in_week_of(*d)),
{
    let mut rem: Vec<i64> = Vec::new();
    let mut direct: Vec<i64> = Vec::new();
    let mut k: usize = 0;
    while k < rs.len()
        invariant
            k <= rs.len(),
            crate::num::as_ints(rem@) == remaining_where(rs@.take(k as int), in_week_of(*d)),
            crate::num::as_ints(direct@) == direct_where(rs@.take(k as int), in_week_of(*d)),
        decreases rs.len() - k,
    {
        assert(rs@.take(k + 1).drop_last() =~= rs@.take(k as int));
        assert(rs@.take(k + 1).last() == rs@[k as int]);
        let r = &rs[k];
        if is_in_week(r, d) {
            let ghost before = direct@;
            direct.push(r.task.tracked_seconds_direct);
            assert(crate::num::as_ints(direct@) =~= crate::num::as_ints(before).push(r.task.tracked_seconds_direct as int));
            if let Some(m) = r.task.remaining_minutes {
                let ghost before_rem = rem@;
                rem.push(m);
                assert(crate::num::as_ints(rem@) =~= crate::num::as_ints(before_rem).push(m as int));
            }
        }
        k += 1;
    }
    assert(rs@.take(rs.len() as int) =~= rs@);
    (rem, direct)
}

/// The unscheduled tasks, outside every selected tree, due within the
/// lookahead.
fn unscheduled_of(rs: &Vec<WeekRow>, d: &WeekDates, selected: &Reached) -> (r: Vec<WeekTask>)
    requires
        selected.wf(),
        forall|x: i64| #[trigger] selected.holds(x) <==> is_selected(rs@, *d, x),
    ensures
        r@ == unscheduled_tasks(rs@, *d, rs.len() as int),
{
    let horizon = crate::text::chars_of(d.lookahead.as_str());
    let mut out: Vec<WeekTask> = Vec::new();
    let mut k: usize = 0;
    while k < rs.len()
        invariant
            k <= rs.len(),
            horizon@ == d.lookahead@,
            selected.wf(),
            forall|x: i64| #[trigger] selected.holds(x) <==> is_selected(rs@, *d, x),
            out@ == unscheduled_tasks(rs@, *d, k as int),
        decreases rs.len() - k,
    {
        let r = &rs[k];
        if r.task.scheduled_date.is_none() && !selected.contains(r.task.id) {
            if let Some(due) = &r.task.due_at {
                let head = first_ten_bytes(due.as_str());
                if !crate::text::chars_lt(horizon.as_slice(), head.as_slice()) {
                    out.push(week_task(r, &d.today));
                }
            }
        }
        k += 1;
    }
    out
}

/// Why a week could not be laid out.
pub enum WeekError {
    /// The task with the given id has a due value with no readable local date.
    UnreadableDue(i64),
}

/// Every sum the view adds up fits in an `i64`, and so does each day's
/// load before its division.
pub open spec fn week_fits(rs: Seq<WeekRow>, d: WeekDates, overrides: Seq<(String, i64)>, weekday_minutes: Seq<Option<i64>>) -> bool {
    &&& sums_fit(remaining_where(rs, in_week_of(d)))
    &&& sums_fit(direct_where(rs, in_week_of(d)))
    &&& forall|o: int| 0 <= o < 7 ==> {
        &&& sums_fit(#[trigger] remaining_where(rs, on_day_of(d, o)))
        &&& sums_fit(direct_where(rs, on_day_of(d, o)))
        &&& (capacity_of(d, o, overrides, weekday_minutes) matches Some(c) && c > 0
            ==> i64::MIN <= total(remaining_where(rs, on_day_of(d, o))) * 100 <= i64::MAX)
    }
}

/// Where a due value is cut to its date part, the cut falls on a
/// character boundary.
pub open spec fn due_cuts_ok(rs: Seq<WeekRow>, d: WeekDates) -> bool {
    forall|i: int| 0 <= i < rs.len() && loose(rs, d, #[trigger] rs[i]) && rs[i].task.due_at is Some
        ==> cut_ok(rs[i].task.due_at->0@, 10)
}

/// A laid-out day.
fn make_day(rs: &Vec<WeekRow>, d: &WeekDates, o: usize, capacity: Option<i64>) -> (day: WeekDay)
    requires
        o < d.days.len(),
        sums_fit(remaining_where(rs@, on_day_of(*d, o as int))),
        sums_fit(direct_where(rs@, on_day_of(*d, o as int))),
        capacity matches Some(c) && c > 0 ==> i64::MIN <= total(remaining_where(rs@, on_day_of(*d, o as int))) * 100 <= i64::MAX,
    ensures
        day.date@ == d.days@[o as int]@,
        day.tasks@ == day_tasks(rs@, *d, o as int),
        day.estimated_minutes_remaining as int == total(remaining_where(rs@, on_day_of(*d, o as int))),
        day.tracked_seconds as int == total(direct_where(rs@, on_day_of(*d, o as int))),
        day.capacity_minutes == capacity,
        opt_int(day.load_percent) == load_of(day.estimated_minutes_remaining as int, capacity),
{
    let (tasks, rem, direct) = day_parts(rs, d, o);
    let estimated_minutes_remaining = crate::num::sum_i64(&rem);
    let tracked_seconds = crate::num::sum_i64(&direct);
    let load_percent = match capacity {
        Some(c) => if c > 0 { Some(div_trunc(estimated_minutes_remaining * 100, c)) } else { None },
        None => None,
    };
    WeekDay {
        date: d.days[o].clone(),
        tasks,
        estimated_minutes_remaining,
        tracked_seconds,
        capacity_minutes: capacity,
        load_percent,
    }
}

/// The Week view over the eligible tasks (in id order) for the laid-out
/// `dates`. Only open tasks count. Each day lists the tasks scheduled on
/// it, with the sums of their remaining estimates and directly tracked
/// time, its capacity (the date's override, else the weekday's setting)
/// and the load that the estimate puts on a positive capacity. Unscheduled
/// tasks outside every tree that has work in the week are listed when due,
/// by the date part of the due value, no later than the lookahead. The view
/// fails on the first task it looks at whose due value has no readable
/// local date.
pub fn week_for(
    rows: Vec<WeekRow>,
    dates: &WeekDates,
    overrides: &Vec<(String, i64)>,
    weekday_minutes: &Vec<Option<i64>>,
) -> (r: Result<WeekSummary, WeekError>)
    requires
        dates.days.len() == 7,
        dates.weekdays.len() == 7,
        forall|o: int| 0 <= o < 7 ==> 1 <= #[trigger] dates.weekdays@[o] <= 7,
        weekday_minutes.len() == 7,
        week_fits(open_rows(rows@), *dates, overrides@, weekday_minutes@),
        due_cuts_ok(open_rows(rows@), *dates),
    ensures
        r is Err <==> exists|i: int| 0 <= i < open_rows(rows@).len()
            && considered(open_rows(rows@), *dates, #[trigger] open_rows(rows@)[i]) && unreadable_due(open_rows(rows@)[i]),
        r matches Err(WeekError::UnreadableDue(id)) ==> exists|i: int| 0 <= i < open_rows(rows@).len()
            && open_rows(rows@)[i].task.id == id
            && considered(open_rows(rows@), *dates, open_rows(rows@)[i]) && unreadable_due(open_rows(rows@)[i])
            && forall|j: int| 0 <= j < i ==> !(considered(open_rows(rows@), *dates, #[trigger] open_rows(rows@)[j])
                && unreadable_due(open_rows(rows@)[j])),
        r matches Ok(w) ==> {
            let rs = open_rows(rows@);
            &&& w.start_date@ == dates.start@
            &&& w.end_date@ == dates.end@
            &&& w.days.len() == 7
            &&& forall|o: int| 0 <= o < 7 ==> {
                let day = #[trigger] w.days@[o];
                &&& day.date@ == dates.days@[o]@
                &&& day.tasks@ == day_tasks(rs, *dates, o)
                &&& day.estimated_minutes_remaining as int == total(remaining_where(rs, on_day_of(*dates, o)))
                &&& day.tracked_seconds as int == total(direct_where(rs, on_day_of(*dates, o)))
                &&& day.capacity_minutes == capacity_of(*dates, o, overrides@, weekday_minutes@)
                &&& opt_int(day.load_percent) == load_of(day.estimated_minutes_remaining as int, day.capacity_minutes)
            }
            &&& w.unscheduled@ == unscheduled_tasks(rs, *dates, rs.len() as int)
            &&& w.estimated_minutes_remaining as int == total(remaining_where(rs, in_week_of(*dates)))
            &&& w.tracked_seconds as int == total(direct_where(rs, in_week_of(*dates)))
        },
{
    let rs = keep_open(rows);
    let (ids, up) = week_links(&rs, dates);
    let selected = reach(up, ids);
    if let Some(k) = first_unreadable(&rs, dates, &selected) {
        return Err(WeekError::UnreadableDue(rs[k].task.id));
    }
    let mut days: Vec<WeekDay> = Vec::new();
    let mut o: usize = 0;
    while o < 7
        invariant
            o <= 7,
            dates.days.len() == 7,
            dates.weekdays.len() == 7,
            forall|q: int| 0 <= q < 7 ==> 1 <= #[trigger] dates.weekdays@[q] <= 7,
            weekday_minutes.len() == 7,
            week_fits(rs@, *dates, overrides@, weekday_minutes@),
            days.len() == o,
            forall|q: int| 0 <= q < o ==> {
                let day = #[trigger] days@[q];
                &&& day.date@ == dates.days@[q]@
                &&& day.tasks@ == day_tasks(rs@, *dates, q)
                &&& day.estimated_minutes_remaining as int == total(remaining_where(rs@, on_day_of(*dates, q)))
                &&& day.tracked_seconds as int == total(direct_where(rs@, on_day_of(*dates, q)))
                &&& day.capacity_minutes == capacity_of(*dates, q, overrides@, weekday_minutes@)
                &&& opt_int(day.load_percent) == load_of(day.estimated_minutes_remaining as int, day.capacity_minutes)
            },
        decreases 7 - o,
    {
        let capacity = match find_override(overrides, &dates.days[o]) {
            Some(m) => Some(m),
            None => weekday_minutes[(dates.weekdays[o] - 1) as usize],
        };
        assert(sums_fit(remaining_where(rs@, on_day_of(*dates, o as int))));
        let day = make_day(&rs, dates, o, capacity);
        days.push(day);
        o += 1;
    }
    let unscheduled = unscheduled_of(&rs, dates, &selected);
    let (rem, direct) = week_parts(&rs, dates);
    let estimated_minutes_remaining = crate::num::sum_i64(&rem);
    let tracked_seconds = crate::num::sum_i64(&direct);
    Ok(WeekSummary {
        start_date: dates.start.clone(),
        end_date: dates.end.clone(),
        days,
        unscheduled,
        estimated_minutes_remaining,
        tracked_seconds,
    })
}

/// Whether `week_for` can lay out the open rows `rs` (as `keep_open` gives
/// them): every running sum of remaining minutes and tracked seconds, over
/// the week and over each day, fits an `i64`, as does a day's remaining
/// total times 100 where the day has a positive capacity; and the due
/// values of loose rows can be cut to their first ten bytes.
pub fn week_fits_check(
    rs: &Vec<WeekRow>,
    dates: &WeekDates,
    overrides: &Vec<(String, i64)>,
    weekday_minutes: &Vec<Option<i64>>,
) -> (r: bool)
    requires
        dates.days.len() == 7,
        dates.weekdays.len() == 7,
        forall|o: int| 0 <= o < 7 ==> 1 <= #[trigger] dates.weekdays@[o] <= 7,
        weekday_minutes.len() == 7,
    ensures
        r == (week_fits(rs@, *dates, overrides@, weekday_minutes@) && due_cuts_ok(rs@, *dates)),
{
    let (rem, direct) = week_parts(rs, dates);
    if !sums_fit_exec(&rem) || !sums_fit_exec(&direct) {
        return false;
    }
    let mut o: usize = 0;
    while o < 7
        invariant
            o <= 7,
            dates.days.len() == 7,
            dates.weekdays.len() == 7,
            forall|q: int| 0 <= q < 7 ==> 1 <= #[trigger] dates.weekdays@[q] <= 7,
            weekday_minutes.len() == 7,
            sums_fit(remaining_where(rs@, in_week_of(*dates))),
            sums_fit(direct_where(rs@, in_week_of(*dates))),
            forall|q: int| 0 <= q < o ==> {
                &&& sums_fit(#[trigger] remaining_where(rs@, on_day_of(*dates, q)))
                &&& sums_fit(direct_where(rs@, on_day_of(*dates, q)))
                &&& (capacity_of(*dates, q, overrides@, weekday_minutes@) matches Some(c) && c > 0
                    ==> i64::MIN <= total(remaining_where(rs@, on_day_of(*dates, q))) * 100 <= i64::MAX)
            },
        decreases 7 - o,
    {
        let (_tasks, day_rem, day_direct) = day_parts(rs, dates, o);
        if !sums_fit_exec(&day_rem) || !sums_fit_exec(&day_direct) {
            assert(!(sums_fit(remaining_where(rs@, on_day_of(*dates, o as int)))
                && sums_fit(direct_where(rs@, on_day_of(*dates, o as int)))));
            return false;
        }
        let capacity = match find_override(overrides, &dates.days[o]) {
            Some(m) => Some(m),
            None => weekday_minutes[(dates.weekdays[o] - 1) as usize],
        };
        if let Some(c) = capacity {
            if c > 0 {
                let t = sum_i64(&day_rem);
                if t.checked_mul(100).is_none() {
                    assert(sums_fit(remaining_where(rs@, on_day_of(*dates, o as int))));
                    return false;
                }
            }
        }
        o += 1;
    }
    let (ids, up) = week_links(rs, dates);
    let selected = reach(up, ids);
    let mut k: usize = 0;
    while k < rs.len()
        invariant
            k <= rs.len(),
            selected.wf(),
            forall|x: i64| #[trigger] selected.holds(x) <==> is_selected(rs@, *dates, x),
            forall|i: int| 0 <= i < k && loose(rs@, *dates, #[trigger] rs@[i]) && rs@[i].task.due_at is Some
                ==> cut_ok(rs@[i].task.due_at->0@, 10),
        decreases rs.len() - k,
    {
        let r = &rs[k];
        if r.task.scheduled_date.is_none() && !selected.contains(r.task.id) {
            if let Some(d) = &r.task.due_at {
                if !cut_ok_exec(d.as_str(), 10) {
                    assert(loose(rs@, *dates, rs@[k as int]));
                    return false;
                }
            }
        }
        k += 1;
    }
    true
}

/// No two rows share a task id.
pub open spec fn ids_distinct(rs: Seq<WeekRow>) -> bool {
    forall|a: int, b: int| 0 <= a < b < rs.len() ==> #[trigger] rs[a].task.id != #[trigger] rs[b].task.id
}

proof fn lemma_unscheduled_origin(rs: Seq<WeekRow>, d: WeekDates, n: int, k: int)
    requires
        0 <= n <= rs.len(),
        0 <= k < unscheduled_tasks(rs, d, n).len(),
    ensures
        exists|j: int| 0 <= j < n && loose(rs, d, rs[j]) && due_within(rs[j], d.lookahead@)
            && unscheduled_tasks(rs, d, n)[k] == week_task_of(#[trigger] rs[j], d.today@),
    decreases n,
{
    if n > 0 {
        let rest = unscheduled_tasks(rs, d, n - 1);
        if k < rest.len() {
            lemma_unscheduled_origin(rs, d, n - 1, k);
            let j = choose|j: int| 0 <= j < n - 1 && loose(rs, d, rs[j]) && due_within(rs[j], d.lookahead@)
                && rest[k] == week_task_of(#[trigger] rs[j], d.today@);
            assert(unscheduled_tasks(rs, d, n)[k] == rest[k]);
        } else {
            assert(unscheduled_tasks(rs, d, n)[k] == week_task_of(rs[n - 1], d.today@));
        }
    }
}

proof fn lemma_unscheduled_has(rs: Seq<WeekRow>, d: WeekDates, n: int, j: int)
    requires
        0 <= j < n <= rs.len(),
        loose(rs, d, rs[j]),
        due_within(rs[j], d.lookahead@),
    ensures
        exists|k: int| 0 <= k < unscheduled_tasks(rs, d, n).len()
            && #[trigger] unscheduled_tasks(rs, d, n)[k] == week_task_of(rs[j], d.today@),
    decreases n,
{
    let u = unscheduled_tasks(rs, d, n);
    if j == n - 1 {
        assert(u[u.len() - 1] == week_task_of(rs[j], d.today@));
    } else {
        lemma_unscheduled_has(rs, d, n - 1, j);
        let rest = unscheduled_tasks(rs, d, n - 1);
        let k = choose|k: int| 0 <= k < rest.len() && #[trigger] rest[k] == week_task_of(rs[j], d.today@);
        assert(u[k] == rest[k]);
    }
}

proof fn lemma_day_task_origin(rs: Seq<WeekRow>, d: WeekDates, o: int, k: int)
    requires
        0 <= k < day_tasks(rs, d, o).len(),
    ensures
        exists|j: int| 0 <= j < rs.len() && on_day(rs[j], d, o)
            && day_tasks(rs, d, o)[k] == week_task_of(#[trigger] rs[j], d.today@),
    decreases rs.len(),
{
    let rest = day_tasks(rs.drop_last(), d, o);
    if k < rest.len() {
        lemma_day_task_origin(rs.drop_last(), d, o, k);
        let j = choose|j: int| 0 <= j < rs.len() - 1 && on_day(rs.drop_last()[j], d, o)
            && rest[k] == week_task_of(#[trigger] rs.drop_last()[j], d.today@);
        assert(rs.drop_last()[j] == rs[j]);
        assert(day_tasks(rs, d, o)[k] == rest[k]);
    } else {
        assert(day_tasks(rs, d, o)[k] == week_task_of(rs[rs.len() - 1], d.today@));
    }
}

/// Law: among the open rows `rs` of a week, a task is listed as
/// unscheduled exactly when it is loose (unscheduled, and no ancestor of
/// work scheduled in the week) and due, by the date part of its due value,
/// no later than the lookahead date; and a loose task is on no day.
pub proof fn unscheduled_listing(rs: Seq<WeekRow>, d: WeekDates, i: int)
    requires
        0 <= i < rs.len(),
        ids_distinct(rs),
    ensures
        (exists|k: int| 0 <= k < unscheduled_tasks(rs, d, rs.len() as int).len()
            && (#[trigger] unscheduled_tasks(rs, d, rs.len() as int)[k]).id == rs[i].task.id)
            <==> (loose(rs, d, rs[i]) && due_within(rs[i], d.lookahead@)),
        loose(rs, d, rs[i]) ==> forall|o: int, k: int| 0 <= k < day_tasks(rs, d, o).len()
            ==> (#[trigger] day_tasks(rs, d, o)[k]).id != rs[i].task.id,
{
    let n = rs.len() as int;
    let u = unscheduled_tasks(rs, d, n);
    if loose(rs, d, rs[i]) && due_within(rs[i], d.lookahead@) {
        lemma_unscheduled_has(rs, d, n, i);
        let k = choose|k: int| 0 <= k < u.len() && #[trigger] u[k] == week_task_of(rs[i], d.today@);
        assert(u[k].id == rs[i].task.id);
    }
    assert forall|k: int| 0 <= k < u.len() && (#[trigger] u[k]).id == rs[i].task.id
        implies loose(rs, d, rs[i]) && due_within(rs[i], d.lookahead@) by {
        lemma_unscheduled_origin(rs, d, n, k);
        let j = choose|j: int| 0 <= j < n && loose(rs, d, rs[j]) && due_within(rs[j], d.lookahead@)
            && u[k] == week_task_of(#[trigger] rs[j], d.today@);
        if j != i {
            if j < i {
                assert(rs[j].task.id != rs[i].task.id);
            } else {
                assert(rs[i].task.id != rs[j].task.id);
            }
        }
    }
    if loose(rs, d, rs[i]) {
        assert forall|o: int, k: int| 0 <= k < day_tasks(rs, d, o).len()
            implies (#[trigger] day_tasks(rs, d, o)[k]).id != rs[i].task.id by {
            lemma_day_task_origin(rs, d, o, k);
            let j = choose|j: int| 0 <= j < rs.len() && on_day(rs[j], d, o)
                && day_tasks(rs, d, o)[k] == week_task_of(#[trigger] rs[j], d.today@);
            if j < i {
                assert(rs[j].task.id != rs[i].task.id);
            } else if j > i {
                assert(rs[i].task.id != rs[j].task.id);
            }
        }
    }
}

/// Law: a task on the Week view is marked overdue exactly when it is open
/// and its local due date lies before today; one due today or later is
/// never marked overdue. This holds of every task laid out on a day.
pub proof fn overdue_means_due_before_today(rs: Seq<WeekRow>, d: WeekDates, o: int, k: int)
    requires
        0 <= k < day_tasks(rs, d, o).len(),
    ensures
        exists|j: int| 0 <= j < rs.len() && (#[trigger] rs[j]).task.id == day_tasks(rs, d, o)[k].id && {
            let t = day_tasks(rs, d, o)[k];
            &&& t.overdue <==> (rs[j].task.status@ != "completed"@
                && (rs[j].due_local matches Some(l) && seq_lt(l@, d.today@)))
            &&& (rs[j].due_local matches Some(l) && (l@ == d.today@ || seq_lt(d.today@, l@))) ==> !t.overdue
        },
{
    lemma_day_task_origin(rs, d, o, k);
    let j = choose|j: int| 0 <= j < rs.len() && on_day(rs[j], d, o)
        && day_tasks(rs, d, o)[k] == week_task_of(#[trigger] rs[j], d.today@);
    if let Some(l) = rs[j].due_local {
        crate::text::seq_lt_irreflexive(l@);
        if seq_lt(d.today@, l@) && seq_lt(l@, d.today@) {
            crate::text::seq_lt_transitive(l@, d.today@, l@);
        }
    }
    assert(rs[j].task.id == day_tasks(rs, d, o)[k].id);
}

} // verus!
