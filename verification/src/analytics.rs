//! Analytics: tracked-time summaries, estimate accuracy, session statistics,
//! workload and schedule coverage.
use vstd::prelude::*;
use crate::num::{as_ints, div_trunc, sum_i64, sums_fit, sums_fit_exec, tdiv, total};
use crate::dates::{parse_ymd, parsed_ymd, print_day, printable, printed_ymd, weekday_from_monday, weekday_of};
use crate::text::{push_decimal, push_str, decimal};
use crate::stats::{median, median_of};
use crate::stats::ints;
use crate::text::{
    chars_eq, chars_lt, chars_of, message, replace_char, replace_chars, seq_lt, seq_lt_irreflexive,
    seq_lt_total, seq_lt_transitive, signed_chars, signed_decimal, str_eq, string_of,
};

verus! {

/// Tracked time of one class.
#[derive(Clone)]
pub struct ClassTotal {
    pub class_id: i64,
    pub course_code: String,
    pub tracked_seconds: i64,
}

/// Tracked time over a period, in total and by class.
pub struct RangeSummary {
    pub tracked_seconds_total: i64,
    pub by_class: Vec<ClassTotal>,
}

/// A finished session with its task and class labels.
pub struct SessionEntry {
    pub session_id: i64,
    pub task_id: i64,
    pub task_title: String,
    pub course_code: String,
    pub start_ts: String,
    pub end_ts: Option<String>,
    pub duration_seconds: i64,
}

/// One day's tracked time.
pub struct DayView {
    pub date: String,
    pub total_seconds: i64,
    pub by_class: Vec<ClassTotal>,
    pub sessions: Vec<SessionEntry>,
}

/// A task's finished sessions and their total.
pub struct TaskHistory {
    pub task_id: i64,
    pub total_seconds: i64,
    pub estimated_minutes: Option<i64>,
    pub sessions: Vec<SessionEntry>,
}

/// Estimate accuracy of one class or one task type.
pub struct EstimateBreakdown {
    pub key: String,
    pub label: String,
    pub sample_count: i64,
    pub median_estimated_minutes: i64,
    pub median_actual_minutes: i64,
    pub median_error_percent: i64,
}

/// How many completed tasks fell in one band of estimate error.
pub struct EstimateBand {
    pub label: String,
    pub count: i64,
}

/// Statistics of finished session durations.
pub struct SessionStats {
    pub count: i64,
    pub median_seconds: i64,
    pub average_seconds: i64,
    pub longest_seconds: i64,
    pub under_ten_minutes: i64,
    pub at_least_thirty_minutes: i64,
}

/// Planned study blocks against tracked time.
pub struct BlockActualSummary {
    pub planned_minutes: i64,
    pub completed_planned_minutes: i64,
    pub actual_tracked_seconds: i64,
    pub block_count: i64,
    pub completed_block_count: i64,
}

/// Estimate-versus-actual analytics over a period.
pub struct EstimateAnalytics {
    pub sample_count: i64,
    pub median_estimated_minutes: i64,
    pub median_actual_minutes: i64,
    pub median_difference_minutes: i64,
    pub median_error_percent: i64,
    pub bands: Vec<EstimateBand>,
    pub by_class: Vec<EstimateBreakdown>,
    pub by_task_type: Vec<EstimateBreakdown>,
    pub session_stats: SessionStats,
    pub blocks: BlockActualSummary,
}

/// A suggested estimate drawn from past completed tasks.
pub struct EstimateSuggestion {
    pub suggested_minutes: Option<i64>,
    pub sample_count: i64,
    pub source: Option<String>,
    pub median_actual_minutes: Option<i64>,
}

/// The completed task whose estimate missed by most.
pub struct EstimateMiss {
    pub task_id: i64,
    pub task_title: String,
    pub course_code: String,
    pub estimated_minutes: i64,
    pub actual_minutes: i64,
    pub difference_minutes: i64,
    pub error_percent: i64,
}

/// One day's workload against capacity.
pub struct WorkloadDay {
    pub date: String,
    pub available_minutes: Option<i64>,
    pub scheduled_block_minutes: i64,
    pub remaining_due_minutes: i64,
    pub remaining_capacity_minutes: Option<i64>,
    pub overflow_minutes: i64,
    pub load_percent: Option<i64>,
}

/// The weekly review.
pub struct WeeklyReview {
    pub start_date: String,
    pub end_date: String,
    pub tracked_seconds: i64,
    pub completed_tasks: i64,
    pub overdue_tasks: i64,
    pub largest_estimate_miss: Option<EstimateMiss>,
    pub most_time_class: Option<ClassTotal>,
    pub median_session_seconds: i64,
    pub schedule_coverage_percent: i64,
    pub blocks: BlockActualSummary,
    pub workload: Vec<WorkloadDay>,
}

/// A completed task with an estimate, and its tracked whole minutes.
#[derive(Clone)]
pub struct EstimateSample {
    pub task_id: i64,
    pub task_title: String,
    pub course_id: i64,
    pub course_code: String,
    pub task_type: String,
    pub estimated_minutes: i64,
    pub actual_minutes: i64,
}

/// The difference between actual and estimate, and its hundredfold, fit in `i64`.
pub open spec fn percent_fits(actual: i64, estimated: i64) -> bool {
    i64::MIN <= (actual - estimated) * 100 <= i64::MAX
}

/// Estimate error in percent: `(actual - estimated) * 100 / estimated`,
/// rounded toward zero; zero for a non-positive estimate.
pub open spec fn error_pct(actual: int, estimated: int) -> int {
    if estimated <= 0 { 0 } else { tdiv((actual - estimated) * 100, estimated) }
}

/// Estimate error in percent (see `error_pct`).
pub fn error_percent(actual: i64, estimated: i64) -> (r: i64)
    requires
        estimated > 0 ==> percent_fits(actual, estimated),
    ensures
        r as int == error_pct(actual as int, estimated as int),
{
    if estimated <= 0 {
        0
    } else {
        proof {
            assert(-100 * (actual - estimated) <= i64::MAX);
        }
        let q = div_trunc((actual - estimated) * 100, estimated);
        proof {
            assert(-i64::MAX <= tdiv((actual - estimated) * 100, estimated as int) <= i64::MAX) by (nonlinear_arith)
                requires
                    estimated > 0,
                    i64::MIN <= (actual - estimated) * 100 <= i64::MAX,
                    tdiv((actual - estimated) * 100, estimated as int) == if (actual - estimated) * 100 >= 0 {
                        ((actual - estimated) * 100) / (estimated as int)
                    } else {
                        -((-((actual - estimated) * 100)) / (estimated as int))
                    };
        }
        q
    }
}

/// Every sample's figures fit the percent arithmetic.
pub open spec fn samples_fit(samples: Seq<EstimateSample>) -> bool {
    forall|i: int| 0 <= i < samples.len() ==> percent_fits(#[trigger] samples[i].actual_minutes, samples[i].estimated_minutes)
}

/// The tracked seconds of a list of class totals.
pub open spec fn class_seconds(v: Seq<ClassTotal>) -> Seq<int> {
    v.map_values(|c: ClassTotal| c.tracked_seconds as int)
}

fn tracked_of(v: &Vec<ClassTotal>) -> (r: Vec<i64>)
    ensures
        as_ints(r@) == class_seconds(v@),
{
    let mut out: Vec<i64> = Vec::new();
    let mut i: usize = 0;
    while i < v.len()
        invariant
            i <= v.len(),
            out@.len() == i,
            forall|j: int| 0 <= j < i ==> out@[j] == v@[j].tracked_seconds,
        decreases v.len() - i,
    {
        out.push(v[i].tracked_seconds);
        i += 1;
    }
    assert(as_ints(out@) =~= class_seconds(v@));
    out
}

/// A period's summary: the class totals and their sum.
pub fn range_summary(by_class: Vec<ClassTotal>) -> (r: RangeSummary)
    requires
        sums_fit(class_seconds(by_class@)),
    ensures
        r.by_class == by_class,
        r.tracked_seconds_total as int == total(class_seconds(by_class@)),
{
    let secs = tracked_of(&by_class);
    let tracked_seconds_total = sum_i64(&secs);
    RangeSummary { tracked_seconds_total, by_class }
}

/// The durations of a list of session entries.
pub open spec fn entry_seconds(v: Seq<SessionEntry>) -> Seq<int> {
    v.map_values(|e: SessionEntry| e.duration_seconds as int)
}

fn durations_of(v: &Vec<SessionEntry>) -> (r: Vec<i64>)
    ensures
        as_ints(r@) == entry_seconds(v@),
{
    let mut out: Vec<i64> = Vec::new();
    let mut i: usize = 0;
    while i < v.len()
        invariant
            i <= v.len(),
            out@.len() == i,
            forall|j: int| 0 <= j < i ==> out@[j] == v@[j].duration_seconds,
        decreases v.len() - i,
    {
        out.push(v[i].duration_seconds);
        i += 1;
    }
    assert(as_ints(out@) =~= entry_seconds(v@));
    out
}

/// Whether `range_summary` and `day_view` can total these classes: every
/// running total of their tracked seconds fits an `i64`.
pub fn class_totals_fit(by_class: &Vec<ClassTotal>) -> (r: bool)
    ensures
        r == sums_fit(class_seconds(by_class@)),
{
    sums_fit_exec(&tracked_of(by_class))
}

/// Whether `task_history` can total these sessions: every running total
/// of their durations fits an `i64`.
pub fn entries_fit(sessions: &Vec<SessionEntry>) -> (r: bool)
    ensures
        r == sums_fit(entry_seconds(sessions@)),
{
    sums_fit_exec(&durations_of(sessions))
}

/// Whether every sample's error in percent can be computed within `i64`.
pub fn samples_fit_check(samples: &Vec<EstimateSample>) -> (r: bool)
    ensures
        r == samples_fit(samples@),
{
    let mut i: usize = 0;
    while i < samples.len()
        invariant
            i <= samples.len(),
            forall|k: int| 0 <= k < i ==> percent_fits(#[trigger] samples@[k].actual_minutes, samples@[k].estimated_minutes),
        decreases samples.len() - i,
    {
        let d: i128 = (samples[i].actual_minutes as i128 - samples[i].estimated_minutes as i128) * 100;
        if d < i64::MIN as i128 || d > i64::MAX as i128 {
            assert(!percent_fits(samples@[i as int].actual_minutes, samples@[i as int].estimated_minutes));
            return false;
        }
        i += 1;
    }
    true
}

/// One day's view: class totals, their sum, and the day's sessions.
pub fn day_view(date: String, by_class: Vec<ClassTotal>, sessions: Vec<SessionEntry>) -> (r: DayView)
    requires
        sums_fit(class_seconds(by_class@)),
    ensures
        r.date == date,
        r.by_class == by_class,
        r.sessions == sessions,
        r.total_seconds as int == total(class_seconds(by_class@)),
{
    let secs = tracked_of(&by_class);
    let total_seconds = sum_i64(&secs);
    DayView { date, total_seconds, by_class, sessions }
}

/// A task's history: its sessions and the sum of their durations.
pub fn task_history(task_id: i64, estimated_minutes: Option<i64>, sessions: Vec<SessionEntry>) -> (r: TaskHistory)
    requires
        sums_fit(entry_seconds(sessions@)),
    ensures
        r.task_id == task_id,
        r.estimated_minutes == estimated_minutes,
        r.sessions == sessions,
        r.total_seconds as int == total(entry_seconds(sessions@)),
{
    let secs = durations_of(&sessions);
    let total_seconds = sum_i64(&secs);
    TaskHistory { task_id, total_seconds, estimated_minutes, sessions }
}

/// How many of the values satisfy `p`.
pub open spec fn count_where(s: Seq<i64>, p: spec_fn(i64) -> bool) -> nat
    decreases s.len(),
{
    if s.len() == 0 { 0 } else { count_where(s.drop_last(), p) + if p(s.last()) { 1nat } else { 0nat } }
}

/// The largest value, or 0 for none.
pub open spec fn longest_of(s: Seq<i64>) -> int
    decreases s.len(),
{
    if s.len() == 0 {
        0
    } else if s.len() == 1 {
        s[0] as int
    } else {
        let m = longest_of(s.drop_last());
        if s.last() > m { s.last() as int } else { m }
    }
}

/// Session statistics: count, median, average (rounded toward zero), longest,
/// and how many lasted under ten minutes or at least thirty.
pub fn session_stats(durations: &Vec<i64>) -> (r: SessionStats)
    requires
        sums_fit(as_ints(durations@)),
        durations@.len() <= i64::MAX,
    ensures
        r.count == durations@.len(),
        r.median_seconds as int == median_of(durations@),
        r.average_seconds as int == if durations@.len() > 0 {
            tdiv(total(as_ints(durations@)), durations@.len() as int)
        } else {
            0
        },
        r.longest_seconds as int == longest_of(durations@),
        r.under_ten_minutes as int == count_where(durations@, |s: i64| s < 600),
        r.at_least_thirty_minutes as int == count_where(durations@, |s: i64| s >= 1800),
{
    let n = durations.len();
    let sum = sum_i64(durations);
    let mut longest: i64 = 0;
    let mut under: i64 = 0;
    let mut long: i64 = 0;
    let mut i: usize = 0;
    while i < n
        invariant
            i <= n,
            n == durations@.len(),
            n <= i64::MAX,
            longest as int == longest_of(durations@.take(i as int)),
            under as int == count_where(durations@.take(i as int), |s: i64| s < 600),
            long as int == count_where(durations@.take(i as int), |s: i64| s >= 1800),
            under <= i,
            long <= i,
        decreases n - i,
    {
        proof {
            assert(durations@.take(i + 1).drop_last() =~= durations@.take(i as int));
            assert(durations@.take(i + 1).last() == durations@[i as int]);
            if i == 0 {
                assert(durations@.take(1) =~= seq![durations@[0]]);
            }
        }
        let d = durations[i];
        if i == 0 || d > longest {
            longest = d;
        }
        if d < 600 {
            under = under + 1;
        }
        if d >= 1800 {
            long = long + 1;
        }
        i += 1;
    }
    assert(durations@.take(n as int) =~= durations@);
    let count = n as i64;
    let average_seconds: i64 = if count > 0 { div_trunc(sum, count) } else { 0 };
    SessionStats {
        count,
        median_seconds: median(durations),
        average_seconds,
        longest_seconds: longest,
        under_ten_minutes: under,
        at_least_thirty_minutes: long,
    }
}


/// The key a sample is grouped under: its class id in decimal, or its task type.
pub open spec fn sample_key(s: EstimateSample, by_class: bool) -> Seq<char> {
    if by_class { signed_decimal(s.course_id as int) } else { s.task_type@ }
}

/// The samples with a given key, in their original order.
pub open spec fn matching(samples: Seq<EstimateSample>, key: Seq<char>, by_class: bool) -> Seq<EstimateSample>
    decreases samples.len(),
{
    if samples.len() == 0 {
        Seq::empty()
    } else {
        let rest = matching(samples.drop_last(), key, by_class);
        if sample_key(samples.last(), by_class) == key { rest.push(samples.last()) } else { rest }
    }
}

pub open spec fn estimates(g: Seq<EstimateSample>) -> Seq<i64> {
    g.map_values(|s: EstimateSample| s.estimated_minutes)
}

pub open spec fn actuals(g: Seq<EstimateSample>) -> Seq<i64> {
    g.map_values(|s: EstimateSample| s.actual_minutes)
}

pub open spec fn errors(g: Seq<EstimateSample>) -> Seq<i64> {
    g.map_values(|s: EstimateSample| error_pct(s.actual_minutes as int, s.estimated_minutes as int) as i64)
}

pub open spec fn differences(g: Seq<EstimateSample>) -> Seq<i64> {
    g.map_values(|s: EstimateSample| (s.actual_minutes - s.estimated_minutes) as i64)
}

/// What one group's breakdown reports.
pub open spec fn breakdown_of(b: EstimateBreakdown, samples: Seq<EstimateSample>, by_class: bool) -> bool {
    let g = matching(samples, b.key@, by_class);
    &&& g.len() > 0
    &&& b.label@ == (if by_class { g[0].course_code@ } else { replace_char(b.key@, '_', ' ') })
    &&& b.sample_count == g.len()
    &&& b.median_estimated_minutes == median_of(estimates(g))
    &&& b.median_actual_minutes == median_of(actuals(g))
    &&& b.median_error_percent == median_of(errors(g))
}

/// Some sample has the key.
pub open spec fn has_key(samples: Seq<EstimateSample>, key: Seq<char>, by_class: bool) -> bool {
    exists|i: int| 0 <= i < samples.len() && sample_key(samples[i], by_class) == key
}

fn key_of(s: &EstimateSample, by_class: bool) -> (r: Vec<char>)
    ensures
        r@ == sample_key(*s, by_class),
{
    if by_class { signed_chars(s.course_id) } else { chars_of(s.task_type.as_str()) }
}

/// The distinct keys of the samples in ascending order.
fn sorted_keys(samples: &Vec<EstimateSample>, by_class: bool) -> (r: Vec<Vec<char>>)
    ensures
        forall|i: int, j: int| 0 <= i < j < r@.len() ==> seq_lt(r@[i]@, r@[j]@),
        forall|k: Seq<char>| has_key(samples@, k, by_class) <==> exists|i: int| 0 <= i < r@.len() && r@[i]@ == k,
{
    let mut keys: Vec<Vec<char>> = Vec::new();
    let mut n: usize = 0;
    while n < samples.len()
        invariant
            n <= samples.len(),
            forall|i: int, j: int| 0 <= i < j < keys@.len() ==> seq_lt(keys@[i]@, keys@[j]@),
            forall|k: Seq<char>| has_key(samples@.take(n as int), k, by_class)
                <==> exists|i: int| 0 <= i < keys@.len() && keys@[i]@ == k,
        decreases samples.len() - n,
    {
        let x = key_of(&samples[n], by_class);
        let mut p: usize = 0;
        while p < keys.len() && chars_lt(keys[p].as_slice(), x.as_slice())
            invariant
                p <= keys.len(),
                forall|i: int| 0 <= i < p ==> seq_lt(keys@[i]@, x@),
            decreases keys.len() - p,
        {
            p += 1;
        }
        let ghost before = keys@;
        let present = p < keys.len() && chars_eq(keys[p].as_slice(), x.as_slice());
        if !present {
            keys.insert(p, x);
            proof {
                assert forall|i: int, j: int| 0 <= i < j < keys@.len() implies seq_lt(keys@[i]@, keys@[j]@) by {
                    if p < before.len() {
                        seq_lt_total(before[p as int]@, x@);
                    }
                    if j < p {
                        assert(keys@[i] == before[i] && keys@[j] == before[j]);
                    } else if j == p {
                        assert(keys@[i] == before[i]);
                    } else if i < p {
                        assert(keys@[i] == before[i] && keys@[j] == before[j - 1]);
                        if j - 1 > p { seq_lt_transitive(x@, before[p as int]@, before[j - 1]@); }
                        seq_lt_transitive(before[i]@, x@, before[j - 1]@);
                    } else if i == p {
                        assert(keys@[j] == before[j - 1]);
                        if j - 1 > p { seq_lt_transitive(x@, before[p as int]@, before[j - 1]@); }
                    } else {
                        assert(keys@[i] == before[i - 1] && keys@[j] == before[j - 1]);
                    }
                }
            }
        }
        proof {
            let prefix = samples@.take(n as int);
            let next = samples@.take(n + 1);
            assert(next =~= prefix.push(samples@[n as int]));
            assert forall|k: Seq<char>| has_key(next, k, by_class)
                <==> exists|i: int| 0 <= i < keys@.len() && keys@[i]@ == k by {
                if has_key(next, k, by_class) {
                    let t = choose|t: int| 0 <= t < next.len() && sample_key(next[t], by_class) == k;
                    if t < n {
                        assert(prefix[t] == next[t]);
                        assert(has_key(prefix, k, by_class));
                        let i0 = choose|i: int| 0 <= i < before.len() && before[i]@ == k;
                        if present {
                            assert(keys@[i0]@ == k);
                        } else if i0 < p {
                            assert(keys@[i0]@ == k);
                        } else {
                            assert(keys@[i0 + 1]@ == k);
                        }
                    } else {
                        if present {
                            assert(keys@[p as int]@ == k);
                        } else {
                            assert(keys@[p as int]@ == k);
                        }
                    }
                }
                if exists|i: int| 0 <= i < keys@.len() && keys@[i]@ == k {
                    let i = choose|i: int| 0 <= i < keys@.len() && keys@[i]@ == k;
                    if !present && i == p {
                        assert(sample_key(next[n as int], by_class) == k);
                    } else {
                        let i0 = if !present && i > p { i - 1 } else { i };
                        assert(before[i0]@ == k);
                        assert(has_key(prefix, k, by_class));
                        let t = choose|t: int| 0 <= t < prefix.len() && sample_key(prefix[t], by_class) == k;
                        assert(next[t] == prefix[t]);
                    }
                }
            }
        }
        n += 1;
    }
    assert(samples@.take(samples.len() as int) =~= samples@);
    keys
}

fn group_figures(samples: &Vec<EstimateSample>, key: &Vec<char>, by_class: bool)
    -> (r: (Vec<i64>, Vec<i64>, Vec<i64>, Option<String>))
    requires
        samples_fit(samples@),
    ensures
        r.0@ == estimates(matching(samples@, key@, by_class)),
        r.1@ == actuals(matching(samples@, key@, by_class)),
        r.2@ == errors(matching(samples@, key@, by_class)),
        matching(samples@, key@, by_class).len() > 0 ==> (r.3 matches Some(c) && c@ == matching(samples@, key@, by_class)[0].course_code@),
{
    let mut est: Vec<i64> = Vec::new();
    let mut act: Vec<i64> = Vec::new();
    let mut err: Vec<i64> = Vec::new();
    let mut first: Option<String> = None;
    let mut i: usize = 0;
    while i < samples.len()
        invariant
            i <= samples.len(),
            samples_fit(samples@),
            est@ == estimates(matching(samples@.take(i as int), key@, by_class)),
            act@ == actuals(matching(samples@.take(i as int), key@, by_class)),
            err@ == errors(matching(samples@.take(i as int), key@, by_class)),
            first is Some <==> matching(samples@.take(i as int), key@, by_class).len() > 0,
            matching(samples@.take(i as int), key@, by_class).len() > 0 ==> (first matches Some(c)
                && c@ == matching(samples@.take(i as int), key@, by_class)[0].course_code@),
        decreases samples.len() - i,
    {
        let ghost prefix = samples@.take(i as int);
        let ghost g = matching(prefix, key@, by_class);
        proof {
            assert(samples@.take(i + 1).drop_last() =~= prefix);
            assert(samples@.take(i + 1).last() == samples@[i as int]);
        }
        let k = key_of(&samples[i], by_class);
        if chars_eq(k.as_slice(), key.as_slice()) {
            let s = &samples[i];
            assert(percent_fits(samples@[i as int].actual_minutes, samples@[i as int].estimated_minutes));
            est.push(s.estimated_minutes);
            act.push(s.actual_minutes);
            err.push(error_percent(s.actual_minutes, s.estimated_minutes));
            if first.is_none() {
                first = Some(s.course_code.clone());
            }
            proof {
                let g2 = g.push(samples@[i as int]);
                assert(est@ =~= estimates(g2));
                assert(act@ =~= actuals(g2));
                assert(err@ =~= errors(g2));
                if g.len() > 0 { assert(g2[0] == g[0]); }
            }
        }
        i += 1;
    }
    assert(samples@.take(samples.len() as int) =~= samples@);
    (est, act, err, first)
}

/// The breakdowns of `samples`: one per key, in strictly ascending key
/// order, each reporting its group.
pub open spec fn is_breakdowns(r: Seq<EstimateBreakdown>, samples: Seq<EstimateSample>, by_class: bool) -> bool {
    &&& forall|i: int, j: int| 0 <= i < j < r.len() ==> seq_lt(r[i].key@, r[j].key@)
    &&& forall|k: Seq<char>| has_key(samples, k, by_class) <==> exists|i: int| 0 <= i < r.len() && r[i].key@ == k
    &&& forall|i: int| 0 <= i < r.len() ==> breakdown_of(#[trigger] r[i], samples, by_class)
}

/// The sample counts of some breakdowns, added up.
pub open spec fn breakdown_counts(r: Seq<EstimateBreakdown>) -> int
    decreases r.len(),
{
    if r.len() == 0 {
        0
    } else {
        breakdown_counts(r.drop_last()) + r.last().sample_count
    }
}

/// The keys of some breakdowns.
pub open spec fn breakdown_keys(r: Seq<EstimateBreakdown>) -> Seq<Seq<char>> {
    Seq::new(r.len(), |i: int| r[i].key@)
}

/// How many samples match each key, added up over the keys.
pub open spec fn matched_total(keys: Seq<Seq<char>>, samples: Seq<EstimateSample>, by_class: bool) -> int
    decreases keys.len(),
{
    if keys.len() == 0 {
        0
    } else {
        matched_total(keys.drop_last(), samples, by_class) + matching(samples, keys.last(), by_class).len()
    }
}

/// How many of the keys equal `x`.
pub open spec fn key_hits(keys: Seq<Seq<char>>, x: Seq<char>) -> int
    decreases keys.len(),
{
    if keys.len() == 0 {
        0
    } else {
        key_hits(keys.drop_last(), x) + if keys.last() == x { 1int } else { 0int }
    }
}

/// How many samples have a key among `keys`.
pub open spec fn keyed_count(samples: Seq<EstimateSample>, keys: Seq<Seq<char>>, by_class: bool) -> int
    decreases samples.len(),
{
    if samples.len() == 0 {
        0
    } else {
        keyed_count(samples.drop_last(), keys, by_class) + if keys.contains(sample_key(samples.last(), by_class)) { 1int } else { 0int }
    }
}

proof fn lemma_matched_total_empty(keys: Seq<Seq<char>>, samples: Seq<EstimateSample>, by_class: bool)
    requires
        samples.len() == 0,
    ensures
        matched_total(keys, samples, by_class) == 0,
    decreases keys.len(),
{
    if keys.len() > 0 {
        lemma_matched_total_empty(keys.drop_last(), samples, by_class);
    }
}

proof fn lemma_matched_total_step(keys: Seq<Seq<char>>, samples: Seq<EstimateSample>, by_class: bool)
    requires
        samples.len() > 0,
    ensures
        matched_total(keys, samples, by_class) == matched_total(keys, samples.drop_last(), by_class)
            + key_hits(keys, sample_key(samples.last(), by_class)),
    decreases keys.len(),
{
    if keys.len() > 0 {
        lemma_matched_total_step(keys.drop_last(), samples, by_class);
    }
}

proof fn lemma_key_hits(keys: Seq<Seq<char>>, x: Seq<char>)
    requires
        forall|a: int, b: int| 0 <= a < b < keys.len() ==> #[trigger] keys[a] != #[trigger] keys[b],
    ensures
        key_hits(keys, x) == if keys.contains(x) { 1int } else { 0int },
    decreases keys.len(),
{
    if keys.len() > 0 {
        let rest = keys.drop_last();
        assert forall|a: int, b: int| 0 <= a < b < rest.len() implies #[trigger] rest[a] != #[trigger] rest[b] by {
            assert(rest[a] == keys[a] && rest[b] == keys[b]);
        }
        lemma_key_hits(rest, x);
        if keys.last() == x {
            if rest.contains(x) {
                let a = choose|a: int| 0 <= a < rest.len() && rest[a] == x;
                assert(keys[a] == keys[keys.len() - 1]);
            }
            assert(keys.contains(x)) by {
                assert(keys[keys.len() - 1] == x);
            }
        } else {
            if keys.contains(x) {
                let a = choose|a: int| 0 <= a < keys.len() && keys[a] == x;
                assert(rest[a] == x);
            }
            if rest.contains(x) {
                let a = choose|a: int| 0 <= a < rest.len() && rest[a] == x;
                assert(keys[a] == x);
            }
        }
    }
}

proof fn lemma_matched_is_keyed(keys: Seq<Seq<char>>, samples: Seq<EstimateSample>, by_class: bool)
    requires
        forall|a: int, b: int| 0 <= a < b < keys.len() ==> #[trigger] keys[a] != #[trigger] keys[b],
    ensures
        matched_total(keys, samples, by_class) == keyed_count(samples, keys, by_class),
    decreases samples.len(),
{
    if samples.len() == 0 {
        lemma_matched_total_empty(keys, samples, by_class);
    } else {
        lemma_matched_is_keyed(keys, samples.drop_last(), by_class);
        lemma_matched_total_step(keys, samples, by_class);
        lemma_key_hits(keys, sample_key(samples.last(), by_class));
    }
}

proof fn lemma_keyed_all(samples: Seq<EstimateSample>, keys: Seq<Seq<char>>, by_class: bool)
    requires
        forall|i: int| 0 <= i < samples.len() ==> keys.contains(sample_key(#[trigger] samples[i], by_class)),
    ensures
        keyed_count(samples, keys, by_class) == samples.len(),
    decreases samples.len(),
{
    if samples.len() > 0 {
        let rest = samples.drop_last();
        assert forall|i: int| 0 <= i < rest.len() implies keys.contains(sample_key(#[trigger] rest[i], by_class)) by {
            assert(rest[i] == samples[i]);
        }
        lemma_keyed_all(rest, keys, by_class);
        assert(keys.contains(sample_key(samples[samples.len() - 1], by_class)));
    }
}

proof fn lemma_counts_are_matched(r: Seq<EstimateBreakdown>, samples: Seq<EstimateSample>, by_class: bool)
    requires
        forall|i: int| 0 <= i < r.len() ==> (#[trigger] r[i]).sample_count == matching(samples, r[i].key@, by_class).len(),
    ensures
        breakdown_counts(r) == matched_total(breakdown_keys(r), samples, by_class),
    decreases r.len(),
{
    if r.len() > 0 {
        let rest = r.drop_last();
        assert forall|i: int| 0 <= i < rest.len() implies (#[trigger] rest[i]).sample_count
            == matching(samples, rest[i].key@, by_class).len() by {
            assert(rest[i] == r[i]);
        }
        lemma_counts_are_matched(rest, samples, by_class);
        assert(breakdown_keys(r).drop_last() =~= breakdown_keys(rest));
        assert(breakdown_keys(r).last() == r.last().key@);
        assert(r.last() == r[r.len() - 1]);
    }
}

/// Law: every sample falls in exactly one breakdown, so the breakdowns'
/// sample counts add up to the number of samples.
pub proof fn breakdown_counts_sum_to_samples(r: Seq<EstimateBreakdown>, samples: Seq<EstimateSample>, by_class: bool)
    requires
        is_breakdowns(r, samples, by_class),
    ensures
        breakdown_counts(r) == samples.len(),
{
    let keys = breakdown_keys(r);
    assert forall|i: int| 0 <= i < r.len() implies (#[trigger] r[i]).sample_count
        == matching(samples, r[i].key@, by_class).len() by {
        assert(breakdown_of(r[i], samples, by_class));
    }
    lemma_counts_are_matched(r, samples, by_class);
    assert forall|a: int, b: int| 0 <= a < b < keys.len() implies #[trigger] keys[a] != #[trigger] keys[b] by {
        assert(seq_lt(r[a].key@, r[b].key@));
        seq_lt_irreflexive(r[a].key@);
    }
    lemma_matched_is_keyed(keys, samples, by_class);
    assert forall|i: int| 0 <= i < samples.len() implies keys.contains(sample_key(#[trigger] samples[i], by_class)) by {
        let k = sample_key(samples[i], by_class);
        assert(has_key(samples, k, by_class));
        let j = choose|j: int| 0 <= j < r.len() && r[j].key@ == k;
        assert(keys[j] == k);
    }
    lemma_keyed_all(samples, keys, by_class);
}

/// Estimate accuracy grouped by class (keyed by class id in decimal) or by
/// task type, one entry per key in ascending key order.
pub fn breakdowns(samples: &Vec<EstimateSample>, by_class: bool) -> (r: Vec<EstimateBreakdown>)
    requires
        samples_fit(samples@),
        samples@.len() <= i64::MAX,
    ensures
        is_breakdowns(r@, samples@, by_class),
{
    let keys = sorted_keys(samples, by_class);
    let mut out: Vec<EstimateBreakdown> = Vec::new();
    let mut i: usize = 0;
    while i < keys.len()
        invariant
            i <= keys.len(),
            samples_fit(samples@),
            samples@.len() <= i64::MAX,
            forall|k: Seq<char>| has_key(samples@, k, by_class) <==> exists|j: int| 0 <= j < keys@.len() && keys@[j]@ == k,
            out@.len() == i,
            forall|j: int| 0 <= j < i ==> (#[trigger] out@[j]).key@ == keys@[j]@,
            forall|j: int| 0 <= j < i ==> breakdown_of(#[trigger] out@[j], samples@, by_class),
        decreases keys.len() - i,
    {
        let key = &keys[i];
        let (mut est, mut act, mut err, first) = group_figures(samples, key, by_class);
        proof {
            assert(has_key(samples@, keys@[i as int]@, by_class));
            let t = choose|t: int| 0 <= t < samples@.len() && sample_key(samples@[t], by_class) == keys@[i as int]@;
            lemma_matching_nonempty(samples@, keys@[i as int]@, by_class, t);
            lemma_matching_len(samples@, keys@[i as int]@, by_class);
        }
        let label: String = if by_class {
            match first {
                Some(c) => c,
                None => String::new(),
            }
        } else {
            let replaced = replace_chars(key.as_slice(), '_', ' ');
            string_of(replaced.as_slice())
        };
        let count = est.len() as i64;
        let b = EstimateBreakdown {
            key: string_of(key.as_slice()),
            label,
            sample_count: count,
            median_estimated_minutes: median(&est),
            median_actual_minutes: median(&act),
            median_error_percent: median(&err),
        };
        out.push(b);
        i += 1;
    }
    proof {
        assert forall|k: Seq<char>| has_key(samples@, k, by_class) <==> exists|j: int| 0 <= j < out@.len() && out@[j].key@ == k by {
            if has_key(samples@, k, by_class) {
                let j = choose|j: int| 0 <= j < keys@.len() && keys@[j]@ == k;
                assert(out@[j].key@ == k);
            }
            if exists|j: int| 0 <= j < out@.len() && out@[j].key@ == k {
                let j = choose|j: int| 0 <= j < out@.len() && out@[j].key@ == k;
                assert(keys@[j]@ == k);
            }
        }
    }
    out
}

proof fn lemma_matching_nonempty(samples: Seq<EstimateSample>, key: Seq<char>, by_class: bool, t: int)
    requires
        0 <= t < samples.len(),
        sample_key(samples[t], by_class) == key,
    ensures
        matching(samples, key, by_class).len() > 0,
    decreases samples.len(),
{
    if t < samples.len() - 1 {
        assert(samples.drop_last()[t] == samples[t]);
        lemma_matching_nonempty(samples.drop_last(), key, by_class, t);
    }
}

proof fn lemma_matching_len(samples: Seq<EstimateSample>, key: Seq<char>, by_class: bool)
    ensures
        matching(samples, key, by_class).len() <= samples.len(),
    decreases samples.len(),
{
    if samples.len() > 0 {
        lemma_matching_len(samples.drop_last(), key, by_class);
    }
}


/// A sample passes the optional class and task-type filters.
pub open spec fn passes(s: EstimateSample, class_id: Option<i64>, task_type: Option<Seq<char>>) -> bool {
    &&& (class_id matches Some(c) ==> s.course_id == c)
    &&& (task_type matches Some(t) ==> s.task_type@ == t)
}

/// The samples passing the filters, in order.
pub open spec fn filtered(samples: Seq<EstimateSample>, class_id: Option<i64>, task_type: Option<Seq<char>>) -> Seq<EstimateSample>
    decreases samples.len(),
{
    if samples.len() == 0 {
        Seq::empty()
    } else {
        let rest = filtered(samples.drop_last(), class_id, task_type);
        if passes(samples.last(), class_id, task_type) { rest.push(samples.last()) } else { rest }
    }
}

/// A suggestion from the filtered samples: their median actual minutes and
/// their count, offered only with at least three samples.
pub open spec fn suggestion_spec(samples: Seq<EstimateSample>, class_id: Option<i64>, task_type: Option<Seq<char>>) -> Option<(int, int)> {
    let f = filtered(samples, class_id, task_type);
    if f.len() < 3 { None } else { Some((median_of(actuals(f)), f.len() as int)) }
}

proof fn lemma_filtered_len(samples: Seq<EstimateSample>, class_id: Option<i64>, task_type: Option<Seq<char>>)
    ensures
        filtered(samples, class_id, task_type).len() <= samples.len(),
    decreases samples.len(),
{
    if samples.len() > 0 {
        lemma_filtered_len(samples.drop_last(), class_id, task_type);
    }
}

/// The median actual minutes and count of the samples passing the filters,
/// when there are at least three of them.
pub fn suggestion_for(samples: &Vec<EstimateSample>, class_id: Option<i64>, task_type: Option<&str>) -> (r: Option<(i64, i64)>)
    requires
        samples@.len() <= i64::MAX,
    ensures
        match suggestion_spec(samples@, class_id, match task_type { Some(t) => Some(t@), None => None }) {
            Some((m, c)) => r == Some((m as i64, c as i64)),
            None => r is None,
        },
{
    let ghost tt = match task_type { Some(t) => Some(t@), None => None };
    let mut act: Vec<i64> = Vec::new();
    let mut i: usize = 0;
    while i < samples.len()
        invariant
            i <= samples.len(),
            tt == match task_type { Some(t) => Some(t@), None => None },
            act@ == actuals(filtered(samples@.take(i as int), class_id, tt)),
        decreases samples.len() - i,
    {
        proof {
            assert(samples@.take(i + 1).drop_last() =~= samples@.take(i as int));
            assert(samples@.take(i + 1).last() == samples@[i as int]);
        }
        let s = &samples[i];
        let class_ok = match class_id { Some(c) => s.course_id == c, None => true };
        let type_ok = match task_type { Some(t) => str_eq(s.task_type.as_str(), t), None => true };
        if class_ok && type_ok {
            let ghost before = filtered(samples@.take(i as int), class_id, tt);
            act.push(s.actual_minutes);
            assert(act@ =~= actuals(before.push(samples@[i as int])));
        }
        i += 1;
    }
    assert(samples@.take(samples.len() as int) =~= samples@);
    proof { lemma_filtered_len(samples@, class_id, tt); }
    if act.len() < 3 {
        return None;
    }
    Some((median(&act), act.len() as i64))
}

/// The candidate filters in order of preference, with the source name each reports.
pub open spec fn candidate(i: int, class_id: i64, task_type: Seq<char>) -> (Option<i64>, Option<Seq<char>>, Seq<char>) {
    if i == 0 { (Some(class_id), Some(task_type), "class_and_type"@) }
    else if i == 1 { (None, Some(task_type), "task_type"@) }
    else if i == 2 { (Some(class_id), None, "class"@) }
    else { (None, None, "global"@) }
}

/// The first candidate with a suggestion, if any.
pub open spec fn first_candidate(samples: Seq<EstimateSample>, class_id: i64, task_type: Seq<char>, from: int) -> Option<int>
    decreases 4 - from,
{
    if from >= 4 {
        None
    } else if suggestion_spec(samples, candidate(from, class_id, task_type).0, candidate(from, class_id, task_type).1) is Some {
        Some(from)
    } else {
        first_candidate(samples, class_id, task_type, from + 1)
    }
}

/// A suggested estimate for a new task: from completed tasks of the same
/// class and type, else the same type, else the same class, else all; the
/// first with at least three samples wins.
pub fn estimate_suggestion(samples: &Vec<EstimateSample>, class_id: i64, task_type: &str) -> (r: EstimateSuggestion)
    requires
        samples@.len() <= i64::MAX,
    ensures
        match first_candidate(samples@, class_id, task_type@, 0) {
            Some(i) => {
                let (c, t, source) = candidate(i, class_id, task_type@);
                let (m, n) = suggestion_spec(samples@, c, t)->0;
                &&& r.suggested_minutes == Some(m as i64)
                &&& r.median_actual_minutes == Some(m as i64)
                &&& r.sample_count == n as i64
                &&& r.source matches Some(s) && s@ == source
            },
            None => {
                &&& r.suggested_minutes is None
                &&& r.median_actual_minutes is None
                &&& r.source is None
                &&& r.sample_count == samples@.len()
            },
        },
{
    proof {
        reveal_strlit("class_and_type");
        reveal_strlit("task_type");
        reveal_strlit("class");
        reveal_strlit("global");
    }
    let mut i: usize = 0;
    while i < 4
        invariant
            i <= 4,
            samples@.len() <= i64::MAX,
            first_candidate(samples@, class_id, task_type@, 0) == first_candidate(samples@, class_id, task_type@, i as int),
        decreases 4 - i,
    {
        let (c, t, source): (Option<i64>, Option<&str>, &str) = if i == 0 {
            (Some(class_id), Some(task_type), "class_and_type")
        } else if i == 1 {
            (None, Some(task_type), "task_type")
        } else if i == 2 {
            (Some(class_id), None, "class")
        } else {
            (None, None, "global")
        };
        assert(candidate(i as int, class_id, task_type@) == (c, match t { Some(x) => Some(x@), None => None }, source@));
        if let Some((minutes, count)) = suggestion_for(samples, c, t) {
            return EstimateSuggestion {
                suggested_minutes: Some(minutes),
                sample_count: count,
                source: Some(message(source)),
                median_actual_minutes: Some(minutes),
            };
        }
        i += 1;
    }
    EstimateSuggestion {
        suggested_minutes: None,
        sample_count: samples.len() as i64,
        source: None,
        median_actual_minutes: None,
    }
}


/// Which band of estimate error a sample falls in, if any: 0 within the
/// estimate, 1 up to 25% over, 2 from 25% to 50% over, 3 more than 50% over.
pub open spec fn in_band(s: EstimateSample, band: int) -> bool {
    let e = error_pct(s.actual_minutes as int, s.estimated_minutes as int);
    if band == 0 {
        s.actual_minutes <= s.estimated_minutes
    } else if band == 1 {
        s.actual_minutes > s.estimated_minutes && e <= 25
    } else if band == 2 {
        e > 25 && e <= 50
    } else {
        e > 50
    }
}

/// How many samples fall in a band.
pub open spec fn band_count(samples: Seq<EstimateSample>, band: int) -> nat
    decreases samples.len(),
{
    if samples.len() == 0 {
        0
    } else {
        band_count(samples.drop_last(), band) + if in_band(samples.last(), band) { 1nat } else { 0nat }
    }
}

proof fn lemma_one_band(s: EstimateSample)
    ensures
        (if in_band(s, 0) { 1int } else { 0int }) + (if in_band(s, 1) { 1int } else { 0int })
            + (if in_band(s, 2) { 1int } else { 0int }) + (if in_band(s, 3) { 1int } else { 0int }) == 1,
{
    let a = s.actual_minutes as int;
    let e = s.estimated_minutes as int;
    let d = (a - e) * 100;
    if e > 0 {
        if a > e {
            assert(d > 0);
            assert(d / e >= 0) by (nonlinear_arith)
                requires
                    d > 0,
                    e > 0,
            ;
        } else {
            assert(d <= 0);
            assert((-d) / e >= 0) by (nonlinear_arith)
                requires
                    -d >= 0,
                    e > 0,
            ;
        }
    }
}

/// Law: every sample lies in exactly one of the four bands, so the band
/// counts add up to the number of samples.
pub proof fn band_counts_sum_to_samples(samples: Seq<EstimateSample>)
    ensures
        band_count(samples, 0) + band_count(samples, 1) + band_count(samples, 2) + band_count(samples, 3)
            == samples.len(),
    decreases samples.len(),
{
    if samples.len() > 0 {
        band_counts_sum_to_samples(samples.drop_last());
        lemma_one_band(samples.last());
    }
}

/// The labels of the four bands.
pub open spec fn band_label(band: int) -> Seq<char> {
    if band == 0 { "Within estimate"@ }
    else if band == 1 { "0–25% over"@ }
    else if band == 2 { "25–50% over"@ }
    else { ">50% over"@ }
}

fn count_band(samples: &Vec<EstimateSample>, band: u8) -> (r: i64)
    requires
        samples_fit(samples@),
        samples@.len() <= i64::MAX,
        band <= 3,
    ensures
        r as int == band_count(samples@, band as int),
{
    let mut count: i64 = 0;
    let mut i: usize = 0;
    while i < samples.len()
        invariant
            i <= samples.len(),
            samples_fit(samples@),
            samples@.len() <= i64::MAX,
            band <= 3,
            count as int == band_count(samples@.take(i as int), band as int),
            count <= i,
        decreases samples.len() - i,
    {
        proof {
            assert(samples@.take(i + 1).drop_last() =~= samples@.take(i as int));
            assert(samples@.take(i + 1).last() == samples@[i as int]);
            assert(percent_fits(samples@[i as int].actual_minutes, samples@[i as int].estimated_minutes));
        }
        let s = &samples[i];
        let e = error_percent(s.actual_minutes, s.estimated_minutes);
        let hit = if band == 0 {
            s.actual_minutes <= s.estimated_minutes
        } else if band == 1 {
            s.actual_minutes > s.estimated_minutes && e <= 25
        } else if band == 2 {
            e > 25 && e <= 50
        } else {
            e > 50
        };
        if hit {
            count = count + 1;
        }
        i += 1;
    }
    assert(samples@.take(samples.len() as int) =~= samples@);
    count
}

/// The four bands of estimate error with their counts.
pub fn estimate_bands(samples: &Vec<EstimateSample>) -> (r: Vec<EstimateBand>)
    requires
        samples_fit(samples@),
        samples@.len() <= i64::MAX,
    ensures
        r@.len() == 4,
        forall|b: int| 0 <= b < 4 ==> (#[trigger] r@[b]).label@ == band_label(b) && r@[b].count == band_count(samples@, b),
{
    proof {
        reveal_strlit("Within estimate");
        reveal_strlit("0–25% over");
        reveal_strlit("25–50% over");
        reveal_strlit(">50% over");
    }
    let mut out: Vec<EstimateBand> = Vec::new();
    out.push(EstimateBand { label: message("Within estimate"), count: count_band(samples, 0) });
    out.push(EstimateBand { label: message("0–25% over"), count: count_band(samples, 1) });
    out.push(EstimateBand { label: message("25–50% over"), count: count_band(samples, 2) });
    out.push(EstimateBand { label: message(">50% over"), count: count_band(samples, 3) });
    out
}

fn sample_columns(samples: &Vec<EstimateSample>) -> (r: (Vec<i64>, Vec<i64>, Vec<i64>, Vec<i64>))
    requires
        samples_fit(samples@),
    ensures
        r.0@ == estimates(samples@),
        r.1@ == actuals(samples@),
        r.2@ == differences(samples@),
        r.3@ == errors(samples@),
{
    let mut est: Vec<i64> = Vec::new();
    let mut act: Vec<i64> = Vec::new();
    let mut dif: Vec<i64> = Vec::new();
    let mut err: Vec<i64> = Vec::new();
    let mut i: usize = 0;
    while i < samples.len()
        invariant
            i <= samples.len(),
            samples_fit(samples@),
            est@ == estimates(samples@.take(i as int)),
            act@ == actuals(samples@.take(i as int)),
            dif@ == differences(samples@.take(i as int)),
            err@ == errors(samples@.take(i as int)),
        decreases samples.len() - i,
    {
        let s = &samples[i];
        assert(percent_fits(samples@[i as int].actual_minutes, samples@[i as int].estimated_minutes));
        est.push(s.estimated_minutes);
        act.push(s.actual_minutes);
        dif.push(s.actual_minutes - s.estimated_minutes);
        err.push(error_percent(s.actual_minutes, s.estimated_minutes));
        proof {
            let t = samples@.take(i + 1);
            assert(t =~= samples@.take(i as int).push(samples@[i as int]));
            assert(est@ =~= estimates(t));
            assert(act@ =~= actuals(t));
            assert(dif@ =~= differences(t));
            assert(err@ =~= errors(t));
        }
        i += 1;
    }
    assert(samples@.take(samples.len() as int) =~= samples@);
    (est, act, dif, err)
}

/// Estimate analytics over the completed samples of a period, with the
/// period's session statistics and block summary.
pub fn estimate_analytics(samples: &Vec<EstimateSample>, session_stats: SessionStats, blocks: BlockActualSummary) -> (r: EstimateAnalytics)
    requires
        samples_fit(samples@),
        samples@.len() <= i64::MAX,
    ensures
        r.sample_count == samples@.len(),
        r.median_estimated_minutes == median_of(estimates(samples@)),
        r.median_actual_minutes == median_of(actuals(samples@)),
        r.median_difference_minutes == median_of(differences(samples@)),
        r.median_error_percent == median_of(errors(samples@)),
        r.bands@.len() == 4,
        forall|b: int| 0 <= b < 4 ==> (#[trigger] r.bands@[b]).label@ == band_label(b) && r.bands@[b].count == band_count(samples@, b),
        is_breakdowns(r.by_class@, samples@, true),
        is_breakdowns(r.by_task_type@, samples@, false),
        r.session_stats == session_stats,
        r.blocks == blocks,
{
    let (est, act, dif, err) = sample_columns(samples);
    EstimateAnalytics {
        sample_count: samples.len() as i64,
        median_estimated_minutes: median(&est),
        median_actual_minutes: median(&act),
        median_difference_minutes: median(&dif),
        median_error_percent: median(&err),
        bands: estimate_bands(samples),
        by_class: breakdowns(samples, true),
        by_task_type: breakdowns(samples, false),
        session_stats,
        blocks,
    }
}

/// How far a sample's actual time missed its estimate.
pub open spec fn miss(s: EstimateSample) -> int {
    let d = s.actual_minutes - s.estimated_minutes;
    if d >= 0 { d } else { -d }
}

/// The index `Iterator::max_by_key` picks by miss: a largest one, the last
/// of several equal.
pub open spec fn largest_miss_index(samples: Seq<EstimateSample>) -> int
    decreases samples.len(),
{
    if samples.len() <= 1 {
        0
    } else {
        let j = largest_miss_index(samples.drop_last());
        if miss(samples.last()) >= miss(samples[j]) { samples.len() - 1 } else { j }
    }
}

proof fn lemma_largest_miss_index(samples: Seq<EstimateSample>)
    requires
        samples.len() > 0,
    ensures
        0 <= largest_miss_index(samples) < samples.len(),
    decreases samples.len(),
{
    if samples.len() > 1 {
        lemma_largest_miss_index(samples.drop_last());
    }
}

/// Law: the sample the largest miss picks missed its estimate by at least as
/// many minutes, early or late, as every other sample.
pub proof fn largest_miss_is_largest(samples: Seq<EstimateSample>)
    requires
        samples.len() > 0,
    ensures
        0 <= largest_miss_index(samples) < samples.len(),
        forall|i: int| 0 <= i < samples.len() ==> {
            let d = (#[trigger] samples[i]).actual_minutes - samples[i].estimated_minutes;
            let b = samples[largest_miss_index(samples)].actual_minutes - samples[largest_miss_index(samples)].estimated_minutes;
            (if d >= 0 { d } else { -d }) <= (if b >= 0 { b } else { -b })
        },
    decreases samples.len(),
{
    lemma_largest_miss_index(samples);
    if samples.len() > 1 {
        let rest = samples.drop_last();
        largest_miss_is_largest(rest);
        let j = largest_miss_index(rest);
        assert(rest[j] == samples[j]);
        assert forall|i: int| 0 <= i < samples.len() implies {
            let d = (#[trigger] samples[i]).actual_minutes - samples[i].estimated_minutes;
            let b = samples[largest_miss_index(samples)].actual_minutes - samples[largest_miss_index(samples)].estimated_minutes;
            (if d >= 0 { d } else { -d }) <= (if b >= 0 { b } else { -b })
        } by {
            if i < samples.len() - 1 {
                assert(rest[i] == samples[i]);
            }
        }
    }
}

/// The sample whose actual time missed its estimate by most (the last of
/// equals), as reported in the weekly review.
pub fn largest_estimate_miss(samples: &Vec<EstimateSample>) -> (r: Option<EstimateMiss>)
    requires
        samples_fit(samples@),
    ensures
        samples@.len() == 0 <==> r is None,
        r matches Some(m) ==> ({
            let s = samples@[largest_miss_index(samples@)];
            &&& m.task_id == s.task_id
            &&& m.task_title == s.task_title
            &&& m.course_code == s.course_code
            &&& m.estimated_minutes == s.estimated_minutes
            &&& m.actual_minutes == s.actual_minutes
            &&& m.difference_minutes == s.actual_minutes - s.estimated_minutes
            &&& m.error_percent == error_pct(s.actual_minutes as int, s.estimated_minutes as int)
        }),
        r matches Some(m) ==> forall|i: int| 0 <= i < samples@.len() ==> {
            let d = (#[trigger] samples@[i]).actual_minutes - samples@[i].estimated_minutes;
            (if d >= 0 { d } else { -d }) <= (if m.difference_minutes >= 0 { m.difference_minutes as int } else { -m.difference_minutes })
        },
{
    if samples.len() == 0 {
        return None;
    }
    let mut best: usize = 0;
    let mut i: usize = 1;
    proof { assert(samples@.take(1).drop_last().len() == 0); }
    while i < samples.len()
        invariant
            1 <= i <= samples.len(),
            samples_fit(samples@),
            best < i,
            best as int == largest_miss_index(samples@.take(i as int)),
        decreases samples.len() - i,
    {
        proof {
            assert(samples@.take(i + 1).drop_last() =~= samples@.take(i as int));
            assert(samples@.take(i + 1).last() == samples@[i as int]);
            assert(samples@.take(i as int)[best as int] == samples@[best as int]);
            assert(percent_fits(samples@[i as int].actual_minutes, samples@[i as int].estimated_minutes));
            assert(percent_fits(samples@[best as int].actual_minutes, samples@[best as int].estimated_minutes));
        }
        let d_new = samples[i].actual_minutes - samples[i].estimated_minutes;
        let d_best = samples[best].actual_minutes - samples[best].estimated_minutes;
        let m_new = if d_new >= 0 { d_new } else { -d_new };
        let m_best = if d_best >= 0 { d_best } else { -d_best };
        if m_new >= m_best {
            best = i;
        }
        i += 1;
    }
    assert(samples@.take(samples.len() as int) =~= samples@);
    proof {
        largest_miss_is_largest(samples@);
    }
    let s = &samples[best];
    assert(percent_fits(samples@[best as int].actual_minutes, samples@[best as int].estimated_minutes));
    Some(EstimateMiss {
        task_id: s.task_id,
        task_title: s.task_title.clone(),
        course_code: s.course_code.clone(),
        estimated_minutes: s.estimated_minutes,
        actual_minutes: s.actual_minutes,
        difference_minutes: s.actual_minutes - s.estimated_minutes,
        error_percent: error_percent(s.actual_minutes, s.estimated_minutes),
    })
}


/// `i64::saturating_sub`.
pub open spec fn sat_sub(a: int, b: int) -> int {
    if a - b > i64::MAX { i64::MAX as int } else if a - b < i64::MIN { i64::MIN as int } else { a - b }
}

/// Minutes still needed for a task due on a day: its estimate less its
/// tracked whole minutes (saturating, not below zero), less the study
/// blocks planned for it up to its due date, not below zero.
pub open spec fn due_remaining(estimate: i64, tracked_seconds: i64, blocks: i64) -> int {
    let left = sat_sub(estimate as int, tdiv(tracked_seconds as int, 60));
    let left = if left > 0 { left } else { 0 };
    let r = left - blocks;
    if r > 0 { r } else { 0 }
}

/// The remaining minutes of each due task.
pub open spec fn due_remainings(rows: Seq<(i64, i64, i64)>) -> Seq<int> {
    rows.map_values(|t: (i64, i64, i64)| due_remaining(t.0, t.1, t.2))
}

/// The row's figures keep every step within `i64`.
pub open spec fn due_row_fits(t: (i64, i64, i64)) -> bool {
    let left = sat_sub(t.0 as int, tdiv(t.1 as int, 60));
    let left = if left > 0 { left } else { 0 };
    i64::MIN <= left - t.2 <= i64::MAX
}

/// The minutes still due per row.
fn due_remaining_list(due_rows: &Vec<(i64, i64, i64)>) -> (rem: Vec<i64>)
    requires
        forall|i: int| 0 <= i < due_rows@.len() ==> due_row_fits(#[trigger] due_rows@[i]),
    ensures
        as_ints(rem@) == due_remainings(due_rows@),
{
    let mut rem: Vec<i64> = Vec::new();
    let mut i: usize = 0;
    while i < due_rows.len()
        invariant
            i <= due_rows.len(),
            forall|k: int| 0 <= k < due_rows@.len() ==> due_row_fits(#[trigger] due_rows@[k]),
            rem@.len() == i,
            forall|k: int| 0 <= k < i ==> rem@[k] as int == due_remaining(due_rows@[k].0, due_rows@[k].1, due_rows@[k].2),
        decreases due_rows.len() - i,
    {
        let (estimate, spent, blocks) = due_rows[i];
        assert(due_row_fits(due_rows@[i as int]));
        let actual = div_trunc(spent, 60);
        let wide: i128 = estimate as i128 - actual as i128;
        let left: i64 = if wide > i64::MAX as i128 { i64::MAX } else if wide < i64::MIN as i128 { i64::MIN } else { wide as i64 };
        let left = if left > 0 { left } else { 0 };
        let r = left - blocks;
        rem.push(if r > 0 { r } else { 0 });
        i += 1;
    }
    assert(as_ints(rem@) =~= due_remainings(due_rows@));
    rem
}

/// Whether a row's figures keep every step within `i64` (`due_row_fits`).
fn due_row_fits_exec(t: (i64, i64, i64)) -> (r: bool)
    ensures
        r == due_row_fits(t),
{
    let (estimate, spent, blocks) = t;
    let actual = div_trunc(spent, 60);
    let wide: i128 = estimate as i128 - actual as i128;
    let left: i128 = if wide > i64::MAX as i128 { i64::MAX as i128 } else if wide < i64::MIN as i128 { i64::MIN as i128 } else { wide };
    let left: i128 = if left > 0 { left } else { 0 };
    let d: i128 = left - blocks as i128;
    d >= i64::MIN as i128 && d <= i64::MAX as i128
}

/// Whether `workload_day` can lay out a day from these figures: each due
/// row keeps its steps within `i64`, and so do the sums, differences and
/// the hundredfold load the day forms.
pub fn workload_fits(available_minutes: Option<i64>, scheduled_block_minutes: i64, due_rows: &Vec<(i64, i64, i64)>) -> (r: bool)
    ensures
        r == ({
            &&& forall|i: int| 0 <= i < due_rows@.len() ==> due_row_fits(#[trigger] due_rows@[i])
            &&& sums_fit(due_remainings(due_rows@))
            &&& (available_minutes matches Some(c) ==> i64::MIN <= c - scheduled_block_minutes <= i64::MAX)
            &&& i64::MIN <= scheduled_block_minutes + total(due_remainings(due_rows@)) <= i64::MAX
            &&& (available_minutes matches Some(c)
                ==> i64::MIN <= scheduled_block_minutes + total(due_remainings(due_rows@)) - c <= i64::MAX)
            &&& i64::MIN <= (scheduled_block_minutes + total(due_remainings(due_rows@))) * 100 <= i64::MAX
        }),
{
    let mut i: usize = 0;
    while i < due_rows.len()
        invariant
            i <= due_rows.len(),
            forall|k: int| 0 <= k < i ==> due_row_fits(#[trigger] due_rows@[k]),
        decreases due_rows.len() - i,
    {
        if !due_row_fits_exec(due_rows[i]) {
            return false;
        }
        i += 1;
    }
    let rem = due_remaining_list(due_rows);
    if !sums_fit_exec(&rem) {
        return false;
    }
    let due = sum_i64(&rem);
    let s: i128 = scheduled_block_minutes as i128 + due as i128;
    if s < i64::MIN as i128 || s > i64::MAX as i128 {
        return false;
    }
    if s * 100 < i64::MIN as i128 || s * 100 > i64::MAX as i128 {
        return false;
    }
    match available_minutes {
        Some(c) => {
            let a: i128 = c as i128 - scheduled_block_minutes as i128;
            let o: i128 = s - c as i128;
            a >= i64::MIN as i128 && a <= i64::MAX as i128 && o >= i64::MIN as i128 && o <= i64::MAX as i128
        },
        None => true,
    }
}

/// One day of the workload: capacity, the day's uncompleted planned blocks,
/// the minutes still due that day, and what that leaves or overflows.
pub fn workload_day(
    date: String,
    available_minutes: Option<i64>,
    scheduled_block_minutes: i64,
    due_rows: &Vec<(i64, i64, i64)>,
) -> (r: WorkloadDay)
    requires
        forall|i: int| 0 <= i < due_rows@.len() ==> due_row_fits(#[trigger] due_rows@[i]),
        sums_fit(due_remainings(due_rows@)),
        available_minutes matches Some(c) ==> i64::MIN <= c - scheduled_block_minutes <= i64::MAX,
        i64::MIN <= scheduled_block_minutes + total(due_remainings(due_rows@)) <= i64::MAX,
        available_minutes matches Some(c) ==> i64::MIN <= scheduled_block_minutes + total(due_remainings(due_rows@)) - c <= i64::MAX,
        i64::MIN <= (scheduled_block_minutes + total(due_remainings(due_rows@))) * 100 <= i64::MAX,
    ensures
        r.date == date,
        r.available_minutes == available_minutes,
        r.scheduled_block_minutes == scheduled_block_minutes,
        r.remaining_due_minutes == total(due_remainings(due_rows@)),
        r.remaining_capacity_minutes == match available_minutes {
            Some(c) => Some((c - scheduled_block_minutes) as i64),
            None => None,
        },
        r.overflow_minutes == match available_minutes {
            Some(c) => {
                let o = scheduled_block_minutes + total(due_remainings(due_rows@)) - c;
                if o > 0 { o } else { 0 }
            },
            None => 0,
        },
        r.load_percent == match available_minutes {
            Some(c) if c > 0 => Some(tdiv((scheduled_block_minutes + total(due_remainings(due_rows@))) * 100, c as int) as i64),
            _ => None,
        },
{
    let rem = due_remaining_list(due_rows);
    let remaining_due_minutes = sum_i64(&rem);
    let remaining_capacity_minutes = match available_minutes {
        Some(c) => Some(c - scheduled_block_minutes),
        None => None,
    };
    let overflow_minutes: i64 = match available_minutes {
        Some(c) => {
            let o = scheduled_block_minutes + remaining_due_minutes - c;
            if o > 0 { o } else { 0 }
        },
        None => 0,
    };
    let load_percent = match available_minutes {
        Some(c) => if c > 0 {
            let q = div_trunc((scheduled_block_minutes + remaining_due_minutes) * 100, c);
            proof {
                let x = (scheduled_block_minutes + remaining_due_minutes) * 100;
                assert(i64::MIN <= tdiv(x as int, c as int) <= i64::MAX) by (nonlinear_arith)
                    requires c > 0, i64::MIN <= x <= i64::MAX,
                        tdiv(x as int, c as int) == if x >= 0 { (x as int) / (c as int) } else { -((-(x as int)) / (c as int)) };
            }
            Some(q)
        } else {
            None
        },
        None => None,
    };
    WorkloadDay {
        date,
        available_minutes,
        scheduled_block_minutes,
        remaining_due_minutes,
        remaining_capacity_minutes,
        overflow_minutes,
        load_percent,
    }
}

/// Positive parts of the remaining figures.
pub open spec fn positive_parts(rows: Seq<(i64, i64)>) -> Seq<int> {
    rows.map_values(|t: (i64, i64)| if t.0 > 0 { t.0 as int } else { 0 })
}

/// Planned figures.
pub open spec fn planned_parts(rows: Seq<(i64, i64)>) -> Seq<int> {
    rows.map_values(|t: (i64, i64)| t.1 as int)
}

/// Schedule coverage in percent: study blocks planned before the due dates
/// against the remaining estimated minutes of the tasks due, capped at 100;
/// 100 when nothing remains.
pub open spec fn coverage_spec(rows: Seq<(i64, i64)>) -> int {
    let remaining = total(positive_parts(rows));
    let planned = total(planned_parts(rows));
    if remaining > 0 {
        let p = tdiv(planned * 100, remaining);
        if p < 100 { p } else { 100 }
    } else {
        100
    }
}

/// The positive remaining figures and the planned figures, as columns.
fn coverage_columns(rows: &Vec<(i64, i64)>) -> (r: (Vec<i64>, Vec<i64>))
    ensures
        as_ints(r.0@) == positive_parts(rows@),
        as_ints(r.1@) == planned_parts(rows@),
{
    let mut rem: Vec<i64> = Vec::new();
    let mut plan: Vec<i64> = Vec::new();
    let mut i: usize = 0;
    while i < rows.len()
        invariant
            i <= rows.len(),
            rem@.len() == i,
            plan@.len() == i,
            forall|k: int| 0 <= k < i ==> rem@[k] as int == (if rows@[k].0 > 0 { rows@[k].0 as int } else { 0 }),
            forall|k: int| 0 <= k < i ==> plan@[k] == rows@[k].1,
        decreases rows.len() - i,
    {
        let (r0, p0) = rows[i];
        rem.push(if r0 > 0 { r0 } else { 0 });
        plan.push(p0);
        i += 1;
    }
    assert(as_ints(rem@) =~= positive_parts(rows@));
    assert(as_ints(plan@) =~= planned_parts(rows@));
    (rem, plan)
}

proof fn lemma_total_nonneg(s: Seq<int>)
    requires
        forall|i: int| 0 <= i < s.len() ==> #[trigger] s[i] >= 0,
    ensures
        total(s) >= 0,
    decreases s.len(),
{
    if s.len() > 0 {
        lemma_total_nonneg(s.drop_last());
    }
}

/// Law: with no negative planned figures, schedule coverage lies between
/// 0 and 100 percent.
pub proof fn coverage_is_a_percentage(rows: Seq<(i64, i64)>)
    requires
        forall|i: int| 0 <= i < rows.len() ==> (#[trigger] rows[i]).1 >= 0,
    ensures
        0 <= coverage_spec(rows) <= 100,
{
    let planned = planned_parts(rows);
    assert forall|i: int| 0 <= i < planned.len() implies #[trigger] planned[i] >= 0 by {
        assert(planned[i] == rows[i].1);
    }
    lemma_total_nonneg(planned);
    let remaining = total(positive_parts(rows));
    if remaining > 0 {
        let x = total(planned) * 100;
        assert(x >= 0) by (nonlinear_arith)
            requires
                total(planned) >= 0,
                x == total(planned) * 100,
        ;
        assert(x / remaining >= 0) by (nonlinear_arith)
            requires
                x >= 0,
                remaining > 0,
        ;
    }
}

/// Whether `schedule_coverage` can total these rows: the running totals of
/// both columns fit an `i64`, as does the planned total times 100.
pub fn coverage_fits(rows: &Vec<(i64, i64)>) -> (r: bool)
    ensures
        r == (sums_fit(positive_parts(rows@)) && sums_fit(planned_parts(rows@))
            && i64::MIN <= total(planned_parts(rows@)) * 100 <= i64::MAX),
{
    let (rem, plan) = coverage_columns(rows);
    if !sums_fit_exec(&rem) || !sums_fit_exec(&plan) {
        return false;
    }
    let planned = sum_i64(&plan);
    planned.checked_mul(100).is_some()
}

/// Schedule coverage over `(remaining minutes, planned block minutes)` rows.
pub fn schedule_coverage(rows: &Vec<(i64, i64)>) -> (r: i64)
    requires
        sums_fit(positive_parts(rows@)),
        sums_fit(planned_parts(rows@)),
        i64::MIN <= total(planned_parts(rows@)) * 100 <= i64::MAX,
    ensures
        r as int == coverage_spec(rows@),
{
    let (rem, plan) = coverage_columns(rows);
    let remaining = sum_i64(&rem);
    let planned = sum_i64(&plan);
    if remaining > 0 {
        let p = div_trunc(planned * 100, remaining);
        if p < 100 { p } else { 100 }
    } else {
        100
    }
}

/// The settings key of a weekday's study capacity.
pub open spec fn capacity_key_text(weekday: nat) -> Seq<char> {
    "study_capacity_"@ + decimal(weekday)
}

/// `study_capacity_{weekday}`.
pub fn capacity_key(weekday: u32) -> (r: String)
    ensures
        r@ == capacity_key_text(weekday as nat),
{
    let mut v: Vec<char> = Vec::new();
    push_str(&mut v, "study_capacity_");
    push_decimal(&mut v, weekday as u64);
    string_of(v.as_slice())
}

/// The weekday (Monday = 1) whose capacity applies to a date; Monday when
/// the date cannot be read.
pub fn capacity_weekday(date: &str) -> (r: u32)
    ensures
        r as int == match parsed_ymd(date@) {
            Some(d) => weekday_of(d),
            None => 1,
        },
{
    match parse_ymd(date) {
        Some(d) => weekday_from_monday(d),
        None => 1,
    }
}

/// A day's capacity: its own override if set, else its weekday's setting.
pub fn capacity_choice(override_minutes: Option<i64>, weekday_minutes: Option<i64>) -> (r: Option<i64>)
    ensures
        r == if override_minutes is Some { override_minutes } else { weekday_minutes },
{
    if override_minutes.is_some() { override_minutes } else { weekday_minutes }
}

/// The days from `start_date` through `end_date`, printed as chrono prints
/// them; an error where either date cannot be read or a day cannot be
/// printed.
pub fn review_days(start_date: &str, end_date: &str) -> (r: Result<Vec<String>, String>)
    ensures
        parsed_ymd(start_date@) is None || parsed_ymd(end_date@) is None ==> r is Err,
        parsed_ymd(start_date@) matches Some(s) ==> (parsed_ymd(end_date@) matches Some(e) ==> (
            (r is Ok <==> forall|o: int| 0 <= o <= e - s ==> #[trigger] printable(s + o))
            && (r matches Ok(v) ==> v.len() == (if e >= s { e - s + 1 } else { 0 })
                && forall|o: int| 0 <= o < v.len() ==> Some((#[trigger] v@[o])@) == printed_ymd(s + o)))),
{
    let s = match parse_ymd(start_date) {
        None => {
            return Err(message("Choose a valid start date."));
        },
        Some(s) => s,
    };
    let e = match parse_ymd(end_date) {
        None => {
            return Err(message("Choose a valid end date."));
        },
        Some(e) => e,
    };
    let mut out: Vec<String> = Vec::new();
    let mut d: i64 = s as i64;
    while d <= e as i64
        invariant
            parsed_ymd(start_date@) == Some(s as int),
            parsed_ymd(end_date@) == Some(e as int),
            -100_000_000 < s < 100_000_000,
            -100_000_000 < e < 100_000_000,
            s <= d <= (if e >= s { e + 1 } else { s as int }),
            out.len() == d - s,
            forall|o: int| 0 <= o < out.len() ==> Some((#[trigger] out@[o])@) == printed_ymd(s + o),
            forall|o: int| 0 <= o < d - s ==> #[trigger] printable(s + o),
        decreases e - d + 1,
    {
        match print_day(d) {
            Some(t) => {
                out.push(t);
                proof {
                    assert(out@[out.len() - 1] == t);
                    assert(printable(s + (d - s)));
                }
            },
            None => {
                proof {
                    let o: int = d - s;
                    assert(0 <= o <= e - s);
                    assert(s + o == d);
                    assert(!printable(s + o));
                    assert(!(forall|q: int| 0 <= q <= e - s ==> #[trigger] printable(s + q)));
                }
                return Err(message("Choose a valid start date."));
            },
        }
        d += 1;
    }
    Ok(out)
}

/// The class with the most tracked time: the first one with the largest
/// tracked seconds, `None` without classes.
pub fn most_time_class(by_class: &Vec<ClassTotal>) -> (r: Option<ClassTotal>)
    ensures
        by_class.len() == 0 <==> r is None,
        r matches Some(c) ==> exists|i: int| 0 <= i < by_class.len() && #[trigger] by_class@[i] == c
            && (forall|j: int| 0 <= j < by_class.len() ==> (#[trigger] by_class@[j]).tracked_seconds <= c.tracked_seconds)
            && (forall|j: int| 0 <= j < i ==> (#[trigger] by_class@[j]).tracked_seconds < c.tracked_seconds),
{
    if by_class.len() == 0 {
        return None;
    }
    let mut best: usize = 0;
    let mut k: usize = 1;
    while k < by_class.len()
        invariant
            1 <= k <= by_class.len(),
            best < k,
            forall|j: int| 0 <= j < k ==> (#[trigger] by_class@[j]).tracked_seconds <= by_class@[best as int].tracked_seconds,
            forall|j: int| 0 <= j < best ==> (#[trigger] by_class@[j]).tracked_seconds < by_class@[best as int].tracked_seconds,
        decreases by_class.len() - k,
    {
        if by_class[k].tracked_seconds > by_class[best].tracked_seconds {
            best = k;
        }
        k += 1;
    }
    let b = &by_class[best];
    let c = ClassTotal { class_id: b.class_id, course_code: b.course_code.clone(), tracked_seconds: b.tracked_seconds };
    assert(by_class@[best as int] == c);
    Some(c)
}

/// The end date of the review week starting at `start_date` (six days later).
pub fn review_end_date(start_date: &str) -> (r: Result<String, String>)
    ensures
        parsed_ymd(start_date@) is None ==> (r matches Err(m) && m@ == "Choose a valid start date."@),
        parsed_ymd(start_date@) matches Some(d) ==> (match crate::dates::printed_ymd(d + 6) {
            Some(t) => r matches Ok(e) && e@ == t,
            None => r is Err,
        }),
{
    match parse_ymd(start_date) {
        None => Err(message("Choose a valid start date.")),
        Some(d) => {
            match crate::dates::print_ymd(d + 6) {
                Some(t) => Ok(t),
                None => Err(message("Choose a valid start date.")),
            }
        },
    }
}

/// The SQL expression of the local calendar date of a due value in
/// `column`: a date-only value (ten characters) as it is, a timestamp in
/// local time.
pub open spec fn due_date_text(column: Seq<char>) -> Seq<char> {
    "CASE WHEN length("@ + column + ")=10 THEN date("@ + column + ") ELSE date("@ + column + ",'localtime') END"@
}

/// The SQL expression of a due value's local date.
pub fn due_date_expr(column: &str) -> (r: String)
    ensures
        r@ == due_date_text(column@),
{
    let mut v: Vec<char> = Vec::new();
    push_str(&mut v, "CASE WHEN length(");
    push_str(&mut v, column);
    push_str(&mut v, ")=10 THEN date(");
    push_str(&mut v, column);
    push_str(&mut v, ") ELSE date(");
    push_str(&mut v, column);
    push_str(&mut v, ",'localtime') END");
    string_of(v.as_slice())
}

} // verus!
