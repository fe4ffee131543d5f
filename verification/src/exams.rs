//! Exams with their study tasks, the semester dashboard, and the exam
//! countdown notices.
use vstd::prelude::*;
use crate::dates::{parse_ymd, parsed_ymd};
use crate::num::{div_trunc, sums_fit, tdiv, total};
use crate::text::{
    decimal, is_blank, message, push_decimal, push_signed, push_str, signed_decimal, signed_decimal_has_no_underscore,
    signed_decimal_injective, string_of, trim, trimmed,
};

verus! {

/// An exam with the minutes studied for it.
pub struct Exam {
    pub id: i64,
    pub class_id: i64,
    pub course_code: String,
    pub title: String,
    pub exam_date: String,
    pub target_study_minutes: Option<i64>,
    pub tracked_minutes: i64,
    pub study_task_id: Option<i64>,
}

/// An exam to create.
pub struct NewExam {
    pub class_id: i64,
    pub title: String,
    pub exam_date: String,
    pub target_study_minutes: Option<i64>,
}

/// One class of the semester dashboard.
pub struct SemesterClassSummary {
    pub class_id: i64,
    pub course_code: String,
    pub tracked_seconds: i64,
    pub completed_tasks: i64,
    pub open_tasks: i64,
    pub upcoming_deadlines: i64,
}

/// The semester dashboard: per-class figures and their totals.
pub struct SemesterDashboard {
    pub semester: String,
    pub tracked_seconds: i64,
    pub completed_tasks: i64,
    pub upcoming_deadlines: i64,
    pub classes: Vec<SemesterClassSummary>,
}

/// What is wrong with a new exam, if anything; `class_active` tells whether
/// its class exists and is active.
pub open spec fn exam_problem(input: NewExam, class_active: bool) -> Option<Seq<char>> {
    if trimmed(input.title@).len() == 0 {
        Some("Exam title cannot be empty."@)
    } else if parsed_ymd(input.exam_date@) is None {
        Some("Choose a valid exam date."@)
    } else if input.target_study_minutes matches Some(m) && m < 0 {
        Some("Study target cannot be negative."@)
    } else if !class_active {
        Some("Class not found."@)
    } else {
        None
    }
}

/// Checks a new exam.
pub fn check_new_exam(input: &NewExam, class_active: bool) -> (r: Result<(), String>)
    ensures
        match exam_problem(*input, class_active) {
            Some(m) => r matches Err(e) && e@ == m,
            None => r is Ok,
        },
{
    if is_blank(input.title.as_str()) {
        return Err(message("Exam title cannot be empty."));
    }
    if parse_ymd(input.exam_date.as_str()).is_none() {
        return Err(message("Choose a valid exam date."));
    }
    let negative = match input.target_study_minutes {
        Some(m) => m < 0,
        None => false,
    };
    if negative {
        return Err(message("Study target cannot be negative."));
    }
    if !class_active {
        return Err(message("Class not found."));
    }
    Ok(())
}

/// The title of an exam's study task: "Exam prep · " and the trimmed title.
pub fn exam_task_title(title: &str) -> (r: String)
    ensures
        r@ == "Exam prep · "@ + trimmed(title@),
{
    let mut v: Vec<char> = Vec::new();
    push_str(&mut v, "Exam prep · ");
    let t = trim(title);
    push_str(&mut v, t.as_str());
    string_of(v.as_slice())
}

/// Whole minutes of tracked seconds (rounding toward zero).
pub fn whole_minutes(seconds: i64) -> (r: i64)
    ensures
        r as int == tdiv(seconds as int, 60),
{
    div_trunc(seconds, 60)
}

/// The figures of some class summaries.
pub open spec fn dashboard_column(classes: Seq<SemesterClassSummary>, which: int) -> Seq<int> {
    Seq::new(classes.len(), |i: int| if which == 0 {
        classes[i].tracked_seconds as int
    } else if which == 1 {
        classes[i].completed_tasks as int
    } else {
        classes[i].upcoming_deadlines as int
    })
}

fn column_total(classes: &Vec<SemesterClassSummary>, which: u8) -> (r: i64)
    requires
        which <= 2,
        sums_fit(dashboard_column(classes@, which as int)),
    ensures
        r as int == total(dashboard_column(classes@, which as int)),
{
    let ghost col = dashboard_column(classes@, which as int);
    let mut acc: i64 = 0;
    let mut i: usize = 0;
    while i < classes.len()
        invariant
            which <= 2,
            col == dashboard_column(classes@, which as int),
            i <= classes.len(),
            sums_fit(col),
            acc as int == total(col.take(i as int)),
        decreases classes.len() - i,
    {
        assert(col.take(i + 1).drop_last() =~= col.take(i as int));
        assert(i64::MIN <= total(col.take(i + 1)) <= i64::MAX);
        let c = &classes[i];
        let v = if which == 0 {
            c.tracked_seconds
        } else if which == 1 {
            c.completed_tasks
        } else {
            c.upcoming_deadlines
        };
        assert(col.take(i + 1).last() == v as int);
        acc = acc + v;
        i += 1;
    }
    assert(col.take(classes.len() as int) =~= col);
    acc
}

/// One column of the dashboard rows as values.
fn column_values(classes: &Vec<SemesterClassSummary>, which: u8) -> (r: Vec<i64>)
    requires
        which <= 2,
    ensures
        crate::num::as_ints(r@) == dashboard_column(classes@, which as int),
{
    let mut out: Vec<i64> = Vec::new();
    let mut i: usize = 0;
    while i < classes.len()
        invariant
            which <= 2,
            i <= classes.len(),
            out@.len() == i,
            forall|k: int| 0 <= k < i ==> out@[k] as int == #[trigger] dashboard_column(classes@, which as int)[k],
        decreases classes.len() - i,
    {
        let c = &classes[i];
        let v = if which == 0 {
            c.tracked_seconds
        } else if which == 1 {
            c.completed_tasks
        } else {
            c.upcoming_deadlines
        };
        out.push(v);
        i += 1;
    }
    assert(crate::num::as_ints(out@) =~= dashboard_column(classes@, which as int));
    out
}

/// Whether `semester_dashboard` can total these rows: every running total
/// of each column fits an `i64`.
pub fn dashboard_fits(classes: &Vec<SemesterClassSummary>) -> (r: bool)
    ensures
        r == (sums_fit(dashboard_column(classes@, 0)) && sums_fit(dashboard_column(classes@, 1))
            && sums_fit(dashboard_column(classes@, 2))),
{
    crate::num::sums_fit_exec(&column_values(classes, 0)) && crate::num::sums_fit_exec(&column_values(classes, 1))
        && crate::num::sums_fit_exec(&column_values(classes, 2))
}

/// The semester dashboard over its classes (active classes of the
/// semester, by course code): the totals of tracked time, completed tasks
/// and deadlines in the next two weeks.
pub fn semester_dashboard(semester: String, classes: Vec<SemesterClassSummary>) -> (r: SemesterDashboard)
    requires
        sums_fit(dashboard_column(classes@, 0)),
        sums_fit(dashboard_column(classes@, 1)),
        sums_fit(dashboard_column(classes@, 2)),
    ensures
        r.semester == semester,
        r.classes@ == classes@,
        r.tracked_seconds as int == total(dashboard_column(classes@, 0)),
        r.completed_tasks as int == total(dashboard_column(classes@, 1)),
        r.upcoming_deadlines as int == total(dashboard_column(classes@, 2)),
{
    let tracked_seconds = column_total(&classes, 0);
    let completed_tasks = column_total(&classes, 1);
    let upcoming_deadlines = column_total(&classes, 2);
    SemesterDashboard { semester, tracked_seconds, completed_tasks, upcoming_deadlines, classes }
}

/// An upcoming exam considered for a countdown notice.
pub struct DueExam {
    pub id: i64,
    pub title: String,
    pub course_code: String,
    pub exam_date: String,
    pub target_study_minutes: Option<i64>,
    pub tracked_minutes: i64,
}

/// How many days before an exam its countdown starts.
pub open spec fn warn_days() -> int {
    3
}

/// The days from today to the exam, when its date reads and the exam is
/// today or within the warning days.
pub open spec fn countdown_days(exam_date: Seq<char>, today: int) -> Option<int> {
    match parsed_ymd(exam_date) {
        Some(d) => if 0 <= d - today <= warn_days() { Some(d - today) } else { None },
        None => None,
    }
}

/// The days left before an exam, when a countdown notice is due for it.
pub fn days_until_exam(exam_date: &str, today: i32) -> (r: Option<i64>)
    ensures
        opt_int(r) == countdown_days(exam_date@, today as int),
{
    match parse_ymd(exam_date) {
        Some(d) => {
            let left: i64 = d as i64 - today as i64;
            if 0 <= left && left <= 3 {
                Some(left)
            } else {
                None
            }
        },
        None => None,
    }
}

/// An optional machine integer as an optional integer.
pub open spec fn opt_int(v: Option<i64>) -> Option<int> {
    match v {
        Some(x) => Some(x as int),
        None => None,
    }
}

/// The setting that records a notice for an exam on a day:
/// `exam_countdown_notified_{id}_{today}`.
pub fn countdown_key(exam_id: i64, today: &str) -> (r: String)
    ensures
        r@ == countdown_key_text(exam_id, today@),
{
    let mut v: Vec<char> = Vec::new();
    push_str(&mut v, "exam_countdown_notified_");
    push_signed(&mut v, exam_id);
    push_str(&mut v, "_");
    push_str(&mut v, today);
    string_of(v.as_slice())
}

/// The setting that records a notice for exam `id` on day `today`.
pub open spec fn countdown_key_text(id: i64, today: Seq<char>) -> Seq<char> {
    "exam_countdown_notified_"@ + signed_decimal(id as int) + "_"@ + today
}

/// Law: a countdown setting names one exam and one day, so each exam is
/// noticed at most once a day and never silenced by another exam's notice.
pub proof fn countdown_keys_identify_exam_and_day(id1: i64, today1: Seq<char>, id2: i64, today2: Seq<char>)
    requires
        countdown_key_text(id1, today1) == countdown_key_text(id2, today2),
    ensures
        id1 == id2,
        today1 == today2,
{
    reveal_strlit("exam_countdown_notified_");
    reveal_strlit("_");
    let p = "exam_countdown_notified_"@;
    let s1 = signed_decimal(id1 as int);
    let s2 = signed_decimal(id2 as int);
    let k1 = countdown_key_text(id1, today1);
    let k2 = countdown_key_text(id2, today2);
    signed_decimal_has_no_underscore(id1 as int);
    signed_decimal_has_no_underscore(id2 as int);
    let b = p.len() as int;
    if s1.len() < s2.len() {
        assert(k1[b + s1.len()] == '_');
        assert(k2[b + s1.len()] == s2[s1.len() as int]);
    } else if s2.len() < s1.len() {
        assert(k2[b + s2.len()] == '_');
        assert(k1[b + s2.len()] == s1[s2.len() as int]);
    } else {
        assert(s1 =~= k1.subrange(b, b + s1.len()));
        assert(s2 =~= k2.subrange(b, b + s2.len()));
        assert(today1 =~= k1.subrange(b + s1.len() + 1, k1.len() as int));
        assert(today2 =~= k2.subrange(b + s2.len() + 1, k2.len() as int));
        signed_decimal_injective(id1 as int, id2 as int);
    }
}

/// "today", "tomorrow", or "in N days".
pub open spec fn day_word(days_left: int) -> Seq<char> {
    if days_left == 0 {
        "today"@
    } else if days_left == 1 {
        "tomorrow"@
    } else {
        "in "@ + signed_decimal(days_left) + " days"@
    }
}

fn day_word_text(days_left: i64) -> (r: Vec<char>)
    ensures
        r@ == day_word(days_left as int),
{
    let mut v: Vec<char> = Vec::new();
    if days_left == 0 {
        push_str(&mut v, "today");
    } else if days_left == 1 {
        push_str(&mut v, "tomorrow");
    } else {
        push_str(&mut v, "in ");
        push_signed(&mut v, days_left);
        push_str(&mut v, " days");
    }
    v
}

/// The text of an exam's countdown notice, with hours logged (and planned,
/// when a positive study target is set) in whole hours.
pub open spec fn countdown_body(exam: DueExam, days_left: int) -> Seq<char> {
    let head = exam.title@ + " ("@ + exam.course_code@ + ") is "@ + day_word(days_left) + ". You've logged "@
        + signed_decimal(tdiv(exam.tracked_minutes as int, 60)) + "h of "@;
    match exam.target_study_minutes {
        Some(target) => if target > 0 {
            head + "the "@ + signed_decimal(tdiv(target as int, 60)) + "h you planned to study."@
        } else {
            head + "study time so far."@
        },
        None => head + "study time so far."@,
    }
}

/// The countdown notice for an exam `days_left` days away.
pub fn countdown_notice(exam: &DueExam, days_left: i64) -> (r: String)
    ensures
        r@ == countdown_body(*exam, days_left as int),
{
    let mut v: Vec<char> = Vec::new();
    push_str(&mut v, exam.title.as_str());
    push_str(&mut v, " (");
    push_str(&mut v, exam.course_code.as_str());
    push_str(&mut v, ") is ");
    let w = day_word_text(days_left);
    let ghost before = v@;
    let mut i: usize = 0;
    while i < w.len()
        invariant
            i <= w.len(),
            v@ == before + w@.take(i as int),
        decreases w.len() - i,
    {
        v.push(w[i]);
        assert(v@ =~= before + w@.take(i + 1));
        i += 1;
    }
    assert(w@.take(w.len() as int) =~= w@);
    push_str(&mut v, ". You've logged ");
    push_signed(&mut v, div_trunc(exam.tracked_minutes, 60));
    push_str(&mut v, "h of ");
    let planned = match exam.target_study_minutes {
        Some(target) => if target > 0 { Some(target) } else { None },
        None => None,
    };
    match planned {
        Some(target) => {
            push_str(&mut v, "the ");
            push_signed(&mut v, div_trunc(target, 60));
            push_str(&mut v, "h you planned to study.");
        },
        None => {
            push_str(&mut v, "study time so far.");
        },
    }
    let r = string_of(v.as_slice());
    assert(r@ =~= countdown_body(*exam, days_left as int));
    r
}

} // verus!
