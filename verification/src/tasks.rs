//! Tasks: their fields, the checks on new and edited tasks, tag
//! normalisation and the remaining-time figure.
use vstd::prelude::*;
use crate::dates::{parse_ymd, parsed_ymd};
use crate::num::{div_trunc, tdiv};
use crate::text::{
    all_ws, chars_of, is_blank, lowercased, one_of, push_str, str_eq, string_of, to_lowercase, trim,
    trimmed,
};
use crate::text::message;
use vstd::string::StringSliceAdditionalSpecFns;

verus! {

/// A task with its tracked-time aggregates.
#[derive(Clone)]
pub struct Task {
    pub id: i64,
    pub class_id: i64,
    pub parent_task_id: Option<i64>,
    pub title: String,
    pub description: Option<String>,
    pub status: String,
    pub priority: Option<i64>,
    pub due_at: Option<String>,
    pub scheduled_date: Option<String>,
    pub estimated_minutes: Option<i64>,
    pub source: String,
    pub external_id: Option<String>,
    pub completed_at: Option<String>,
    /// Finished time on the task and all its descendants.
    pub tracked_seconds: i64,
    /// Finished time started on this exact task.
    pub tracked_seconds_direct: i64,
    pub remaining_minutes: Option<i64>,
    pub external_state: String,
    pub task_type: String,
    pub tags: Vec<String>,
    pub time_budget_minutes: Option<i64>,
}

/// A task not yet scheduled, with its class's course code.
pub struct InboxTask {
    pub task: Task,
    pub course_code: String,
}

/// The fields of a task to create.
pub struct NewTask {
    pub class_id: i64,
    pub parent_task_id: Option<i64>,
    pub title: String,
    pub description: Option<String>,
    pub priority: Option<i64>,
    pub due_at: Option<String>,
    pub scheduled_date: Option<String>,
    pub estimated_minutes: Option<i64>,
    pub task_type: Option<String>,
    pub tags: Option<Vec<String>>,
    pub time_budget_minutes: Option<i64>,
}

/// The editable fields of a task.
pub struct UpdateTask {
    pub id: i64,
    pub title: String,
    pub description: Option<String>,
    pub priority: Option<i64>,
    pub due_at: Option<String>,
    pub scheduled_date: Option<String>,
    pub estimated_minutes: Option<i64>,
    pub task_type: Option<String>,
    pub tags: Option<Vec<String>>,
    pub time_budget_minutes: Option<i64>,
}

/// Minutes of estimate left: the estimate less the whole minutes tracked
/// directly on the task, never below zero; none without an estimate.
pub open spec fn remaining_of(estimated: Option<i64>, tracked_seconds_direct: i64) -> Option<int> {
    match estimated {
        Some(e) => {
            let r = e - tdiv(tracked_seconds_direct as int, 60);
            Some(if r > 0 { r } else { 0 })
        },
        None => None,
    }
}

/// Whether `remaining_minutes` can subtract: the estimate less the whole
/// tracked minutes fits an `i64`.
pub fn remaining_fits(estimated: Option<i64>, tracked_seconds_direct: i64) -> (r: bool)
    ensures
        r == (estimated matches Some(e) ==> i64::MIN <= e - tdiv(tracked_seconds_direct as int, 60) <= i64::MAX),
{
    match estimated {
        Some(e) => e.checked_sub(div_trunc(tracked_seconds_direct, 60)).is_some(),
        None => true,
    }
}

/// The remaining minutes shown for a task.
pub fn remaining_minutes(estimated: Option<i64>, tracked_seconds_direct: i64) -> (r: Option<i64>)
    requires
        estimated matches Some(e) ==> i64::MIN <= e - tdiv(tracked_seconds_direct as int, 60) <= i64::MAX,
    ensures
        r is Some == estimated is Some,
        r matches Some(m) ==> remaining_of(estimated, tracked_seconds_direct) == Some(m as int),
{
    match estimated {
        Some(e) => {
            let left = e - div_trunc(tracked_seconds_direct, 60);
            Some(if left > 0 { left } else { 0 })
        },
        None => None,
    }
}

/// The task types a task may have.
pub open spec fn task_types() -> Seq<Seq<char>> {
    seq!["assignment"@, "reading"@, "problem_set"@, "exam"@, "project"@, "other"@]
}

/// Whether `t` is one of the task types.
pub fn is_task_type(t: &str) -> (r: bool)
    ensures
        r == one_of(t@, task_types()),
{
    proof {
        reveal_strlit("assignment");
        reveal_strlit("reading");
        reveal_strlit("problem_set");
        reveal_strlit("exam");
        reveal_strlit("project");
        reveal_strlit("other");
    }
    let r = str_eq(t, "assignment") || str_eq(t, "reading") || str_eq(t, "problem_set")
        || str_eq(t, "exam") || str_eq(t, "project") || str_eq(t, "other");
    proof {
        if r {
            assert(one_of(t@, task_types())) by {
                let ts = task_types();
                if t@ == "assignment"@ { assert(ts[0] == t@); }
                else if t@ == "reading"@ { assert(ts[1] == t@); }
                else if t@ == "problem_set"@ { assert(ts[2] == t@); }
                else if t@ == "exam"@ { assert(ts[3] == t@); }
                else if t@ == "project"@ { assert(ts[4] == t@); }
                else { assert(ts[5] == t@); }
            }
        }
    }
    r
}

/// A tag is acceptable: not blank and at most 32 bytes of UTF-8.
pub open spec fn tag_ok(t: String) -> bool {
    !all_ws(t@) && vstd::utf8::encode_utf8(t@).len() <= 32
}

/// The metadata rules: a known task type, a non-negative time budget, and
/// at most twelve acceptable tags.
pub open spec fn metadata_ok(task_type: Option<Seq<char>>, tags: Option<Seq<String>>, budget: Option<i64>) -> bool {
    &&& (task_type matches Some(t) ==> one_of(t, task_types()))
    &&& (budget matches Some(b) ==> b >= 0)
    &&& (tags matches Some(ts) ==> ts.len() <= 12 && forall|i: int| 0 <= i < ts.len() ==> tag_ok(#[trigger] ts[i]))
}

/// The view of an optional text.
pub open spec fn opt_text(t: Option<&str>) -> Option<Seq<char>> {
    match t {
        Some(s) => Some(s@),
        None => None,
    }
}

/// Checks a task's type, tags and time budget, in that order.
pub fn validate_metadata(task_type: Option<&str>, tags: Option<&Vec<String>>, budget: Option<i64>) -> (r: Result<(), String>)
    ensures
        r is Ok <==> metadata_ok(opt_text(task_type), match tags { Some(v) => Some(v@), None => None }, budget),
        (task_type matches Some(t) && !one_of(t@, task_types())) ==> (r matches Err(m) && m@ == "Choose a valid task type."@),
        (task_type matches Some(t) ==> one_of(t@, task_types())) && (budget matches Some(b) && b < 0)
            ==> (r matches Err(m) && m@ == "Time budget must be zero or greater."@),
        !metadata_ok(opt_text(task_type), match tags { Some(v) => Some(v@), None => None }, budget)
            && (task_type matches Some(t) ==> one_of(t@, task_types())) && (budget matches Some(b) ==> b >= 0)
            ==> (r matches Err(m) && m@ == "Use up to 12 non-empty tags of 32 characters or fewer."@),
{
    if let Some(value) = task_type {
        if !is_task_type(value) {
            return Err(message("Choose a valid task type."));
        }
    }
    if let Some(b) = budget {
        if b < 0 {
            return Err(message("Time budget must be zero or greater."));
        }
    }
    if let Some(items) = tags {
        if items.len() > 12 {
            return Err(message("Use up to 12 non-empty tags of 32 characters or fewer."));
        }
        let mut i: usize = 0;
        while i < items.len()
            invariant
                i <= items.len(),
                items.len() <= 12,
                tags == Some(items),
                task_type matches Some(t) ==> one_of(t@, task_types()),
                budget matches Some(b) ==> b >= 0,
                forall|k: int| 0 <= k < i ==> tag_ok(#[trigger] items@[k]),
            decreases items.len() - i,
        {
            let st = items[i].as_str();
            let blank = is_blank(st);
            let bytes = st.as_bytes().len();
            assert(st@ == items@[i as int]@);
            assert(st.spec_bytes() == vstd::utf8::encode_utf8(st@));
            assert(bytes as int == vstd::utf8::encode_utf8(st@).len());
            if blank || bytes > 32 {
                return Err(message("Use up to 12 non-empty tags of 32 characters or fewer."));
            }
            i += 1;
        }
    }
    Ok(())
}

/// The tag each input tag becomes: trimmed, then lower-cased.
pub open spec fn normal_tag(t: Seq<char>) -> Seq<char> {
    lowercased(trimmed(t))
}

/// Normalised tags of `tags`, before the cap of twelve: each tag normalised,
/// empty ones dropped, later duplicates dropped, order kept.
pub open spec fn distinct_normal_tags(tags: Seq<Seq<char>>) -> Seq<Seq<char>>
    decreases tags.len(),
{
    if tags.len() == 0 {
        Seq::empty()
    } else {
        let r = distinct_normal_tags(tags.drop_last());
        let t = normal_tag(tags.last());
        if t.len() == 0 || r.contains(t) { r } else { r.push(t) }
    }
}

/// The stored tags: the distinct normalised tags, at most the first twelve.
pub open spec fn normalized_tags(tags: Seq<Seq<char>>) -> Seq<Seq<char>> {
    let d = distinct_normal_tags(tags);
    if d.len() <= 12 { d } else { d.take(12) }
}

/// Views of a list of strings.
pub open spec fn texts(v: Seq<String>) -> Seq<Seq<char>> {
    v.map_values(|s: String| s@)
}

pub(crate) fn contains_text(v: &Vec<String>, t: &String) -> (r: bool)
    ensures
        r == texts(v@).contains(t@),
{
    let mut i: usize = 0;
    while i < v.len()
        invariant
            i <= v.len(),
            forall|k: int| 0 <= k < i ==> v@[k]@ != t@,
        decreases v.len() - i,
    {
        if str_eq(v[i].as_str(), t.as_str()) {
            assert(texts(v@)[i as int] == t@);
            return true;
        }
        i += 1;
    }
    assert(!texts(v@).contains(t@)) by {
        if texts(v@).contains(t@) {
            let k = choose|k: int| 0 <= k < texts(v@).len() && texts(v@)[k] == t@;
            assert(v@[k]@ == t@);
        }
    }
    false
}

/// Trims and lower-cases tags, drops empty and repeated ones, and keeps at
/// most twelve.
pub fn normalize_tags(tags: &Vec<String>) -> (r: Vec<String>)
    ensures
        texts(r@) == normalized_tags(texts(tags@)),
{
    let mut result: Vec<String> = Vec::new();
    let mut i: usize = 0;
    while i < tags.len()
        invariant
            i <= tags.len(),
            texts(result@) == distinct_normal_tags(texts(tags@).take(i as int)),
        decreases tags.len() - i,
    {
        let trimmed_tag = trim(tags[i].as_str());
        let tag = to_lowercase(trimmed_tag.as_str());
        proof {
            assert(texts(tags@).take(i + 1).drop_last() =~= texts(tags@).take(i as int));
            assert(texts(tags@).take(i + 1).last() == tags@[i as int]@);
        }
        if !tag.as_str().is_empty() && !contains_text(&result, &tag) {
            result.push(tag);
            assert(texts(result@) =~= texts(result@.drop_last()).push(result@.last()@));
        }
        i += 1;
    }
    assert(texts(tags@).take(tags.len() as int) =~= texts(tags@));
    if result.len() > 12 {
        let mut capped: Vec<String> = Vec::new();
        let mut k: usize = 0;
        while k < 12
            invariant
                k <= 12,
                result.len() > 12,
                capped@ == result@.take(k as int),
            decreases 12 - k,
        {
            let item = result[k].clone();
            capped.push(item);
            assert(capped@ =~= result@.take(k + 1));
            k += 1;
        }
        assert(texts(capped@) =~= texts(result@).take(12));
        capped
    } else {
        result
    }
}

/// The checks on a new task: a title, a non-negative estimate, valid
/// metadata, valid due and scheduled dates, and (when a parent is named) a
/// parent that `parent_ok` reports as an incomplete local task of the same class.
pub fn validate_new_task(input: &NewTask, parent_ok: bool) -> (r: Result<(), String>)
    ensures
        r is Ok <==> (
            !all_ws(input.title@)
            && (input.estimated_minutes matches Some(e) ==> e >= 0)
            && metadata_ok(
                match input.task_type { Some(t) => Some(t@), None => None },
                match input.tags { Some(v) => Some(v@), None => None },
                input.time_budget_minutes,
            )
            && (input.due_at matches Some(d) ==> parsed_ymd(d@) is Some)
            && (input.scheduled_date matches Some(d) ==> parsed_ymd(d@) is Some)
            && (input.parent_task_id is Some ==> parent_ok)
        ),
        all_ws(input.title@) ==> (r matches Err(m) && m@ == "Enter a task title."@),
{
    if is_blank(input.title.as_str()) {
        return Err(message("Enter a task title."));
    }
    if let Some(e) = input.estimated_minutes {
        if e < 0 {
            return Err(message("Estimate must be zero or greater."));
        }
    }
    let task_type: Option<&str> = match &input.task_type {
        Some(t) => Some(t.as_str()),
        None => None,
    };
    let tags: Option<&Vec<String>> = match &input.tags {
        Some(v) => Some(v),
        None => None,
    };
    validate_metadata(task_type, tags, input.time_budget_minutes)?;
    if let Some(d) = &input.due_at {
        if parse_ymd(d.as_str()).is_none() {
            return Err(message("Choose a valid date."));
        }
    }
    if let Some(d) = &input.scheduled_date {
        if parse_ymd(d.as_str()).is_none() {
            return Err(message("Choose a valid date."));
        }
    }
    if input.parent_task_id.is_some() && !parent_ok {
        return Err(message("Choose an incomplete local parent in the same class."));
    }
    Ok(())
}

/// The statuses a task may be given.
pub open spec fn task_statuses() -> Seq<Seq<char>> {
    seq!["not_started"@, "in_progress"@, "completed"@]
}

/// Checks a status change: the status must be known, the task must exist
/// (`source` is `None` otherwise) and must not come from Todoist, whose
/// completion is read-only here.
pub fn check_status_change(status: &str, source: Option<&str>) -> (r: Result<(), String>)
    ensures
        r is Ok <==> one_of(status@, task_statuses()) && (source matches Some(s) && s@ != "todoist"@),
        !one_of(status@, task_statuses()) ==> (r matches Err(m) && m@ == "invalid status: "@ + status@),
        one_of(status@, task_statuses()) && source is None ==> (r matches Err(m) && m@ == "Task not found"@),
        one_of(status@, task_statuses()) && (source matches Some(s) && s@ == "todoist"@)
            ==> (r matches Err(m) && m@ == todoist_read_only_message()),
{
    proof {
        reveal_strlit("not_started");
        reveal_strlit("in_progress");
        reveal_strlit("completed");
    }
    let known = str_eq(status, "not_started") || str_eq(status, "in_progress") || str_eq(status, "completed");
    assert(known == one_of(status@, task_statuses())) by {
        let ts = task_statuses();
        if one_of(status@, ts) {
            let k = choose|k: int| 0 <= k < ts.len() && ts[k] == status@;
        }
        if status@ == "not_started"@ { assert(ts[0] == status@); }
        if status@ == "in_progress"@ { assert(ts[1] == status@); }
        if status@ == "completed"@ { assert(ts[2] == status@); }
    }
    if !known {
        let mut text: Vec<char> = Vec::new();
        push_str(&mut text, "invalid status: ");
        push_str(&mut text, status);
        return Err(string_of(text.as_slice()));
    }
    match source {
        None => Err(message("Task not found")),
        Some(s) => {
            if str_eq(s, "todoist") {
                Err(read_only_text())
            } else {
                Ok(())
            }
        },
    }
}

/// The refusal of a local status change on a Todoist task.
pub open spec fn todoist_read_only_message() -> Seq<char> {
    "Complete this "@ + "task in Todoist, then sync. Completion is read-only here."@
}

fn read_only_text() -> (r: String)
    ensures
        r@ == todoist_read_only_message(),
{
    let mut text: Vec<char> = Vec::new();
    push_str(&mut text, "Complete this ");
    push_str(&mut text, "task in Todoist, then sync. Completion is read-only here.");
    string_of(text.as_slice())
}

/// Only local tasks may be duplicated; a copy's title gains " (copy)".
pub fn check_duplicate(source: Option<&str>) -> (r: Result<(), String>)
    ensures
        r is Ok <==> (source matches Some(s) && s@ == "local"@),
        source is None ==> (r matches Err(m) && m@ == "Task not found"@),
        (source matches Some(s) && s@ != "local"@) ==> (r matches Err(m) && m@ == "Only local tasks can be duplicated."@),
{
    match source {
        None => Err(message("Task not found")),
        Some(s) => if str_eq(s, "local") { Ok(()) } else { Err(message("Only local tasks can be duplicated.")) },
    }
}

/// A schedule date, when given, must be a valid date.
pub fn check_schedule_date(date: Option<&str>) -> (r: Result<(), String>)
    ensures
        r is Ok <==> (date matches Some(d) ==> parsed_ymd(d@) is Some),
        r matches Err(m) ==> m@ == "Choose a valid schedule date"@,
{
    if let Some(d) = date {
        if parse_ymd(d).is_none() {
            return Err(message("Choose a valid schedule date"));
        }
    }
    Ok(())
}

/// The status a task takes when a timer starts on it: a task not yet
/// started becomes in progress; any other status stays.
pub fn status_after_start(status: &str) -> (r: String)
    ensures
        status@ == "not_started"@ ==> r@ == "in_progress"@,
        status@ != "not_started"@ ==> r@ == status@,
{
    if str_eq(status, "not_started") { message("in_progress") } else { message(status) }
}

fn copy_opt(s: &Option<String>) -> (r: Option<String>)
    ensures
        r == *s,
{
    match s {
        Some(t) => Some(t.clone()),
        None => None,
    }
}

/// A copy of a list of texts.
pub fn copy_texts(v: &Vec<String>) -> (r: Vec<String>)
    ensures
        r@ == v@,
{
    let mut out: Vec<String> = Vec::new();
    let mut i: usize = 0;
    while i < v.len()
        invariant
            i <= v.len(),
            out@ == v@.take(i as int),
        decreases v.len() - i,
    {
        out.push(v[i].clone());
        assert(out@ =~= v@.take(i + 1));
        i += 1;
    }
    assert(v@.take(v.len() as int) =~= v@);
    out
}

/// Two tasks hold the same values (their tag lists as sequences).
pub open spec fn same_task(a: Task, b: Task) -> bool {
    &&& a.id == b.id
    &&& a.class_id == b.class_id
    &&& a.parent_task_id == b.parent_task_id
    &&& a.title == b.title
    &&& a.description == b.description
    &&& a.status == b.status
    &&& a.priority == b.priority
    &&& a.due_at == b.due_at
    &&& a.scheduled_date == b.scheduled_date
    &&& a.estimated_minutes == b.estimated_minutes
    &&& a.source == b.source
    &&& a.external_id == b.external_id
    &&& a.completed_at == b.completed_at
    &&& a.tracked_seconds == b.tracked_seconds
    &&& a.tracked_seconds_direct == b.tracked_seconds_direct
    &&& a.remaining_minutes == b.remaining_minutes
    &&& a.external_state == b.external_state
    &&& a.task_type == b.task_type
    &&& a.tags@ == b.tags@
    &&& a.time_budget_minutes == b.time_budget_minutes
}

/// A copy of a task.
pub fn copy_task(t: &Task) -> (r: Task)
    ensures
        same_task(r, *t),
{
    Task {
        id: t.id,
        class_id: t.class_id,
        parent_task_id: t.parent_task_id,
        title: t.title.clone(),
        description: copy_opt(&t.description),
        status: t.status.clone(),
        priority: t.priority,
        due_at: copy_opt(&t.due_at),
        scheduled_date: copy_opt(&t.scheduled_date),
        estimated_minutes: t.estimated_minutes,
        source: t.source.clone(),
        external_id: copy_opt(&t.external_id),
        completed_at: copy_opt(&t.completed_at),
        tracked_seconds: t.tracked_seconds,
        tracked_seconds_direct: t.tracked_seconds_direct,
        remaining_minutes: t.remaining_minutes,
        external_state: t.external_state.clone(),
        task_type: t.task_type.clone(),
        tags: copy_texts(&t.tags),
        time_budget_minutes: t.time_budget_minutes,
    }
}

/// The SQL condition of an eligible task (alias `t`): an active class, not
/// a class timer, and local, or an active Todoist task whose project is
/// mapped to the task's class.
pub open spec fn eligible_text() -> Seq<char> {
    "t.class_id IN (SELECT id FROM classes WHERE active=1) AND\n    t.is_class_timer = 0 AND\n    (t.source='local' OR (t.external_state='active' AND EXISTS\n        (SELECT 1 FROM todoist_projects p WHERE p.todoist_id=t.todoist_project_id AND p.class_id=t.class_id)))"@
}

/// The SQL condition of an eligible task.
pub fn eligible_clause() -> (r: &'static str)
    ensures
        r@ == eligible_text(),
{
    "t.class_id IN (SELECT id FROM classes WHERE active=1) AND\n    t.is_class_timer = 0 AND\n    (t.source='local' OR (t.external_state='active' AND EXISTS\n        (SELECT 1 FROM todoist_projects p WHERE p.todoist_id=t.todoist_project_id AND p.class_id=t.class_id)))"
}

} // verus!
