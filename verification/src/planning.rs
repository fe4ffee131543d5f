//! Planning primitives: study blocks, task milestones and task templates,
//! with the checks on their fields.
use vstd::prelude::*;
use crate::dates::{parse_ymd, parsed_ymd, print_day, printable, printed_ymd};
use crate::text::{is_blank, message, str_eq, trimmed};

verus! {

/// A planned study session for a task.
pub struct StudyBlock {
    pub id: i64,
    pub task_id: i64,
    pub task_title: String,
    pub class_id: i64,
    pub course_code: String,
    pub planned_date: String,
    pub planned_start_time: Option<String>,
    pub planned_minutes: i64,
    pub completed: bool,
}

/// A study block to create.
pub struct NewStudyBlock {
    pub task_id: i64,
    pub planned_date: String,
    pub planned_start_time: Option<String>,
    pub planned_minutes: i64,
}

/// A study block's new fields.
pub struct UpdateStudyBlock {
    pub id: i64,
    pub planned_date: String,
    pub planned_start_time: Option<String>,
    pub planned_minutes: i64,
    pub completed: bool,
}

/// A step of a task.
pub struct TaskMilestone {
    pub id: i64,
    pub task_id: i64,
    pub title: String,
    pub target_date: Option<String>,
    pub position: i64,
    pub completed: bool,
    pub completed_at: Option<String>,
}

/// A milestone to create.
pub struct NewMilestone {
    pub task_id: i64,
    pub title: String,
    pub target_date: Option<String>,
}

/// A milestone's new fields.
pub struct UpdateMilestone {
    pub id: i64,
    pub title: String,
    pub target_date: Option<String>,
    pub completed: bool,
}

/// Defaults for tasks made from a template.
pub struct TaskTemplate {
    pub id: i64,
    pub name: String,
    pub class_id: Option<i64>,
    pub task_type: Option<String>,
    pub default_estimated_minutes: Option<i64>,
    pub default_time_budget_minutes: Option<i64>,
    pub priority: Option<i64>,
    pub tags: Vec<String>,
}

/// A template to create.
pub struct NewTaskTemplate {
    pub name: String,
    pub class_id: Option<i64>,
    pub task_type: Option<String>,
    pub default_estimated_minutes: Option<i64>,
    pub default_time_budget_minutes: Option<i64>,
    pub priority: Option<i64>,
    pub tags: Vec<String>,
}

/// A request to make a task from a template.
pub struct InstantiateTemplate {
    pub template_id: i64,
    pub class_id: i64,
    pub title: String,
    pub due_at: Option<String>,
    pub scheduled_date: Option<String>,
}

/// Whether chrono reads `s` as a time with `NaiveTime::parse_from_str(s, "%H:%M")`.
pub uninterp spec fn parsed_hm(s: Seq<char>) -> bool;

/// Calls `chrono::NaiveTime::parse_from_str(s, "%H:%M")` and reports whether
/// it succeeded. The answer is named: it depends on `s` alone.
#[verifier::external_body]
fn valid_hhmm(s: &str) -> (r: bool)
    ensures
        r == parsed_hm(s@),
{
    chrono::NaiveTime::parse_from_str(s, "%H:%M").is_ok()
}

/// The refusal of an unreadable date.
pub open spec fn bad_date_message() -> Seq<char> {
    "Choose a valid date."@
}

/// A date field must be a valid `YYYY-MM-DD` date.
pub fn check_date(value: &str) -> (r: Result<(), String>)
    ensures
        r is Ok <==> parsed_ymd(value@) is Some,
        r matches Err(m) ==> m@ == bad_date_message(),
{
    if parse_ymd(value).is_none() {
        return Err(message("Choose a valid date."));
    }
    Ok(())
}

/// A start time, when given, must read as `HH:MM`.
pub fn check_time(value: Option<&str>) -> (r: Result<(), String>)
    ensures
        r is Ok <==> (value matches Some(v) ==> parsed_hm(v@)),
        r matches Err(m) ==> m@ == "Choose a valid start time (HH:MM)."@,
{
    if let Some(v) = value {
        if !valid_hhmm(v) {
            return Err(message("Choose a valid start time (HH:MM)."));
        }
    }
    Ok(())
}

/// The optional text as a borrowed `str`.
pub open spec fn opt_view(v: Option<String>) -> Option<Seq<char>> {
    match v {
        Some(s) => Some(s@),
        None => None,
    }
}

/// What is wrong with a study block's fields, if anything.
pub open spec fn block_fields_problem(date: Seq<char>, start_time: Option<Seq<char>>, minutes: i64) -> Option<Seq<char>> {
    if parsed_ymd(date) is None {
        Some(bad_date_message())
    } else if start_time matches Some(t) && !parsed_hm(t) {
        Some("Choose a valid start time (HH:MM)."@)
    } else if minutes <= 0 {
        Some("Study blocks must be longer than zero minutes."@)
    } else {
        None
    }
}

fn check_block_fields(date: &String, start_time: &Option<String>, minutes: i64) -> (r: Result<(), String>)
    ensures
        match block_fields_problem(date@, opt_view(*start_time), minutes) {
            Some(m) => r matches Err(e) && e@ == m,
            None => r is Ok,
        },
{
    check_date(date.as_str())?;
    match start_time {
        Some(t) => check_time(Some(t.as_str()))?,
        None => {},
    }
    if minutes <= 0 {
        return Err(message("Study blocks must be longer than zero minutes."));
    }
    Ok(())
}

/// Checks a new study block; `task_ok` tells whether its task exists and
/// is not a class timer.
pub fn check_new_study_block(input: &NewStudyBlock, task_ok: bool) -> (r: Result<(), String>)
    ensures
        match block_fields_problem(input.planned_date@, opt_view(input.planned_start_time), input.planned_minutes) {
            Some(m) => r matches Err(e) && e@ == m,
            None => if task_ok { r is Ok } else { r matches Err(e) && e@ == "Task not found."@ },
        },
{
    check_block_fields(&input.planned_date, &input.planned_start_time, input.planned_minutes)?;
    if !task_ok {
        return Err(message("Task not found."));
    }
    Ok(())
}

/// Checks a study block's new fields.
pub fn check_update_study_block(input: &UpdateStudyBlock) -> (r: Result<(), String>)
    ensures
        match block_fields_problem(input.planned_date@, opt_view(input.planned_start_time), input.planned_minutes) {
            Some(m) => r matches Err(e) && e@ == m,
            None => r is Ok,
        },
{
    check_block_fields(&input.planned_date, &input.planned_start_time, input.planned_minutes)
}

/// Checks the dates of a range of study blocks.
pub fn check_block_range(start_date: &str, end_date: &str) -> (r: Result<(), String>)
    ensures
        r is Ok <==> parsed_ymd(start_date@) is Some && parsed_ymd(end_date@) is Some,
        r matches Err(m) ==> m@ == bad_date_message(),
{
    check_date(start_date)?;
    check_date(end_date)
}

/// What is wrong with a milestone's title and target date, if anything.
pub open spec fn milestone_problem(title: Seq<char>, target_date: Option<Seq<char>>) -> Option<Seq<char>> {
    if trimmed(title).len() == 0 {
        Some("Milestone title cannot be empty."@)
    } else if target_date matches Some(d) && parsed_ymd(d) is None {
        Some(bad_date_message())
    } else {
        None
    }
}

fn check_milestone_fields(title: &String, target_date: &Option<String>) -> (r: Result<(), String>)
    ensures
        match milestone_problem(title@, opt_view(*target_date)) {
            Some(m) => r matches Err(e) && e@ == m,
            None => r is Ok,
        },
{
    if is_blank(title.as_str()) {
        return Err(message("Milestone title cannot be empty."));
    }
    if let Some(d) = target_date {
        check_date(d.as_str())?;
    }
    Ok(())
}

/// Checks a new milestone.
pub fn check_new_milestone(input: &NewMilestone) -> (r: Result<(), String>)
    ensures
        match milestone_problem(input.title@, opt_view(input.target_date)) {
            Some(m) => r matches Err(e) && e@ == m,
            None => r is Ok,
        },
{
    check_milestone_fields(&input.title, &input.target_date)
}

/// Checks a milestone's new fields.
pub fn check_update_milestone(input: &UpdateMilestone) -> (r: Result<(), String>)
    ensures
        match milestone_problem(input.title@, opt_view(input.target_date)) {
            Some(m) => r matches Err(e) && e@ == m,
            None => r is Ok,
        },
{
    check_milestone_fields(&input.title, &input.target_date)
}

/// The milestone to swap places with when moving one at `position` up
/// (`up`) or down among its task's milestones `(id, position)`: the nearest
/// position before or after it. Among equal positions any may be taken.
pub open spec fn is_neighbor(siblings: Seq<(i64, i64)>, position: i64, up: bool, n: (i64, i64)) -> bool {
    &&& siblings.contains(n)
    &&& if up { n.1 < position } else { n.1 > position }
    &&& forall|i: int| 0 <= i < siblings.len() ==> (if up {
        (#[trigger] siblings[i]).1 < position ==> siblings[i].1 <= n.1
    } else {
        siblings[i].1 > position ==> siblings[i].1 >= n.1
    })
}

/// Some milestone lies in the direction of the move.
pub open spec fn has_neighbor(siblings: Seq<(i64, i64)>, position: i64, up: bool) -> bool {
    exists|i: int| 0 <= i < siblings.len() && (if up { (#[trigger] siblings[i]).1 < position } else { siblings[i].1 > position })
}

/// The milestone to swap with when moving the one at `position` in
/// `direction` ("up", anything else meaning down); `None` at the end of
/// the list, where the move changes nothing.
pub fn milestone_neighbor(siblings: &Vec<(i64, i64)>, position: i64, direction: &str) -> (r: Option<(i64, i64)>)
    ensures
        r is None <==> !has_neighbor(siblings@, position, direction@ == "up"@),
        r matches Some(n) ==> is_neighbor(siblings@, position, direction@ == "up"@, n),
{
    proof {
        reveal_strlit("up");
    }
    let up = str_eq(direction, "up");
    let mut best: Option<(i64, i64)> = None;
    let mut k: usize = 0;
    while k < siblings.len()
        invariant
            k <= siblings.len(),
            up == (direction@ == "up"@),
            best is None <==> !exists|i: int| 0 <= i < k && (if up { (#[trigger] siblings@[i]).1 < position } else { siblings@[i].1 > position }),
            best matches Some(n) ==> {
                &&& siblings@.contains(n)
                &&& if up { n.1 < position } else { n.1 > position }
                &&& forall|i: int| 0 <= i < k ==> (if up {
                    (#[trigger] siblings@[i]).1 < position ==> siblings@[i].1 <= n.1
                } else {
                    siblings@[i].1 > position ==> siblings@[i].1 >= n.1
                })
            },
        decreases siblings.len() - k,
    {
        let c = siblings[k];
        let in_direction = if up { c.1 < position } else { c.1 > position };
        if in_direction {
            let better = match best {
                None => true,
                Some(b) => if up { c.1 > b.1 } else { c.1 < b.1 },
            };
            if better {
                assert(siblings@[k as int] == c);
                best = Some(c);
            }
        }
        k += 1;
    }
    best
}

/// What is wrong with a new template, if anything.
pub open spec fn template_problem(input: NewTaskTemplate) -> Option<Seq<char>> {
    if trimmed(input.name@).len() == 0 {
        Some("Template name cannot be empty."@)
    } else if (input.default_estimated_minutes matches Some(v) && v < 0)
        || (input.default_time_budget_minutes matches Some(v) && v < 0) {
        Some("Template minutes cannot be negative."@)
    } else {
        None
    }
}

/// Checks a new template.
pub fn check_new_template(input: &NewTaskTemplate) -> (r: Result<(), String>)
    ensures
        match template_problem(*input) {
            Some(m) => r matches Err(e) && e@ == m,
            None => r is Ok,
        },
{
    if is_blank(input.name.as_str()) {
        return Err(message("Template name cannot be empty."));
    }
    let negative = match input.default_estimated_minutes {
        Some(v) => v < 0,
        None => false,
    } || match input.default_time_budget_minutes {
        Some(v) => v < 0,
        None => false,
    };
    if negative {
        return Err(message("Template minutes cannot be negative."));
    }
    Ok(())
}

/// What is wrong with a request to make a task from a template, if
/// anything: a blank title, an unreadable due or schedule date, an unknown
/// template (`template_found`), or a class that is not active
/// (`class_active`).
pub open spec fn instantiate_problem(input: InstantiateTemplate, template_found: bool, class_active: bool) -> Option<Seq<char>> {
    if trimmed(input.title@).len() == 0 {
        Some("Task title cannot be empty."@)
    } else if (input.due_at matches Some(d) && parsed_ymd(d@) is None)
        || (input.scheduled_date matches Some(d) && parsed_ymd(d@) is None) {
        Some(bad_date_message())
    } else if !template_found {
        Some("Template not found"@)
    } else if !class_active {
        Some("Class not found."@)
    } else {
        None
    }
}

/// Checks a request to make a task from a template.
pub fn check_instantiate(input: &InstantiateTemplate, template_found: bool, class_active: bool) -> (r: Result<(), String>)
    ensures
        match instantiate_problem(*input, template_found, class_active) {
            Some(m) => r matches Err(e) && e@ == m,
            None => r is Ok,
        },
{
    if is_blank(input.title.as_str()) {
        return Err(message("Task title cannot be empty."));
    }
    if let Some(d) = &input.due_at {
        check_date(d.as_str())?;
    }
    if let Some(d) = &input.scheduled_date {
        check_date(d.as_str())?;
    }
    if !template_found {
        return Err(message("Template not found"));
    }
    if !class_active {
        return Err(message("Class not found."));
    }
    Ok(())
}

/// The type of a task made from a template: the template's, else "assignment".
pub fn template_task_type(template: &TaskTemplate) -> (r: String)
    ensures
        r@ == match template.task_type {
            Some(t) => t@,
            None => "assignment"@,
        },
{
    match &template.task_type {
        Some(t) => t.clone(),
        None => message("assignment"),
    }
}

/// The largest amount of days a duration can hold (`TimeDelta::days`).
pub open spec fn max_duration_days() -> int {
    i64::MAX / 86400
}

/// A preset's target date: `offset` days before the due date, when both
/// are known.
pub open spec fn preset_target(due: Option<int>, offset: Option<i64>) -> Option<Seq<char>> {
    match (due, offset) {
        (Some(d), Some(n)) => printed_ymd(d - n),
        _ => None,
    }
}

/// The target is computed and lies within chrono's dates.
pub open spec fn target_fits(due: Option<int>, offset: Option<i64>) -> bool {
    match (due, offset) {
        (Some(d), Some(n)) => -max_duration_days() <= n <= max_duration_days() && printable(d - n),
        _ => true,
    }
}

/// The target dates of a template's milestone presets, given the new
/// task's due value (read as a date; a timestamp gives none). `None` where
/// an offset is beyond what a duration holds or a target beyond the dates
/// chrono can represent.
pub fn preset_targets(due_at: Option<&str>, offsets: &Vec<Option<i64>>) -> (r: Option<Vec<Option<String>>>)
    ensures
        ({
            let due = match due_at {
                Some(s) => parsed_ymd(s@),
                None => None,
            };
            &&& r is Some <==> forall|i: int| 0 <= i < offsets.len() ==> target_fits(due, #[trigger] offsets@[i])
            &&& r matches Some(v) ==> v.len() == offsets.len()
                && forall|i: int| 0 <= i < v.len() ==> opt_view(#[trigger] v@[i]) == preset_target(due, offsets@[i])
        }),
{
    let due: Option<i32> = match due_at {
        Some(s) => parse_ymd(s),
        None => None,
    };
    let ghost due_spec = match due_at {
        Some(s) => parsed_ymd(s@),
        None => None,
    };
    assert(due_spec == match due { Some(d) => Some(d as int), None => None::<int> });
    let mut out: Vec<Option<String>> = Vec::new();
    let mut i: usize = 0;
    while i < offsets.len()
        invariant
            i <= offsets.len(),
            due_spec == match due { Some(d) => Some(d as int), None => None::<int> },
            due_spec == match due_at { Some(s) => parsed_ymd(s@), None => None },
            due matches Some(d) ==> -100_000_000 < d < 100_000_000,
            out.len() == i,
            forall|q: int| 0 <= q < i ==> target_fits(due_spec, #[trigger] offsets@[q]),
            forall|q: int| 0 <= q < i ==> opt_view(#[trigger] out@[q]) == preset_target(due_spec, offsets@[q]),
        decreases offsets.len() - i,
    {
        let target = match (due, offsets[i]) {
            (Some(d), Some(n)) => {
                if n < -(i64::MAX / 86400) || n > i64::MAX / 86400 {
                    assert(!target_fits(due_spec, offsets@[i as int]));
                    return None;
                }
                match print_day(d as i64 - n) {
                    Some(t) => Some(t),
                    None => {
                        assert(!target_fits(due_spec, offsets@[i as int]));
                        return None;
                    },
                }
            },
            _ => None,
        };
        out.push(target);
        i += 1;
    }
    Some(out)
}

/// A copy of a study block.
pub fn copy_block(b: &StudyBlock) -> (r: StudyBlock)
    ensures
        r == *b,
{
    StudyBlock {
        id: b.id,
        task_id: b.task_id,
        task_title: b.task_title.clone(),
        class_id: b.class_id,
        course_code: b.course_code.clone(),
        planned_date: b.planned_date.clone(),
        planned_start_time: match &b.planned_start_time {
            Some(t) => Some(t.clone()),
            None => None,
        },
        planned_minutes: b.planned_minutes,
        completed: b.completed,
    }
}

} // verus!
