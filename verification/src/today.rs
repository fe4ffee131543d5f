//! The Today view: which tasks are due or scheduled on a day, the
//! incomplete subtasks they bring along, the ancestors shown for context,
//! and their grouping by class.
use vstd::prelude::*;
use crate::graph::{has_edge, is_chain, reach, reaches, reaches_any, reaches_self, reaches_step, Reached};
use crate::num::{as_ints, sum_i64, sums_fit, sums_fit_exec, total};
use crate::tasks::Task;
use crate::text::{seq_lt, seq_lt_irreflexive, seq_lt_total, seq_lt_transitive, str_eq, str_lt};

verus! {

/// One eligible task (an active class's local task, or a mapped active
/// Todoist task), with the local calendar date of its due value
/// (`YYYY-MM-DD`, `None` without a due value) and its class's course code.
pub struct TodayRow {
    pub task: Task,
    pub due_local: Option<String>,
    pub course_code: String,
}

/// A task shown on Today; `context_only` marks an ancestor shown only
/// to place actionable work in its tree.
pub struct TodayTask {
    pub task: Task,
    pub overdue: bool,
    pub context_only: bool,
}

/// The Today tasks of one class.
pub struct TodayClassGroup {
    pub class_id: i64,
    pub course_code: String,
    pub tasks: Vec<TodayTask>,
}

/// The Today view.
pub struct TodaySummary {
    pub groups: Vec<TodayClassGroup>,
    pub task_count: i64,
    pub estimated_minutes_total: i64,
    pub tracked_seconds_total: i64,
}

/// The task is not completed.
pub open spec fn incomplete(t: Task) -> bool {
    t.status@ != "completed"@
}

/// The row's due date is `date`.
pub open spec fn due_on(r: TodayRow, date: Seq<char>) -> bool {
    r.due_local matches Some(d) && d@ == date
}

/// The row's due date lies before `date`.
pub open spec fn due_before(r: TodayRow, date: Seq<char>) -> bool {
    r.due_local matches Some(d) && seq_lt(d@, date)
}

/// The row is scheduled on `date`.
pub open spec fn scheduled_on(r: TodayRow, date: Seq<char>) -> bool {
    r.task.scheduled_date matches Some(s) && s@ == date
}

/// An incomplete task due on the day, overdue (when those are included),
/// or scheduled on the day.
pub open spec fn is_seed(r: TodayRow, date: Seq<char>, include_overdue: bool) -> bool {
    &&& incomplete(r.task)
    &&& due_on(r, date) || (include_overdue && due_before(r, date)) || scheduled_on(r, date)
}

/// The ids of the seed rows, in row order.
pub open spec fn seed_ids(rows: Seq<TodayRow>, date: Seq<char>, include_overdue: bool) -> Seq<i64>
    decreases rows.len(),
{
    if rows.len() == 0 {
        Seq::empty()
    } else {
        let rest = seed_ids(rows.drop_last(), date, include_overdue);
        if is_seed(rows.last(), date, include_overdue) {
            rest.push(rows.last().task.id)
        } else {
            rest
        }
    }
}

/// Links from a parent to each of its incomplete children.
pub open spec fn down_edges(rows: Seq<TodayRow>) -> Seq<(i64, i64)>
    decreases rows.len(),
{
    if rows.len() == 0 {
        Seq::empty()
    } else {
        let rest = down_edges(rows.drop_last());
        let t = rows.last().task;
        if t.parent_task_id is Some && incomplete(t) {
            rest.push((t.parent_task_id->0, t.id))
        } else {
            rest
        }
    }
}

/// Links from each task to its parent.
pub open spec fn up_edges(rows: Seq<TodayRow>) -> Seq<(i64, i64)>
    decreases rows.len(),
{
    if rows.len() == 0 {
        Seq::empty()
    } else {
        let rest = up_edges(rows.drop_last());
        let t = rows.last().task;
        if t.parent_task_id is Some {
            rest.push((t.id, t.parent_task_id->0))
        } else {
            rest
        }
    }
}

/// Actionable: a seed, or an incomplete descendant of a seed reached
/// through incomplete children.
pub open spec fn is_actionable(rows: Seq<TodayRow>, date: Seq<char>, include_overdue: bool, id: i64) -> bool {
    reaches_any(down_edges(rows), seed_ids(rows, date, include_overdue), id)
}

/// The actionable rows among the first `n`.
pub open spec fn actionable_rows(rows: Seq<TodayRow>, date: Seq<char>, include_overdue: bool, n: int) -> Seq<TodayRow>
    decreases n,
{
    if n <= 0 {
        Seq::empty()
    } else {
        let rest = actionable_rows(rows, date, include_overdue, n - 1);
        if is_actionable(rows, date, include_overdue, rows[n - 1].task.id) {
            rest.push(rows[n - 1])
        } else {
            rest
        }
    }
}

/// The ids of some rows.
pub open spec fn row_ids(rows: Seq<TodayRow>) -> Seq<i64>
    decreases rows.len(),
{
    if rows.len() == 0 {
        Seq::empty()
    } else {
        row_ids(rows.drop_last()).push(rows.last().task.id)
    }
}

/// The estimates of some rows, a missing estimate counting zero.
pub open spec fn row_estimates(rows: Seq<TodayRow>) -> Seq<int>
    decreases rows.len(),
{
    if rows.len() == 0 {
        Seq::empty()
    } else {
        let e = match rows.last().task.estimated_minutes {
            Some(m) => m as int,
            None => 0,
        };
        row_estimates(rows.drop_last()).push(e)
    }
}

/// The ids of the actionable rows, in row order.
pub open spec fn actionable_ids(rows: Seq<TodayRow>, date: Seq<char>, include_overdue: bool) -> Seq<i64> {
    row_ids(actionable_rows(rows, date, include_overdue, rows.len() as int))
}

/// Shown on Today: an actionable task or one of its ancestors.
pub open spec fn is_included(rows: Seq<TodayRow>, date: Seq<char>, include_overdue: bool, id: i64) -> bool {
    reaches_any(up_edges(rows), actionable_ids(rows, date, include_overdue), id)
}

/// How a row appears on Today.
pub open spec fn entry(rows: Seq<TodayRow>, date: Seq<char>, include_overdue: bool, r: TodayRow) -> TodayTask {
    TodayTask {
        task: r.task,
        overdue: due_before(r, date),
        context_only: !is_actionable(rows, date, include_overdue, r.task.id),
    }
}

/// The entries of the shown rows of class `class_id` among the first `n`.
pub open spec fn class_entries(rows: Seq<TodayRow>, date: Seq<char>, include_overdue: bool, class_id: i64, n: int) -> Seq<TodayTask>
    decreases n,
{
    if n <= 0 {
        Seq::empty()
    } else {
        let rest = class_entries(rows, date, include_overdue, class_id, n - 1);
        let r = rows[n - 1];
        if r.task.class_id == class_id && is_included(rows, date, include_overdue, r.task.id) {
            rest.push(entry(rows, date, include_overdue, r))
        } else {
            rest
        }
    }
}

/// The course code of the first shown row of class `class_id` among the
/// first `n`, if there is one.
pub open spec fn class_code(rows: Seq<TodayRow>, date: Seq<char>, include_overdue: bool, class_id: i64, n: int) -> Option<Seq<char>>
    decreases n,
{
    if n <= 0 {
        None
    } else {
        let before = class_code(rows, date, include_overdue, class_id, n - 1);
        let r = rows[n - 1];
        if before is Some {
            before
        } else if r.task.class_id == class_id && is_included(rows, date, include_overdue, r.task.id) {
            Some(r.course_code@)
        } else {
            None
        }
    }
}

/// The order of groups: by course code, then by class id.
pub open spec fn group_lt(a_code: Seq<char>, a_id: i64, b_code: Seq<char>, b_id: i64) -> bool {
    seq_lt(a_code, b_code) || (a_code == b_code && a_id < b_id)
}

fn is_incomplete(t: &Task) -> (r: bool)
    ensures
        r == incomplete(*t),
{
    proof {
        reveal_strlit("completed");
    }
    !str_eq(t.status.as_str(), "completed")
}

fn seed_test(r: &TodayRow, date: &str, include_overdue: bool) -> (b: bool)
    ensures
        b == is_seed(*r, date@, include_overdue),
{
    if !is_incomplete(&r.task) {
        return false;
    }
    let (on, before) = match &r.due_local {
        Some(d) => (str_eq(d.as_str(), date), str_lt(d.as_str(), date)),
        None => (false, false),
    };
    let scheduled = match &r.task.scheduled_date {
        Some(s) => str_eq(s.as_str(), date),
        None => false,
    };
    on || (include_overdue && before) || scheduled
}

/// The seed ids and the downward and upward links of the rows.
fn links_of(rows: &Vec<TodayRow>, date: &str, include_overdue: bool) -> (res: (Vec<i64>, Vec<(i64, i64)>, Vec<(i64, i64)>))
    ensures
        res.0@ == seed_ids(rows@, date@, include_overdue),
        res.1@ == down_edges(rows@),
        res.2@ == up_edges(rows@),
{
    let mut seeds: Vec<i64> = Vec::new();
    let mut down: Vec<(i64, i64)> = Vec::new();
    let mut up: Vec<(i64, i64)> = Vec::new();
    let mut k: usize = 0;
    while k < rows.len()
        invariant
            k <= rows.len(),
            seeds@ == seed_ids(rows@.take(k as int), date@, include_overdue),
            down@ == down_edges(rows@.take(k as int)),
            up@ == up_edges(rows@.take(k as int)),
        decreases rows.len() - k,
    {
        assert(rows@.take(k + 1).drop_last() =~= rows@.take(k as int));
        assert(rows@.take(k + 1).last() == rows@[k as int]);
        let r = &rows[k];
        if seed_test(r, date, include_overdue) {
            seeds.push(r.task.id);
        }
        if let Some(p) = r.task.parent_task_id {
            if is_incomplete(&r.task) {
                down.push((p, r.task.id));
            }
            up.push((r.task.id, p));
        }
        k += 1;
    }
    assert(rows@.take(rows.len() as int) =~= rows@);
    (seeds, down, up)
}

fn estimate_of(t: &Task) -> (e: i64)
    ensures
        e as int == (match t.estimated_minutes {
            Some(m) => m as int,
            None => 0,
        }),
{
    match t.estimated_minutes {
        Some(m) => m,
        None => 0,
    }
}

/// The ids and the estimates of the actionable rows, given the set of
/// actionable ids.
fn actionable_list(
    rows: &Vec<TodayRow>,
    actionable: &Reached,
    Ghost(date): Ghost<Seq<char>>,
    Ghost(include_overdue): Ghost<bool>,
) -> (res: (Vec<i64>, Vec<i64>))
    requires
        actionable.wf(),
        forall|x: i64| #[trigger] actionable.holds(x) <==> is_actionable(rows@, date, include_overdue, x),
    ensures
        res.0@ == actionable_ids(rows@, date, include_overdue),
        as_ints(res.1@) == row_estimates(actionable_rows(rows@, date, include_overdue, rows.len() as int)),
{
    let mut ids: Vec<i64> = Vec::new();
    let mut estimates: Vec<i64> = Vec::new();
    let mut k: usize = 0;
    while k < rows.len()
        invariant
            k <= rows.len(),
            actionable.wf(),
            forall|x: i64| #[trigger] actionable.holds(x) <==> is_actionable(rows@, date, include_overdue, x),
            ids@ == row_ids(actionable_rows(rows@, date, include_overdue, k as int)),
            as_ints(estimates@) == row_estimates(actionable_rows(rows@, date, include_overdue, k as int)),
        decreases rows.len() - k,
    {
        let id = rows[k].task.id;
        if actionable.contains(id) {
            let e = estimate_of(&rows[k].task);
            ids.push(id);
            let ghost before = estimates@;
            estimates.push(e);
            proof {
                let a = actionable_rows(rows@, date, include_overdue, k + 1);
                assert(a.drop_last() == actionable_rows(rows@, date, include_overdue, k as int));
                assert(as_ints(estimates@) =~= as_ints(before).push(e as int));
            }
        }
        k += 1;
    }
    (ids, estimates)
}

/// Keys strictly ascending in the group order.
pub open spec fn keys_sorted(s: Seq<(String, i64)>) -> bool {
    forall|i: int, j: int| 0 <= i < j < s.len() ==> group_lt(#[trigger] s[i].0@, s[i].1, #[trigger] s[j].0@, s[j].1)
}

pub(crate) proof fn group_lt_facts(a: (Seq<char>, i64), b: (Seq<char>, i64), c: (Seq<char>, i64))
    ensures
        !group_lt(a.0, a.1, a.0, a.1),
        group_lt(a.0, a.1, b.0, b.1) && group_lt(b.0, b.1, c.0, c.1) ==> group_lt(a.0, a.1, c.0, c.1),
        a.1 != b.1 ==> group_lt(a.0, a.1, b.0, b.1) || group_lt(b.0, b.1, a.0, a.1),
{
    seq_lt_irreflexive(a.0);
    seq_lt_total(a.0, b.0);
    if seq_lt(a.0, b.0) && seq_lt(b.0, c.0) {
        seq_lt_transitive(a.0, b.0, c.0);
    }
}

fn key_before(code: &String, class_id: i64, key: &(String, i64)) -> (r: bool)
    ensures
        r == group_lt(code@, class_id, key.0@, key.1),
{
    str_lt(code.as_str(), key.0.as_str()) || (str_eq(code.as_str(), key.0.as_str()) && class_id < key.1)
}

/// Puts a new key in its place.
pub(crate) fn insert_key(keys: &mut Vec<(String, i64)>, code: String, class_id: i64)
    requires
        keys_sorted(old(keys)@),
        forall|j: int| 0 <= j < old(keys).len() ==> #[trigger] old(keys)@[j].1 != class_id,
    ensures
        keys_sorted(final(keys)@),
        exists|p: int| 0 <= p <= old(keys).len() && final(keys)@ == old(keys)@.insert(p, (code, class_id)),
{
    let mut p: usize = 0;
    while p < keys.len() && !key_before(&code, class_id, &keys[p])
        invariant
            p <= keys.len(),
            keys_sorted(keys@),
            forall|j: int| 0 <= j < keys.len() ==> #[trigger] keys@[j].1 != class_id,
            forall|q: int| 0 <= q < p ==> group_lt(#[trigger] keys@[q].0@, keys@[q].1, code@, class_id),
        decreases keys.len() - p,
    {
        proof {
            group_lt_facts((keys@[p as int].0@, keys@[p as int].1), (code@, class_id), (code@, class_id));
        }
        p += 1;
    }
    let ghost s = keys@;
    let ghost nk = (code@, class_id);
    proof {
        assert forall|j: int| p <= j < s.len() implies group_lt(nk.0, nk.1, #[trigger] s[j].0@, s[j].1) by {
            if j > p {
                assert(group_lt(s[p as int].0@, s[p as int].1, s[j].0@, s[j].1));
                group_lt_facts(nk, (s[p as int].0@, s[p as int].1), (s[j].0@, s[j].1));
            }
        }
    }
    keys.insert(p, (code, class_id));
    proof {
        let t = keys@;
        assert(t == s.insert(p as int, t[p as int]));
        assert forall|i: int, j: int| 0 <= i < j < t.len() implies group_lt(#[trigger] t[i].0@, t[i].1, #[trigger] t[j].0@, t[j].1) by {
            if j < p {
                assert(t[i] == s[i] && t[j] == s[j]);
            } else if j == p {
                assert(t[i] == s[i]);
            } else if i == p {
                assert(t[j] == s[j - 1]);
            } else if i < p {
                assert(t[i] == s[i] && t[j] == s[j - 1]);
                assert(group_lt(s[i].0@, s[i].1, nk.0, nk.1));
                group_lt_facts((s[i].0@, s[i].1), nk, (s[j - 1].0@, s[j - 1].1));
            } else {
                assert(t[i] == s[i - 1] && t[j] == s[j - 1]);
            }
        }
    }
}

proof fn lemma_class_code_some(rows: Seq<TodayRow>, date: Seq<char>, include_overdue: bool, class_id: i64, i: int, n: int)
    requires
        0 <= i < n <= rows.len(),
        rows[i].task.class_id == class_id,
        is_included(rows, date, include_overdue, rows[i].task.id),
    ensures
        class_code(rows, date, include_overdue, class_id, n) is Some,
    decreases n,
{
    if i < n - 1 {
        lemma_class_code_some(rows, date, include_overdue, class_id, i, n - 1);
    }
}

fn find_key(keys: &Vec<(String, i64)>, class_id: i64) -> (r: Option<usize>)
    ensures
        r matches Some(j) ==> j < keys.len() && keys@[j as int].1 == class_id,
        r is None ==> forall|j: int| 0 <= j < keys.len() ==> #[trigger] keys@[j].1 != class_id,
{
    let mut j: usize = 0;
    while j < keys.len()
        invariant
            j <= keys.len(),
            forall|q: int| 0 <= q < j ==> #[trigger] keys@[q].1 != class_id,
        decreases keys.len() - j,
    {
        if keys[j].1 == class_id {
            return Some(j);
        }
        j += 1;
    }
    None
}

/// The classes that have shown rows, each with the course code of its
/// first shown row, in the group order.
fn class_keys(
    rows: &Vec<TodayRow>,
    included: &Reached,
    Ghost(date): Ghost<Seq<char>>,
    Ghost(include_overdue): Ghost<bool>,
) -> (keys: Vec<(String, i64)>)
    requires
        included.wf(),
        forall|x: i64| #[trigger] included.holds(x) <==> is_included(rows@, date, include_overdue, x),
    ensures
        keys_sorted(keys@),
        forall|i: int, j: int| 0 <= i < j < keys.len() ==> #[trigger] keys@[i].1 != #[trigger] keys@[j].1,
        forall|j: int| 0 <= j < keys.len()
            ==> class_code(rows@, date, include_overdue, #[trigger] keys@[j].1, rows.len() as int) == Some(keys@[j].0@),
        forall|c: i64| #[trigger] class_code(rows@, date, include_overdue, c, rows.len() as int) is Some
            ==> exists|j: int| 0 <= j < keys.len() && keys@[j].1 == c,
{
    let mut keys: Vec<(String, i64)> = Vec::new();
    let mut k: usize = 0;
    while k < rows.len()
        invariant
            k <= rows.len(),
            included.wf(),
            forall|x: i64| #[trigger] included.holds(x) <==> is_included(rows@, date, include_overdue, x),
            keys_sorted(keys@),
            forall|j: int| 0 <= j < keys.len()
                ==> class_code(rows@, date, include_overdue, #[trigger] keys@[j].1, k as int) == Some(keys@[j].0@),
            forall|c: i64| #[trigger] class_code(rows@, date, include_overdue, c, k as int) is Some
                ==> exists|j: int| 0 <= j < keys.len() && keys@[j].1 == c,
        decreases rows.len() - k,
    {
        let r = &rows[k];
        let cid = r.task.class_id;
        let shown = included.contains(r.task.id);
        let ghost before = keys@;
        if shown {
            match find_key(&keys, cid) {
                Some(_) => {
                    proof {
                        assert forall|c: i64| class_code(rows@, date, include_overdue, c, k + 1)
                            == class_code(rows@, date, include_overdue, c, k as int) by {
                            if c == cid {
                                let j = choose|j: int| 0 <= j < keys.len() && keys@[j].1 == cid;
                                assert(class_code(rows@, date, include_overdue, keys@[j].1, k as int) is Some);
                            }
                        }
                        assert forall|c: i64| #[trigger] class_code(rows@, date, include_overdue, c, k + 1) is Some
                            implies exists|j: int| 0 <= j < keys.len() && keys@[j].1 == c by {
                            assert(class_code(rows@, date, include_overdue, c, k as int) is Some);
                        }
                    }
                },
                None => {
                    proof {
                        if class_code(rows@, date, include_overdue, cid, k as int) is Some {
                            let j = choose|j: int| 0 <= j < keys.len() && keys@[j].1 == cid;
                            assert(keys@[j].1 != cid);
                        }
                    }
                    insert_key(&mut keys, r.course_code.clone(), cid);
                    proof {
                        let p = choose|p: int| 0 <= p <= before.len() && keys@ == before.insert(p, (r.course_code, cid));
                        assert forall|j: int| 0 <= j < keys.len()
                            implies class_code(rows@, date, include_overdue, #[trigger] keys@[j].1, k + 1) == Some(keys@[j].0@) by {
                            if j < p {
                                assert(keys@[j] == before[j]);
                            } else if j > p {
                                assert(keys@[j] == before[j - 1]);
                            }
                        }
                        assert forall|c: i64| #[trigger] class_code(rows@, date, include_overdue, c, k + 1) is Some
                            implies exists|j: int| 0 <= j < keys.len() && keys@[j].1 == c by {
                            if c == cid {
                                assert(keys@[p].1 == c);
                            } else {
                                assert(class_code(rows@, date, include_overdue, c, k as int) is Some);
                                let j = choose|j: int| 0 <= j < before.len() && before[j].1 == c;
                                if j < p {
                                    assert(keys@[j] == before[j]);
                                } else {
                                    assert(keys@[j + 1] == before[j]);
                                }
                            }
                        }
                    }
                },
            }
        } else {
            proof {
                assert forall|c: i64| class_code(rows@, date, include_overdue, c, k + 1)
                    == class_code(rows@, date, include_overdue, c, k as int) by {}
                assert forall|c: i64| #[trigger] class_code(rows@, date, include_overdue, c, k + 1) is Some
                    implies exists|j: int| 0 <= j < keys.len() && keys@[j].1 == c by {
                    assert(class_code(rows@, date, include_overdue, c, k as int) is Some);
                }
            }
        }
        k += 1;
    }
    proof {
        assert forall|i: int, j: int| 0 <= i < j < keys.len() implies #[trigger] keys@[i].1 != #[trigger] keys@[j].1 by {
            if keys@[i].1 == keys@[j].1 {
                assert(class_code(rows@, date, include_overdue, keys@[i].1, k as int) == Some(keys@[i].0@));
                assert(class_code(rows@, date, include_overdue, keys@[j].1, k as int) == Some(keys@[j].0@));
                assert(group_lt(keys@[i].0@, keys@[i].1, keys@[j].0@, keys@[j].1));
                group_lt_facts((keys@[i].0@, keys@[i].1), (keys@[i].0@, keys@[i].1), (keys@[i].0@, keys@[i].1));
            }
        }
    }
    keys
}

fn is_due_before(r: &TodayRow, date: &str) -> (b: bool)
    ensures
        b == due_before(*r, date@),
{
    match &r.due_local {
        Some(d) => str_lt(d.as_str(), date),
        None => false,
    }
}

fn find_group(groups: &Vec<TodayClassGroup>, class_id: i64) -> (r: Option<usize>)
    ensures
        r matches Some(j) ==> j < groups.len() && groups@[j as int].class_id == class_id,
        r is None ==> forall|j: int| 0 <= j < groups.len() ==> #[trigger] groups@[j].class_id != class_id,
{
    let mut j: usize = 0;
    while j < groups.len()
        invariant
            j <= groups.len(),
            forall|q: int| 0 <= q < j ==> #[trigger] groups@[q].class_id != class_id,
        decreases groups.len() - j,
    {
        if groups[j].class_id == class_id {
            return Some(j);
        }
        j += 1;
    }
    None
}

/// Empty groups, one per key, in key order.
fn empty_groups(keys: &Vec<(String, i64)>) -> (groups: Vec<TodayClassGroup>)
    ensures
        groups.len() == keys.len(),
        forall|j: int| 0 <= j < keys.len() ==> (#[trigger] groups@[j]).class_id == keys@[j].1
            && groups@[j].course_code@ == keys@[j].0@ && groups@[j].tasks@.len() == 0,
{
    let mut groups: Vec<TodayClassGroup> = Vec::new();
    let mut j: usize = 0;
    while j < keys.len()
        invariant
            j <= keys.len(),
            groups.len() == j,
            forall|q: int| 0 <= q < j ==> (#[trigger] groups@[q]).class_id == keys@[q].1
                && groups@[q].course_code@ == keys@[q].0@ && groups@[q].tasks@.len() == 0,
        decreases keys.len() - j,
    {
        groups.push(TodayClassGroup { class_id: keys[j].1, course_code: keys[j].0.clone(), tasks: Vec::new() });
        j += 1;
    }
    groups
}

/// Hands each shown row, in row order, to the group of its class.
fn fill_groups(
    rows: Vec<TodayRow>,
    groups: Vec<TodayClassGroup>,
    actionable: &Reached,
    included: &Reached,
    date: &str,
    Ghost(include_overdue): Ghost<bool>,
) -> (res: Vec<TodayClassGroup>)
    requires
        actionable.wf(),
        included.wf(),
        forall|x: i64| #[trigger] actionable.holds(x) <==> is_actionable(rows@, date@, include_overdue, x),
        forall|x: i64| #[trigger] included.holds(x) <==> is_included(rows@, date@, include_overdue, x),
        forall|i: int, j: int| 0 <= i < j < groups.len() ==> #[trigger] groups@[i].class_id != #[trigger] groups@[j].class_id,
        forall|c: i64| #[trigger] class_code(rows@, date@, include_overdue, c, rows.len() as int) is Some
            ==> exists|j: int| 0 <= j < groups.len() && groups@[j].class_id == c,
        forall|j: int| 0 <= j < groups.len() ==> (#[trigger] groups@[j]).tasks@.len() == 0,
    ensures
        res.len() == groups.len(),
        forall|j: int| 0 <= j < groups.len() ==> (#[trigger] res@[j]).class_id == groups@[j].class_id
            && res@[j].course_code == groups@[j].course_code
            && res@[j].tasks@ == class_entries(rows@, date@, include_overdue, groups@[j].class_id, rows.len() as int),
{
    let ghost all = rows@;
    let ghost first = groups@;
    let n = rows.len();
    let mut rows = rows;
    let mut groups = groups;
    let mut k: usize = 0;
    while k < n
        invariant
            n == all.len(),
            k <= n,
            rows@ == all.subrange(k as int, n as int),
            actionable.wf(),
            included.wf(),
            forall|x: i64| #[trigger] actionable.holds(x) <==> is_actionable(all, date@, include_overdue, x),
            forall|x: i64| #[trigger] included.holds(x) <==> is_included(all, date@, include_overdue, x),
            forall|i: int, j: int| 0 <= i < j < first.len() ==> #[trigger] first[i].class_id != #[trigger] first[j].class_id,
            forall|c: i64| #[trigger] class_code(all, date@, include_overdue, c, n as int) is Some
                ==> exists|j: int| 0 <= j < first.len() && first[j].class_id == c,
            groups.len() == first.len(),
            forall|j: int| 0 <= j < first.len() ==> (#[trigger] groups@[j]).class_id == first[j].class_id
                && groups@[j].course_code == first[j].course_code
                && groups@[j].tasks@ == class_entries(all, date@, include_overdue, first[j].class_id, k as int),
        decreases n - k,
    {
        assert(rows@[0] == all[k as int]);
        let r = rows.remove(0);
        assert(rows@ =~= all.subrange(k + 1, n as int));
        let cid = r.task.class_id;
        if included.contains(r.task.id) {
            proof {
                lemma_class_code_some(all, date@, include_overdue, cid, k as int, n as int);
            }
            let found = find_group(&groups, cid);
            let j = match found {
                Some(j) => j,
                None => {
                    proof {
                        let q = choose|q: int| 0 <= q < first.len() && first[q].class_id == cid;
                        assert(groups@[q].class_id == cid);
                    }
                    return groups;
                },
            };
            let overdue = is_due_before(&r, date);
            let context_only = !actionable.contains(r.task.id);
            let ghost row = r;
            let item = TodayTask { task: r.task, overdue, context_only };
            assert(item == entry(all, date@, include_overdue, row));
            let ghost before = groups@;
            let mut g = groups.remove(j);
            g.tasks.push(item);
            groups.insert(j, g);
            proof {
                assert(groups@ =~= before.update(j as int, groups@[j as int]));
                assert forall|q: int| 0 <= q < first.len() implies (#[trigger] groups@[q]).class_id == first[q].class_id
                    && groups@[q].course_code == first[q].course_code
                    && groups@[q].tasks@ == class_entries(all, date@, include_overdue, first[q].class_id, k + 1) by {
                    if q != j {
                        assert(groups@[q] == before[q]);
                        assert(first[q].class_id != first[j as int].class_id);
                    }
                }
            }
        }
        k += 1;
    }
    groups
}

proof fn lemma_row_ids_len(rows: Seq<TodayRow>)
    ensures
        row_ids(rows).len() == rows.len(),
    decreases rows.len(),
{
    if rows.len() > 0 {
        lemma_row_ids_len(rows.drop_last());
    }
}

proof fn lemma_actionable_rows_len(rows: Seq<TodayRow>, date: Seq<char>, include_overdue: bool, n: int)
    requires
        0 <= n,
    ensures
        actionable_rows(rows, date, include_overdue, n).len() <= n,
    decreases n,
{
    if n > 0 {
        lemma_actionable_rows_len(rows, date, include_overdue, n - 1);
    }
}

/// Whether `today_for` can lay out these rows: their number fits an `i64`
/// and every running total of the actionable tasks' estimates does too.
pub fn today_fits(rows: &Vec<TodayRow>, date: &str, include_overdue: bool) -> (r: bool)
    ensures
        r == (rows.len() <= i64::MAX
            && sums_fit(row_estimates(actionable_rows(rows@, date@, include_overdue, rows.len() as int)))),
{
    if rows.len() as u128 > 0x7fff_ffff_ffff_ffffu128 {
        return false;
    }
    let (seeds, down, _up) = links_of(rows, date, include_overdue);
    let actionable = reach(down, seeds);
    let (_ids, estimates) = actionable_list(rows, &actionable, Ghost(date@), Ghost(include_overdue));
    sums_fit_exec(&estimates)
}

/// The Today view of `date` over the eligible tasks, in id order. Seeds
/// are the incomplete tasks due on the day, before it when
/// `include_overdue` is set, or scheduled on it; the actionable tasks are
/// the seeds and the incomplete descendants reached through incomplete
/// children; the shown tasks are those and their ancestors. Groups hold the
/// shown tasks of one class each, in row order, and come ordered by course
/// code, then class id. The count and the estimate total cover the
/// actionable tasks only; the tracked total is handed through.
pub fn today_for(rows: Vec<TodayRow>, date: &str, include_overdue: bool, tracked_seconds_total: i64) -> (r: TodaySummary)
    requires
        rows.len() <= i64::MAX,
        sums_fit(row_estimates(actionable_rows(rows@, date@, include_overdue, rows.len() as int))),
    ensures
        r.task_count as int == actionable_ids(rows@, date@, include_overdue).len(),
        r.estimated_minutes_total as int == total(row_estimates(actionable_rows(rows@, date@, include_overdue, rows.len() as int))),
        r.tracked_seconds_total == tracked_seconds_total,
        forall|i: int, j: int| 0 <= i < j < r.groups.len() ==> group_lt(
            #[trigger] r.groups@[i].course_code@, r.groups@[i].class_id,
            #[trigger] r.groups@[j].course_code@, r.groups@[j].class_id,
        ),
        forall|j: int| 0 <= j < r.groups.len() ==> class_code(rows@, date@, include_overdue, (#[trigger] r.groups@[j]).class_id, rows.len() as int)
            == Some(r.groups@[j].course_code@),
        forall|c: i64| #[trigger] class_code(rows@, date@, include_overdue, c, rows.len() as int) is Some
            ==> exists|j: int| 0 <= j < r.groups.len() && r.groups@[j].class_id == c,
        forall|j: int| 0 <= j < r.groups.len() ==> (#[trigger] r.groups@[j]).tasks@
            == class_entries(rows@, date@, include_overdue, r.groups@[j].class_id, rows.len() as int),
{
    let ghost all = rows@;
    let (seeds, down, up) = links_of(&rows, date, include_overdue);
    let actionable = reach(down, seeds);
    let (ids, estimates) = actionable_list(&rows, &actionable, Ghost(date@), Ghost(include_overdue));
    proof {
        lemma_row_ids_len(actionable_rows(all, date@, include_overdue, all.len() as int));
        lemma_actionable_rows_len(all, date@, include_overdue, all.len() as int);
    }
    let task_count = ids.len() as i64;
    let estimated_minutes_total = sum_i64(&estimates);
    let included = reach(up, ids);
    let keys = class_keys(&rows, &included, Ghost(date@), Ghost(include_overdue));
    let groups = empty_groups(&keys);
    proof {
        assert forall|i: int, j: int| 0 <= i < j < groups.len() implies #[trigger] groups@[i].class_id != #[trigger] groups@[j].class_id by {
            assert(keys@[i].1 != keys@[j].1);
        }
        assert forall|c: i64| #[trigger] class_code(all, date@, include_overdue, c, all.len() as int) is Some
            implies exists|j: int| 0 <= j < groups.len() && groups@[j].class_id == c by {
            let j = choose|j: int| 0 <= j < keys.len() && keys@[j].1 == c;
            assert(groups@[j].class_id == c);
        }
    }
    let ghost made = groups@;
    let groups = fill_groups(rows, groups, &actionable, &included, date, Ghost(include_overdue));
    proof {
        assert forall|i: int, j: int| 0 <= i < j < groups.len() implies group_lt(
            #[trigger] groups@[i].course_code@, groups@[i].class_id,
            #[trigger] groups@[j].course_code@, groups@[j].class_id,
        ) by {
            assert(groups@[i].course_code == made[i].course_code);
            assert(groups@[j].course_code == made[j].course_code);
            assert(group_lt(keys@[i].0@, keys@[i].1, keys@[j].0@, keys@[j].1));
        }
        assert forall|j: int| 0 <= j < groups.len() implies class_code(all, date@, include_overdue, (#[trigger] groups@[j]).class_id, all.len() as int)
            == Some(groups@[j].course_code@) by {
            assert(groups@[j].course_code == made[j].course_code);
            assert(class_code(all, date@, include_overdue, keys@[j].1, all.len() as int) == Some(keys@[j].0@));
        }
        assert forall|c: i64| #[trigger] class_code(all, date@, include_overdue, c, all.len() as int) is Some
            implies exists|j: int| 0 <= j < groups.len() && groups@[j].class_id == c by {
            let j = choose|j: int| 0 <= j < made.len() && made[j].class_id == c;
            assert(groups@[j].class_id == c);
        }
    }
    TodaySummary { groups, task_count, estimated_minutes_total, tracked_seconds_total }
}

proof fn lemma_seed_listed(rows: Seq<TodayRow>, date: Seq<char>, include_overdue: bool, i: int)
    requires
        0 <= i < rows.len(),
        is_seed(rows[i], date, include_overdue),
    ensures
        exists|j: int| 0 <= j < seed_ids(rows, date, include_overdue).len()
            && seed_ids(rows, date, include_overdue)[j] == rows[i].task.id,
    decreases rows.len(),
{
    let rest = seed_ids(rows.drop_last(), date, include_overdue);
    if i < rows.len() - 1 {
        assert(rows.drop_last()[i] == rows[i]);
        lemma_seed_listed(rows.drop_last(), date, include_overdue, i);
        let j = choose|j: int| 0 <= j < rest.len() && rest[j] == rows[i].task.id;
        assert(seed_ids(rows, date, include_overdue)[j] == rest[j]);
    } else {
        assert(seed_ids(rows, date, include_overdue)[rest.len() as int] == rows[i].task.id);
    }
}

proof fn lemma_down_edge_listed(rows: Seq<TodayRow>, i: int)
    requires
        0 <= i < rows.len(),
        rows[i].task.parent_task_id is Some,
        incomplete(rows[i].task),
    ensures
        has_edge(down_edges(rows), rows[i].task.parent_task_id->0, rows[i].task.id),
    decreases rows.len(),
{
    let rest = down_edges(rows.drop_last());
    let e = (rows[i].task.parent_task_id->0, rows[i].task.id);
    if i < rows.len() - 1 {
        assert(rows.drop_last()[i] == rows[i]);
        lemma_down_edge_listed(rows.drop_last(), i);
        let k = choose|k: int| 0 <= k < rest.len() && rest[k] == e;
        assert(down_edges(rows)[k] == rest[k]);
    } else {
        assert(down_edges(rows)[rest.len() as int] == e);
    }
}

proof fn lemma_up_edge_listed(rows: Seq<TodayRow>, i: int)
    requires
        0 <= i < rows.len(),
        rows[i].task.parent_task_id is Some,
    ensures
        has_edge(up_edges(rows), rows[i].task.id, rows[i].task.parent_task_id->0),
    decreases rows.len(),
{
    let rest = up_edges(rows.drop_last());
    let e = (rows[i].task.id, rows[i].task.parent_task_id->0);
    if i < rows.len() - 1 {
        assert(rows.drop_last()[i] == rows[i]);
        lemma_up_edge_listed(rows.drop_last(), i);
        let k = choose|k: int| 0 <= k < rest.len() && rest[k] == e;
        assert(up_edges(rows)[k] == rest[k]);
    } else {
        assert(up_edges(rows)[rest.len() as int] == e);
    }
}

proof fn lemma_row_ids_index(rows: Seq<TodayRow>, j: int)
    requires
        0 <= j < rows.len(),
    ensures
        row_ids(rows).len() == rows.len(),
        row_ids(rows)[j] == rows[j].task.id,
    decreases rows.len(),
{
    lemma_row_ids_len(rows);
    if j < rows.len() - 1 {
        lemma_row_ids_index(rows.drop_last(), j);
    }
}

proof fn lemma_actionable_listed(rows: Seq<TodayRow>, date: Seq<char>, include_overdue: bool, i: int, n: int)
    requires
        0 <= i < n <= rows.len(),
        is_actionable(rows, date, include_overdue, rows[i].task.id),
    ensures
        exists|j: int| 0 <= j < actionable_rows(rows, date, include_overdue, n).len()
            && actionable_rows(rows, date, include_overdue, n)[j] == rows[i],
    decreases n,
{
    let rest = actionable_rows(rows, date, include_overdue, n - 1);
    if i < n - 1 {
        lemma_actionable_listed(rows, date, include_overdue, i, n - 1);
        let j = choose|j: int| 0 <= j < rest.len() && rest[j] == rows[i];
        assert(actionable_rows(rows, date, include_overdue, n)[j] == rest[j]);
    } else {
        assert(actionable_rows(rows, date, include_overdue, n)[rest.len() as int] == rows[i]);
    }
}

/// Law: a task due or scheduled on the day (or overdue, when those are
/// included) and not completed is actionable.
pub proof fn seed_is_actionable(rows: Seq<TodayRow>, date: Seq<char>, include_overdue: bool, i: int)
    requires
        0 <= i < rows.len(),
        is_seed(rows[i], date, include_overdue),
    ensures
        is_actionable(rows, date, include_overdue, rows[i].task.id),
{
    lemma_seed_listed(rows, date, include_overdue, i);
    reaches_self(down_edges(rows), rows[i].task.id);
}

/// Law: an incomplete child of an actionable task is actionable.
pub proof fn incomplete_child_is_actionable(rows: Seq<TodayRow>, date: Seq<char>, include_overdue: bool, i: int)
    requires
        0 <= i < rows.len(),
        rows[i].task.parent_task_id is Some,
        incomplete(rows[i].task),
        is_actionable(rows, date, include_overdue, rows[i].task.parent_task_id->0),
    ensures
        is_actionable(rows, date, include_overdue, rows[i].task.id),
{
    let edges = down_edges(rows);
    let seeds = seed_ids(rows, date, include_overdue);
    let p = rows[i].task.parent_task_id->0;
    lemma_down_edge_listed(rows, i);
    let s = choose|s: int| 0 <= s < seeds.len() && reaches(edges, #[trigger] seeds[s], p);
    reaches_step(edges, seeds[s], p, rows[i].task.id);
}

/// Law: every actionable task is shown.
pub proof fn actionable_is_shown(rows: Seq<TodayRow>, date: Seq<char>, include_overdue: bool, i: int)
    requires
        0 <= i < rows.len(),
        is_actionable(rows, date, include_overdue, rows[i].task.id),
    ensures
        is_included(rows, date, include_overdue, rows[i].task.id),
{
    let a = actionable_rows(rows, date, include_overdue, rows.len() as int);
    lemma_actionable_listed(rows, date, include_overdue, i, rows.len() as int);
    let j = choose|j: int| 0 <= j < a.len() && a[j] == rows[i];
    lemma_row_ids_index(a, j);
    reaches_self(up_edges(rows), rows[i].task.id);
    assert(actionable_ids(rows, date, include_overdue)[j] == rows[i].task.id);
}

/// Law: the parent of a shown task is shown.
pub proof fn parent_of_shown_is_shown(rows: Seq<TodayRow>, date: Seq<char>, include_overdue: bool, i: int)
    requires
        0 <= i < rows.len(),
        rows[i].task.parent_task_id is Some,
        is_included(rows, date, include_overdue, rows[i].task.id),
    ensures
        is_included(rows, date, include_overdue, rows[i].task.parent_task_id->0),
{
    let edges = up_edges(rows);
    let starts = actionable_ids(rows, date, include_overdue);
    let p = rows[i].task.parent_task_id->0;
    lemma_up_edge_listed(rows, i);
    let s = choose|s: int| 0 <= s < starts.len() && reaches(edges, #[trigger] starts[s], rows[i].task.id);
    reaches_step(edges, starts[s], rows[i].task.id, p);
}

/// No two rows share a task id.
pub open spec fn today_ids_distinct(rows: Seq<TodayRow>) -> bool {
    forall|a: int, b: int| 0 <= a < b < rows.len() ==> #[trigger] rows[a].task.id != #[trigger] rows[b].task.id
}

proof fn lemma_entry_origin(rows: Seq<TodayRow>, date: Seq<char>, include_overdue: bool, c: i64, n: int, k: int)
    requires
        0 <= n <= rows.len(),
        0 <= k < class_entries(rows, date, include_overdue, c, n).len(),
    ensures
        exists|j: int| 0 <= j < n && rows[j].task.class_id == c && is_included(rows, date, include_overdue, rows[j].task.id)
            && class_entries(rows, date, include_overdue, c, n)[k] == entry(rows, date, include_overdue, #[trigger] rows[j]),
    decreases n,
{
    if n > 0 {
        let rest = class_entries(rows, date, include_overdue, c, n - 1);
        if k < rest.len() {
            lemma_entry_origin(rows, date, include_overdue, c, n - 1, k);
            let j = choose|j: int| 0 <= j < n - 1 && rows[j].task.class_id == c
                && is_included(rows, date, include_overdue, rows[j].task.id)
                && rest[k] == entry(rows, date, include_overdue, #[trigger] rows[j]);
            assert(class_entries(rows, date, include_overdue, c, n)[k] == rest[k]);
        } else {
            assert(class_entries(rows, date, include_overdue, c, n)[k] == entry(rows, date, include_overdue, rows[n - 1]));
        }
    }
}

proof fn lemma_entry_has(rows: Seq<TodayRow>, date: Seq<char>, include_overdue: bool, n: int, j: int)
    requires
        0 <= j < n <= rows.len(),
        is_included(rows, date, include_overdue, rows[j].task.id),
    ensures
        exists|k: int| 0 <= k < class_entries(rows, date, include_overdue, rows[j].task.class_id, n).len()
            && #[trigger] class_entries(rows, date, include_overdue, rows[j].task.class_id, n)[k]
                == entry(rows, date, include_overdue, rows[j]),
    decreases n,
{
    let c = rows[j].task.class_id;
    let e = class_entries(rows, date, include_overdue, c, n);
    if j == n - 1 {
        assert(e[e.len() - 1] == entry(rows, date, include_overdue, rows[j]));
    } else {
        lemma_entry_has(rows, date, include_overdue, n - 1, j);
        let rest = class_entries(rows, date, include_overdue, c, n - 1);
        let k = choose|k: int| 0 <= k < rest.len() && #[trigger] rest[k] == entry(rows, date, include_overdue, rows[j]);
        assert(e[k] == rest[k]);
    }
}

proof fn lemma_entries_distinct(rows: Seq<TodayRow>, date: Seq<char>, include_overdue: bool, c: i64, n: int, k1: int, k2: int)
    requires
        0 <= n <= rows.len(),
        today_ids_distinct(rows),
        0 <= k1 < k2 < class_entries(rows, date, include_overdue, c, n).len(),
    ensures
        class_entries(rows, date, include_overdue, c, n)[k1].task.id != class_entries(rows, date, include_overdue, c, n)[k2].task.id,
    decreases n,
{
    let rest = class_entries(rows, date, include_overdue, c, n - 1);
    let e = class_entries(rows, date, include_overdue, c, n);
    if k2 < rest.len() {
        lemma_entries_distinct(rows, date, include_overdue, c, n - 1, k1, k2);
        assert(e[k1] == rest[k1] && e[k2] == rest[k2]);
    } else {
        lemma_entry_origin(rows, date, include_overdue, c, n - 1, k1);
        let j = choose|j: int| 0 <= j < n - 1 && rows[j].task.class_id == c
            && is_included(rows, date, include_overdue, rows[j].task.id)
            && rest[k1] == entry(rows, date, include_overdue, #[trigger] rows[j]);
        assert(e[k1] == rest[k1]);
        assert(e[k2] == entry(rows, date, include_overdue, rows[n - 1]));
        assert(rows[j].task.id != rows[n - 1].task.id);
    }
}

/// Law: in the groups of the Today view (each group lists `class_entries`
/// of its class), a task is listed exactly when it is shown, in its own
/// class's group and in no other, once; and it is marked as context
/// exactly when it is not actionable.
pub proof fn shown_task_listed_once(rows: Seq<TodayRow>, date: Seq<char>, include_overdue: bool, i: int)
    requires
        0 <= i < rows.len(),
        today_ids_distinct(rows),
    ensures
        forall|c: i64| #![trigger class_entries(rows, date, include_overdue, c, rows.len() as int)]
            (exists|k: int| 0 <= k < class_entries(rows, date, include_overdue, c, rows.len() as int).len()
            && (#[trigger] class_entries(rows, date, include_overdue, c, rows.len() as int)[k]).task.id == rows[i].task.id)
            <==> (c == rows[i].task.class_id && is_included(rows, date, include_overdue, rows[i].task.id)),
        forall|c: i64, k1: int, k2: int| 0 <= k1 < k2 < class_entries(rows, date, include_overdue, c, rows.len() as int).len()
            ==> (#[trigger] class_entries(rows, date, include_overdue, c, rows.len() as int)[k1]).task.id
                != (#[trigger] class_entries(rows, date, include_overdue, c, rows.len() as int)[k2]).task.id,
        forall|c: i64, k: int| 0 <= k < class_entries(rows, date, include_overdue, c, rows.len() as int).len()
            && (#[trigger] class_entries(rows, date, include_overdue, c, rows.len() as int)[k]).task.id == rows[i].task.id
            ==> class_entries(rows, date, include_overdue, c, rows.len() as int)[k].context_only
                == !is_actionable(rows, date, include_overdue, rows[i].task.id),
{
    let n = rows.len() as int;
    let id = rows[i].task.id;
    assert forall|c: i64| #![trigger class_entries(rows, date, include_overdue, c, n)]
        (exists|k: int| 0 <= k < class_entries(rows, date, include_overdue, c, n).len()
        && (#[trigger] class_entries(rows, date, include_overdue, c, n)[k]).task.id == id)
        <==> (c == rows[i].task.class_id && is_included(rows, date, include_overdue, id)) by {
        let e = class_entries(rows, date, include_overdue, c, n);
        if c == rows[i].task.class_id && is_included(rows, date, include_overdue, id) {
            lemma_entry_has(rows, date, include_overdue, n, i);
            let k = choose|k: int| 0 <= k < e.len() && #[trigger] e[k] == entry(rows, date, include_overdue, rows[i]);
            assert(e[k].task.id == id);
        }
        if exists|k: int| 0 <= k < e.len() && (#[trigger] e[k]).task.id == id {
            let k = choose|k: int| 0 <= k < e.len() && (#[trigger] e[k]).task.id == id;
            lemma_entry_origin(rows, date, include_overdue, c, n, k);
            let j = choose|j: int| 0 <= j < n && rows[j].task.class_id == c
                && is_included(rows, date, include_overdue, rows[j].task.id)
                && e[k] == entry(rows, date, include_overdue, #[trigger] rows[j]);
            if j < i {
                assert(rows[j].task.id != rows[i].task.id);
            } else if j > i {
                assert(rows[i].task.id != rows[j].task.id);
            }
        }
    }
    assert forall|c: i64, k1: int, k2: int| 0 <= k1 < k2 < class_entries(rows, date, include_overdue, c, n).len()
        implies (#[trigger] class_entries(rows, date, include_overdue, c, n)[k1]).task.id
            != (#[trigger] class_entries(rows, date, include_overdue, c, n)[k2]).task.id by {
        lemma_entries_distinct(rows, date, include_overdue, c, n, k1, k2);
    }
    assert forall|c: i64, k: int| 0 <= k < class_entries(rows, date, include_overdue, c, n).len()
        && (#[trigger] class_entries(rows, date, include_overdue, c, n)[k]).task.id == id
        implies class_entries(rows, date, include_overdue, c, n)[k].context_only
            == !is_actionable(rows, date, include_overdue, id) by {
        lemma_entry_origin(rows, date, include_overdue, c, n, k);
    }
}

proof fn lemma_seed_origin(rows: Seq<TodayRow>, date: Seq<char>, include_overdue: bool, k: int)
    requires
        0 <= k < seed_ids(rows, date, include_overdue).len(),
    ensures
        exists|j: int| 0 <= j < rows.len() && (#[trigger] rows[j]).task.id == seed_ids(rows, date, include_overdue)[k]
            && incomplete(rows[j].task),
    decreases rows.len(),
{
    let rest = seed_ids(rows.drop_last(), date, include_overdue);
    if k < rest.len() {
        lemma_seed_origin(rows.drop_last(), date, include_overdue, k);
        let j = choose|j: int| 0 <= j < rows.len() - 1 && (#[trigger] rows.drop_last()[j]).task.id == rest[k]
            && incomplete(rows.drop_last()[j].task);
        assert(rows.drop_last()[j] == rows[j]);
    } else {
        assert(rows[rows.len() - 1].task.id == seed_ids(rows, date, include_overdue)[k]);
    }
}

proof fn lemma_down_target(rows: Seq<TodayRow>, k: int)
    requires
        0 <= k < down_edges(rows).len(),
    ensures
        exists|j: int| 0 <= j < rows.len() && (#[trigger] rows[j]).task.id == down_edges(rows)[k].1
            && incomplete(rows[j].task),
    decreases rows.len(),
{
    let rest = down_edges(rows.drop_last());
    if k < rest.len() {
        lemma_down_target(rows.drop_last(), k);
        let j = choose|j: int| 0 <= j < rows.len() - 1 && (#[trigger] rows.drop_last()[j]).task.id == rest[k].1
            && incomplete(rows.drop_last()[j].task);
        assert(rows.drop_last()[j] == rows[j]);
    } else {
        assert(rows[rows.len() - 1].task.id == down_edges(rows)[k].1);
    }
}

/// Law: every actionable task of the Today view is incomplete: seeds are
/// open, and work is reached from them through open children only.
pub proof fn actionable_tasks_are_incomplete(rows: Seq<TodayRow>, date: Seq<char>, include_overdue: bool, i: int)
    requires
        0 <= i < rows.len(),
        today_ids_distinct(rows),
        is_actionable(rows, date, include_overdue, rows[i].task.id),
    ensures
        incomplete(rows[i].task),
{
    let edges = down_edges(rows);
    let seeds = seed_ids(rows, date, include_overdue);
    let id = rows[i].task.id;
    let s = choose|s: int| 0 <= s < seeds.len() && reaches(edges, #[trigger] seeds[s], id);
    let path = choose|path: Seq<i64>| #[trigger] is_chain(edges, path) && path[0] == seeds[s] && path.last() == id;
    let j: int;
    if path.len() == 1 {
        lemma_seed_origin(rows, date, include_overdue, s);
        j = choose|j: int| 0 <= j < rows.len() && (#[trigger] rows[j]).task.id == seeds[s] && incomplete(rows[j].task);
    } else {
        let n = path.len() - 1;
        assert(has_edge(edges, path[n - 1], path[n - 1 + 1]));
        let k = choose|k: int| 0 <= k < edges.len() && edges[k] == (path[n - 1], path[n]);
        lemma_down_target(rows, k);
        j = choose|j: int| 0 <= j < rows.len() && (#[trigger] rows[j]).task.id == edges[k].1 && incomplete(rows[j].task);
    }
    if j < i {
        assert(rows[j].task.id != rows[i].task.id);
    } else if j > i {
        assert(rows[i].task.id != rows[j].task.id);
    }
}

proof fn lemma_actionable_row_origin(rows: Seq<TodayRow>, date: Seq<char>, include_overdue: bool, n: int, k: int)
    requires
        0 <= n <= rows.len(),
        0 <= k < actionable_rows(rows, date, include_overdue, n).len(),
    ensures
        exists|j: int| 0 <= j < n && actionable_rows(rows, date, include_overdue, n)[k] == #[trigger] rows[j]
            && is_actionable(rows, date, include_overdue, rows[j].task.id),
    decreases n,
{
    let rest = actionable_rows(rows, date, include_overdue, n - 1);
    if k < rest.len() {
        lemma_actionable_row_origin(rows, date, include_overdue, n - 1, k);
        assert(actionable_rows(rows, date, include_overdue, n)[k] == rest[k]);
    } else {
        assert(actionable_rows(rows, date, include_overdue, n)[k] == rows[n - 1]);
    }
}

/// Law: no completed task is counted on the Today view. Every row behind
/// the task count and the estimate total is incomplete, and every task
/// listed in a class group as actionable (not as context) is incomplete.
pub proof fn completed_tasks_are_never_counted(rows: Seq<TodayRow>, date: Seq<char>, include_overdue: bool)
    requires
        today_ids_distinct(rows),
    ensures
        forall|k: int| 0 <= k < actionable_rows(rows, date, include_overdue, rows.len() as int).len()
            ==> incomplete((#[trigger] actionable_rows(rows, date, include_overdue, rows.len() as int)[k]).task),
        forall|c: i64, k: int| 0 <= k < class_entries(rows, date, include_overdue, c, rows.len() as int).len()
            && !(#[trigger] class_entries(rows, date, include_overdue, c, rows.len() as int)[k]).context_only
            ==> incomplete(class_entries(rows, date, include_overdue, c, rows.len() as int)[k].task),
{
    let n = rows.len() as int;
    assert forall|k: int| 0 <= k < actionable_rows(rows, date, include_overdue, n).len()
        implies incomplete((#[trigger] actionable_rows(rows, date, include_overdue, n)[k]).task) by {
        lemma_actionable_row_origin(rows, date, include_overdue, n, k);
        let j = choose|j: int| 0 <= j < n && actionable_rows(rows, date, include_overdue, n)[k] == #[trigger] rows[j]
            && is_actionable(rows, date, include_overdue, rows[j].task.id);
        actionable_tasks_are_incomplete(rows, date, include_overdue, j);
    }
    assert forall|c: i64, k: int| 0 <= k < class_entries(rows, date, include_overdue, c, n).len()
        && !(#[trigger] class_entries(rows, date, include_overdue, c, n)[k]).context_only
        implies incomplete(class_entries(rows, date, include_overdue, c, n)[k].task) by {
        lemma_entry_origin(rows, date, include_overdue, c, n, k);
        let j = choose|j: int| 0 <= j < n && rows[j].task.class_id == c
            && is_included(rows, date, include_overdue, rows[j].task.id)
            && class_entries(rows, date, include_overdue, c, n)[k] == entry(rows, date, include_overdue, #[trigger] rows[j]);
        actionable_tasks_are_incomplete(rows, date, include_overdue, j);
    }
}

} // verus!
