//! The deterministic study planner: a proposal of study blocks over the
//! next days that fills free capacity in 25- to 90-minute chunks, most
//! urgent work first, never past a task's deadline; and the checks on a
//! plan the user applies.
use vstd::prelude::*;
use crate::dates::{parse_ymd, parsed_ymd, print_day, printable, printed_ymd};
use crate::tasks::Task;
use crate::text::{byte_prefix, cut_ok, cut_ok_exec, first_ten_bytes, message, str_eq, string_of};

verus! {

/// A request for a proposal.
pub struct PlanRequest {
    pub start_date: String,
    pub days: i64,
}

/// A proposed study block.
pub struct ProposedBlock {
    pub task_id: i64,
    pub task_title: String,
    pub course_code: String,
    pub planned_date: String,
    pub planned_minutes: i64,
    pub reason: String,
}

/// One day of a proposal.
pub struct PlanDay {
    pub date: String,
    pub capacity_minutes: Option<i64>,
    pub existing_block_minutes: i64,
    pub proposed_minutes: i64,
    pub blocks: Vec<ProposedBlock>,
}

/// A proposal, with the titles of overdue work it could not schedule.
pub struct PlanProposal {
    pub start_date: String,
    pub end_date: String,
    pub days: Vec<PlanDay>,
    pub unschedulable_overdue: Vec<String>,
}

/// A plan to apply.
pub struct ApplyPlanInput {
    pub blocks: Vec<ProposedBlockInput>,
}

/// One block of a plan to apply.
pub struct ProposedBlockInput {
    pub task_id: i64,
    pub planned_date: String,
    pub planned_minutes: i64,
}

/// The planning horizon: `days` held to one to seven.
pub open spec fn horizon(days: i64) -> int {
    if days < 1 {
        1
    } else if days > 7 {
        7
    } else {
        days as int
    }
}

/// The days a proposal covers.
pub struct PlanWindow {
    pub start: String,
    pub end: String,
    pub start_day: i32,
    pub day_numbers: Vec<i32>,
    pub days: Vec<String>,
}

/// The refusal of an unreadable start date.
pub open spec fn bad_start_message() -> Seq<char> {
    "Choose a valid planning start date."@
}

/// The days from `start_date` on, `days` of them (held to one to seven).
/// The start must be a valid date; a window reaching past the dates chrono
/// can represent is refused in the same words.
pub fn plan_window(start_date: &str, days: i64) -> (r: Result<PlanWindow, String>)
    ensures
        parsed_ymd(start_date@) is None ==> (r matches Err(m) && m@ == bad_start_message()),
        parsed_ymd(start_date@) matches Some(s) ==> {
            &&& r is Ok <==> forall|o: int| 0 <= o <= horizon(days) ==> #[trigger] printable(s + o)
            &&& r matches Err(m) ==> m@ == bad_start_message()
            &&& r matches Ok(w) ==> {
                &&& w.start_day == s
                &&& w.days.len() == horizon(days)
                &&& w.day_numbers.len() == horizon(days)
                &&& forall|o: int| 0 <= o < horizon(days) ==> w.day_numbers@[o] == s + o
                    && Some((#[trigger] w.days@[o])@) == printed_ymd(s + o)
                &&& Some(w.start@) == printed_ymd(s)
                &&& Some(w.end@) == printed_ymd(s + horizon(days) - 1)
            }
        },
{
    let s = match parse_ymd(start_date) {
        Some(d) => d,
        None => {
            return Err(message("Choose a valid planning start date."));
        },
    };
    let n: i64 = if days < 1 {
        1
    } else if days > 7 {
        7
    } else {
        days
    };
    let mut names: Vec<String> = Vec::new();
    let mut numbers: Vec<i32> = Vec::new();
    let mut o: i64 = 0;
    while o < n
        invariant
            1 <= n <= 7,
            n == horizon(days),
            -100_000_000 < s < 100_000_000,
            parsed_ymd(start_date@) == Some(s as int),
            0 <= o <= n,
            names.len() == o,
            numbers.len() == o,
            forall|q: int| 0 <= q < o ==> #[trigger] printable(s + q),
            forall|q: int| 0 <= q < o ==> #[trigger] numbers@[q] == s + q,
            forall|q: int| 0 <= q < o ==> Some((#[trigger] names@[q])@) == printed_ymd(s + q),
        decreases n - o,
    {
        let day: i64 = s as i64 + o;
        match print_day(day) {
            Some(t) => {
                names.push(t);
                assert(day as i32 == s + o);
                numbers.push(day as i32);
            },
            None => {
                assert(!printable(s + o));
                return Err(message("Choose a valid planning start date."));
            },
        }
        o += 1;
    }
    let last: i64 = s as i64 + n;
    if print_day(last).is_none() {
        assert(!printable(s + n));
        return Err(message("Choose a valid planning start date."));
    }
    let start = names[0].clone();
    let end = names[(n - 1) as usize].clone();
    Ok(PlanWindow { start, end, start_day: s, day_numbers: numbers, days: names })
}

/// An open eligible task, with the minutes of its remaining estimate not
/// yet covered by study blocks and the number of open tasks it depends on.
pub struct PlanRow {
    pub task: Task,
    pub unplanned_minutes: i64,
    pub blocked_by_open_count: i64,
}

/// What the planner knows of a task it may schedule.
pub struct Candidate {
    pub id: i64,
    pub class_id: i64,
    pub title: String,
    pub priority: i64,
    pub unplanned: i64,
    pub remaining: i64,
    pub due: Option<i32>,
}

/// The remaining estimate, zero when unknown.
pub open spec fn remaining_or_zero(r: PlanRow) -> int {
    match r.task.remaining_minutes {
        Some(m) => m as int,
        None => 0,
    }
}

/// The day of the due value's date part (its first ten bytes).
pub open spec fn due_day(r: PlanRow) -> Option<int> {
    match r.task.due_at {
        Some(d) => parsed_ymd(byte_prefix(d@, 10)),
        None => None,
    }
}

/// A task the planner considers: open, with at least 25 minutes left and
/// no open task it depends on.
pub open spec fn is_candidate(r: PlanRow) -> bool {
    &&& r.task.status@ != "completed"@
    &&& remaining_or_zero(r) >= 25
    &&& r.blocked_by_open_count == 0
}

/// The planner's view of a row.
pub open spec fn candidate_of(r: PlanRow) -> Candidate {
    Candidate {
        id: r.task.id,
        class_id: r.task.class_id,
        title: r.task.title,
        priority: match r.task.priority {
            Some(p) => p,
            None => 0,
        },
        unplanned: r.unplanned_minutes,
        remaining: remaining_or_zero(r) as i64,
        due: match due_day(r) {
            Some(d) => Some(d as i32),
            None => None,
        },
    }
}

/// The candidates among the rows, in row order.
pub open spec fn candidates(rows: Seq<PlanRow>) -> Seq<Candidate>
    decreases rows.len(),
{
    if rows.len() == 0 {
        Seq::empty()
    } else {
        let rest = candidates(rows.drop_last());
        if is_candidate(rows.last()) {
            rest.push(candidate_of(rows.last()))
        } else {
            rest
        }
    }
}

/// The date part of every candidate's due value can be cut out, and its
/// priority and unplanned minutes can be negated: where the ordering does
/// not panic.
pub open spec fn rows_plannable(rows: Seq<PlanRow>) -> bool {
    forall|i: int| 0 <= i < rows.len() && is_candidate(#[trigger] rows[i]) ==> {
        &&& (rows[i].task.due_at matches Some(d) ==> cut_ok(d@, 10))
        &&& rows[i].task.priority != Some(i64::MIN)
        &&& rows[i].unplanned_minutes != i64::MIN
    }
}

fn due_of_row(r: &PlanRow) -> (d: Option<i32>)
    ensures
        d == (match due_day(*r) {
            Some(x) => Some(x as i32),
            None => None,
        }),
        d matches Some(x) ==> due_day(*r) == Some(x as int),
{
    match &r.task.due_at {
        Some(text) => {
            let head = first_ten_bytes(text.as_str());
            let cut = string_of(head.as_slice());
            parse_ymd(cut.as_str())
        },
        None => None,
    }
}

/// The candidates among the rows, in row order.
fn candidates_of(rows: &Vec<PlanRow>) -> (r: Vec<Candidate>)
    ensures
        r@ == candidates(rows@),
        forall|i: int| 0 <= i < r.len() ==> (#[trigger] r@[i]).remaining >= 25,
{
    proof {
        reveal_strlit("completed");
    }
    let mut out: Vec<Candidate> = Vec::new();
    let mut k: usize = 0;
    while k < rows.len()
        invariant
            k <= rows.len(),
            out@ == candidates(rows@.take(k as int)),
            forall|i: int| 0 <= i < out.len() ==> (#[trigger] out@[i]).remaining >= 25,
        decreases rows.len() - k,
    {
        assert(rows@.take(k + 1).drop_last() =~= rows@.take(k as int));
        assert(rows@.take(k + 1).last() == rows@[k as int]);
        let r = &rows[k];
        let remaining: i64 = match r.task.remaining_minutes {
            Some(m) => m,
            None => 0,
        };
        if !str_eq(r.task.status.as_str(), "completed") && remaining >= 25 && r.blocked_by_open_count == 0 {
            let priority: i64 = match r.task.priority {
                Some(p) => p,
                None => 0,
            };
            let c = Candidate {
                id: r.task.id,
                class_id: r.task.class_id,
                title: r.task.title.clone(),
                priority,
                unplanned: r.unplanned_minutes,
                remaining,
                due: due_of_row(r),
            };
            assert(c == candidate_of(*r));
            out.push(c);
        }
        k += 1;
    }
    assert(rows@.take(rows.len() as int) =~= rows@);
    out
}

/// The planner's order: tasks with a due date first, earlier due dates
/// first, then higher priority, more unplanned minutes, more remaining
/// minutes, and lower id.
pub open spec fn ranks_before(a: Candidate, b: Candidate) -> bool {
    if (a.due is None) != (b.due is None) {
        a.due is Some
    } else if a.due != b.due {
        a.due->0 < b.due->0
    } else if a.priority != b.priority {
        a.priority > b.priority
    } else if a.unplanned != b.unplanned {
        a.unplanned > b.unplanned
    } else if a.remaining != b.remaining {
        a.remaining > b.remaining
    } else {
        a.id < b.id
    }
}

/// Candidate `a` at position `ia` of the candidates goes before candidate
/// `b` at `ib`; equal keys keep their order (the sort is stable).
pub open spec fn goes_before(a: Candidate, ia: int, b: Candidate, ib: int) -> bool {
    ranks_before(a, b) || (!ranks_before(b, a) && ia < ib)
}

proof fn goes_before_facts(a: Candidate, ia: int, b: Candidate, ib: int, c: Candidate, ic: int)
    ensures
        !goes_before(a, ia, a, ia),
        goes_before(a, ia, b, ib) && goes_before(b, ib, c, ic) ==> goes_before(a, ia, c, ic),
        ia != ib ==> goes_before(a, ia, b, ib) || goes_before(b, ib, a, ia),
        goes_before(a, ia, b, ib) ==> !goes_before(b, ib, a, ia),
{
}

/// `order` lists each position below `n` once.
pub open spec fn is_permutation(order: Seq<int>, n: int) -> bool {
    &&& order.len() == n
    &&& forall|i: int| 0 <= i < n ==> 0 <= #[trigger] order[i] < n
    &&& forall|i: int, j: int| 0 <= i < j < n ==> #[trigger] order[i] != #[trigger] order[j]
}

/// `order` lists the candidates in the planner's order.
pub open spec fn in_plan_order(cands: Seq<Candidate>, order: Seq<int>) -> bool {
    forall|i: int, j: int| 0 <= i < j < order.len()
        ==> goes_before(cands[#[trigger] order[i]], order[i], cands[#[trigger] order[j]], order[j])
}

/// The positions as integers.
pub open spec fn positions(v: Seq<usize>) -> Seq<int> {
    v.map_values(|x: usize| x as int)
}

fn goes_before_exec(a: &Candidate, ia: usize, b: &Candidate, ib: usize) -> (r: bool)
    ensures
        r == goes_before(*a, ia as int, *b, ib as int),
{
    let ab = ranks_before_exec(a, b);
    let ba = ranks_before_exec(b, a);
    ab || (!ba && ia < ib)
}

fn ranks_before_exec(a: &Candidate, b: &Candidate) -> (r: bool)
    ensures
        r == ranks_before(*a, *b),
{
    if a.due.is_none() != b.due.is_none() {
        a.due.is_some()
    } else if a.due != b.due {
        match (a.due, b.due) {
            (Some(x), Some(y)) => x < y,
            _ => false,
        }
    } else if a.priority != b.priority {
        a.priority > b.priority
    } else if a.unplanned != b.unplanned {
        a.unplanned > b.unplanned
    } else if a.remaining != b.remaining {
        a.remaining > b.remaining
    } else {
        a.id < b.id
    }
}

/// The positions of the candidates in the planner's order.
fn plan_order(cands: &Vec<Candidate>) -> (order: Vec<usize>)
    ensures
        is_permutation(positions(order@), cands.len() as int),
        in_plan_order(cands@, positions(order@)),
{
    let mut order: Vec<usize> = Vec::new();
    let mut i: usize = 0;
    while i < cands.len()
        invariant
            i <= cands.len(),
            order.len() == i,
            forall|q: int| 0 <= q < i ==> #[trigger] order@[q] < i,
            forall|q: int, r: int| 0 <= q < r < i ==> #[trigger] order@[q] != #[trigger] order@[r],
            in_plan_order(cands@, positions(order@)),
        decreases cands.len() - i,
    {
        let mut p: usize = 0;
        while p < order.len() && !goes_before_exec(&cands[i], i, &cands[order[p]], order[p])
            invariant
                i < cands.len(),
                p <= order.len(),
                order.len() == i,
                forall|q: int| 0 <= q < i ==> #[trigger] order@[q] < i,
                forall|q: int| 0 <= q < p ==> goes_before(cands@[#[trigger] order@[q] as int], order@[q] as int, cands@[i as int], i as int),
            decreases order.len() - p,
        {
            proof {
                let x = order@[p as int] as int;
                goes_before_facts(cands@[i as int], i as int, cands@[x], x, cands@[x], x);
            }
            p += 1;
        }
        let ghost s = order@;
        let ghost t = positions(s);
        proof {
            assert forall|j: int| p <= j < s.len()
                implies goes_before(cands@[i as int], i as int, cands@[#[trigger] t[j]], t[j]) by {
                if j > p {
                    assert(goes_before(cands@[t[p as int]], t[p as int], cands@[t[j]], t[j]));
                    goes_before_facts(cands@[i as int], i as int, cands@[t[p as int]], t[p as int], cands@[t[j]], t[j]);
                }
            }
        }
        order.insert(p, i);
        proof {
            let u = positions(order@);
            assert(order@ == s.insert(p as int, i));
            assert forall|a: int, b: int| 0 <= a < b < u.len()
                implies goes_before(cands@[#[trigger] u[a]], u[a], cands@[#[trigger] u[b]], u[b]) by {
                if b < p {
                    assert(u[a] == t[a] && u[b] == t[b]);
                } else if b == p {
                    assert(u[a] == t[a] && u[b] == i);
                } else if a == p {
                    assert(u[a] == i && u[b] == t[b - 1]);
                } else if a < p {
                    assert(u[a] == t[a] && u[b] == t[b - 1]);
                    goes_before_facts(cands@[t[a]], t[a], cands@[i as int], i as int, cands@[t[b - 1]], t[b - 1]);
                } else {
                    assert(u[a] == t[a - 1] && u[b] == t[b - 1]);
                }
            }
            assert forall|q: int| 0 <= q < i + 1 implies #[trigger] order@[q] < i + 1 by {
                if q < p {
                    assert(order@[q] == s[q]);
                } else if q > p {
                    assert(order@[q] == s[q - 1]);
                }
            }
            assert forall|q: int, r: int| 0 <= q < r < i + 1 implies #[trigger] order@[q] != #[trigger] order@[r] by {
                if r < p {
                    assert(order@[q] == s[q] && order@[r] == s[r]);
                } else if r == p {
                    assert(order@[q] == s[q]);
                } else if q == p {
                    assert(order@[r] == s[r - 1]);
                } else if q < p {
                    assert(order@[q] == s[q] && order@[r] == s[r - 1]);
                } else {
                    assert(order@[q] == s[q - 1] && order@[r] == s[r - 1]);
                }
            }
        }
        i += 1;
    }
    order
}

/// The candidates in the listed order.
pub open spec fn arranged(cands: Seq<Candidate>, order: Seq<int>) -> Seq<Candidate> {
    Seq::new(order.len(), |j: int| cands[order[j]])
}

/// The planner's state while it walks a day: minutes left per task (in
/// planner order), minutes still free that day, the blocks placed that day
/// (task position and minutes), and the overdue titles seen so far.
pub struct Ledger {
    pub left: Seq<int>,
    pub available: int,
    pub placed: Seq<(int, int)>,
    pub overdue: Seq<Seq<char>>,
}

/// The smaller of two integers.
pub open spec fn smaller(a: int, b: int) -> int {
    if a <= b {
        a
    } else {
        b
    }
}

/// The planner looks at task `j` on `day`: with under 25 minutes left on
/// either side it moves on; an overdue task (due before the first day) is
/// noted, once per title, and not scheduled; a task due before `day` is not
/// scheduled; otherwise it gets a block of up to 90 minutes, no more than
/// it has left or the day has free.
pub open spec fn visit(s: Seq<Candidate>, start: int, day: int, l: Ledger, j: int) -> Ledger {
    let c = s[j];
    if l.left[j] < 25 || l.available < 25 {
        l
    } else if c.due is Some && (c.due->0 as int) < start {
        if l.overdue.contains(c.title@) {
            l
        } else {
            Ledger { left: l.left, available: l.available, placed: l.placed, overdue: l.overdue.push(c.title@) }
        }
    } else if c.due is Some && day > c.due->0 {
        l
    } else {
        let chunk = smaller(smaller(l.left[j], 90), l.available);
        Ledger {
            left: l.left.update(j, l.left[j] - chunk),
            available: l.available - chunk,
            placed: l.placed.push((j, chunk)),
            overdue: l.overdue,
        }
    }
}

/// The planner after looking at the first `m` tasks on `day`.
pub open spec fn walk(s: Seq<Candidate>, start: int, day: int, l: Ledger, m: int) -> Ledger
    decreases m,
{
    if m <= 0 {
        l
    } else {
        visit(s, start, day, walk(s, start, day, l, m - 1), m - 1)
    }
}

/// The free minutes of a day: capacity less existing blocks, not below
/// zero; none without a capacity.
pub open spec fn free_minutes(capacity: Option<i64>, existing: i64) -> int {
    match capacity {
        Some(v) => if v - existing > 0 { v - existing } else { 0 },
        None => 0,
    }
}

/// Each task's remaining minutes.
pub open spec fn opening_left(s: Seq<Candidate>) -> Seq<int> {
    Seq::new(s.len(), |j: int| s[j].remaining as int)
}

/// Minutes left per task and overdue titles before day `k`.
pub open spec fn carried(s: Seq<Candidate>, start: int, days: Seq<int>, free: Seq<int>, k: int) -> (Seq<int>, Seq<Seq<char>>)
    decreases k,
{
    if k <= 0 {
        (opening_left(s), Seq::empty())
    } else {
        let before = carried(s, start, days, free, k - 1);
        let l = walk(s, start, days[k - 1], Ledger { left: before.0, available: free[k - 1], placed: Seq::empty(), overdue: before.1 }, s.len() as int);
        (l.left, l.overdue)
    }
}

/// The planner at the end of day `k`.
pub open spec fn day_ledger(s: Seq<Candidate>, start: int, days: Seq<int>, free: Seq<int>, k: int) -> Ledger {
    let before = carried(s, start, days, free, k);
    walk(s, start, days[k], Ledger { left: before.0, available: free[k], placed: Seq::empty(), overdue: before.1 }, s.len() as int)
}

/// Why a block was proposed.
pub open spec fn reason_text(c: Candidate, day: int) -> Seq<char> {
    if c.due is Some && (c.due->0 as int) <= day + 2 {
        "Deadline soon"@
    } else if c.unplanned > 0 {
        "Planning gap"@
    } else {
        "Remaining work"@
    }
}

/// The course code of a class: the first one recorded for it, or empty.
pub open spec fn code_for(codes: Seq<(i64, String)>, class_id: i64) -> Seq<char>
    decreases codes.len(),
{
    if codes.len() == 0 {
        Seq::empty()
    } else if codes[0].0 == class_id {
        codes[0].1@
    } else {
        code_for(codes.drop_first(), class_id)
    }
}

/// A proposed block shows placement `p` of `day` (shown as `date`).
pub open spec fn block_shows(b: ProposedBlock, s: Seq<Candidate>, p: (int, int), date: Seq<char>, day: int, codes: Seq<(i64, String)>) -> bool {
    let c = s[p.0];
    &&& b.task_id == c.id
    &&& b.task_title == c.title
    &&& b.course_code@ == code_for(codes, c.class_id)
    &&& b.planned_date@ == date
    &&& b.planned_minutes == p.1
    &&& b.reason@ == reason_text(c, day)
}

/// The minutes of the placements.
pub open spec fn placed_minutes(placed: Seq<(int, int)>) -> Seq<int> {
    Seq::new(placed.len(), |i: int| placed[i].1)
}

fn code_of(codes: &Vec<(i64, String)>, class_id: i64) -> (r: String)
    ensures
        r@ == code_for(codes@, class_id),
{
    let mut k: usize = 0;
    assert(codes@.subrange(0, codes.len() as int) =~= codes@);
    while k < codes.len()
        invariant
            k <= codes.len(),
            code_for(codes@, class_id) == code_for(codes@.subrange(k as int, codes.len() as int), class_id),
        decreases codes.len() - k,
    {
        let ghost rest = codes@.subrange(k as int, codes.len() as int);
        assert(rest[0] == codes@[k as int]);
        assert(rest.drop_first() =~= codes@.subrange(k + 1, codes.len() as int));
        if codes[k].0 == class_id {
            return codes[k].1.clone();
        }
        k += 1;
    }
    String::new()
}

fn reason_of(c: &Candidate, day: i32) -> (r: String)
    ensures
        r@ == reason_text(*c, day as int),
{
    let soon = match c.due {
        Some(d) => (d as i64) <= (day as i64) + 2,
        None => false,
    };
    if soon {
        message("Deadline soon")
    } else if c.unplanned > 0 {
        message("Planning gap")
    } else {
        message("Remaining work")
    }
}

/// Walks the tasks in planner order through one day, placing blocks and
/// noting overdue titles.
fn walk_day(
    cands: &Vec<Candidate>,
    order: &Vec<usize>,
    start: i32,
    day: i32,
    date: &String,
    free: i64,
    left: &mut Vec<i64>,
    overdue: &mut Vec<String>,
    codes: &Vec<(i64, String)>,
    Ghost(s): Ghost<Seq<Candidate>>,
) -> (res: (Vec<ProposedBlock>, i64))
    requires
        s == arranged(cands@, positions(order@)),
        forall|j: int| 0 <= j < order.len() ==> #[trigger] order@[j] < cands.len(),
        old(left).len() == order.len(),
        forall|j: int| 0 <= j < old(left).len() ==> 0 <= #[trigger] old(left)@[j],
        0 <= free,
    ensures
        ({
            let l = walk(s, start as int, day as int, Ledger {
                left: crate::num::as_ints(old(left)@),
                available: free as int,
                placed: Seq::empty(),
                overdue: crate::tasks::texts(old(overdue)@),
            }, s.len() as int);
            &&& crate::num::as_ints(final(left)@) == l.left
            &&& crate::tasks::texts(final(overdue)@) == l.overdue
            &&& res.0.len() == l.placed.len()
            &&& forall|i: int| 0 <= i < res.0.len() ==> block_shows(#[trigger] res.0@[i], s, l.placed[i], date@, day as int, codes@)
            &&& res.1 as int == crate::num::total(placed_minutes(l.placed))
        }),
        final(left).len() == old(left).len(),
        forall|j: int| 0 <= j < final(left).len() ==> 0 <= #[trigger] final(left)@[j],
{
    let ghost l0 = Ledger {
        left: crate::num::as_ints(left@),
        available: free as int,
        placed: Seq::empty(),
        overdue: crate::tasks::texts(overdue@),
    };
    let n = order.len();
    let mut available: i64 = free;
    let mut blocks: Vec<ProposedBlock> = Vec::new();
    let mut proposed: i64 = 0;
    let mut j: usize = 0;
    while j < n
        invariant
            s == arranged(cands@, positions(order@)),
            n == order.len(),
            forall|q: int| 0 <= q < order.len() ==> #[trigger] order@[q] < cands.len(),
            j <= n,
            left.len() == n,
            forall|q: int| 0 <= q < left.len() ==> 0 <= #[trigger] left@[q],
            0 <= available <= free,
            ({
                let w = walk(s, start as int, day as int, l0, j as int);
                &&& crate::num::as_ints(left@) == w.left
                &&& available as int == w.available
                &&& crate::tasks::texts(overdue@) == w.overdue
                &&& blocks.len() == w.placed.len()
                &&& forall|i: int| 0 <= i < blocks.len() ==> block_shows(#[trigger] blocks@[i], s, w.placed[i], date@, day as int, codes@)
                &&& proposed as int == crate::num::total(placed_minutes(w.placed))
                &&& proposed as int == free - available
            }),
        decreases n - j,
    {
        let ghost w = walk(s, start as int, day as int, l0, j as int);
        let c = &cands[order[j]];
        assert(s[j as int] == *c);
        let have = left[j];
        assert(w.left[j as int] == have as int);
        if have < 25 || available < 25 {
        } else if c.due.is_some() && (c.due.unwrap() as i64) < start as i64 {
            if !crate::tasks::contains_text(overdue, &c.title) {
                let ghost before = overdue@;
                overdue.push(c.title.clone());
                assert(crate::tasks::texts(overdue@) =~= crate::tasks::texts(before).push(c.title@));
            }
        } else if c.due.is_some() && (day as i64) > (c.due.unwrap() as i64) {
        } else {
            let a = if have < 90 { have } else { 90 };
            let chunk = if a < available { a } else { available };
            let ghost before_left = left@;
            left.set(j, have - chunk);
            assert(crate::num::as_ints(left@) =~= crate::num::as_ints(before_left).update(j as int, have - chunk));
            available = available - chunk;
            let ghost before_placed = w.placed;
            assert(placed_minutes(before_placed.push((j as int, chunk as int))).drop_last() =~= placed_minutes(before_placed));
            proposed = proposed + chunk;
            blocks.push(ProposedBlock {
                task_id: c.id,
                task_title: c.title.clone(),
                course_code: code_of(codes, c.class_id),
                planned_date: date.clone(),
                planned_minutes: chunk,
                reason: reason_of(c, day),
            });
        }
        j += 1;
    }
    (blocks, proposed)
}

/// The window's days as integers.
pub open spec fn day_values(w: PlanWindow) -> Seq<int> {
    Seq::new(w.day_numbers@.len(), |k: int| w.day_numbers@[k] as int)
}

/// The free minutes of each day.
pub open spec fn free_values(capacities: Seq<Option<i64>>, existing: Seq<i64>) -> Seq<int> {
    Seq::new(capacities.len(), |k: int| free_minutes(capacities[k], existing[k]))
}

/// A proposal is the planner's walk over the window with the candidates
/// in order `s`.
pub open spec fn proposal_shows(
    p: PlanProposal,
    s: Seq<Candidate>,
    w: PlanWindow,
    capacities: Seq<Option<i64>>,
    existing: Seq<i64>,
    codes: Seq<(i64, String)>,
) -> bool {
    let days = day_values(w);
    let free = free_values(capacities, existing);
    &&& p.start_date == w.start
    &&& p.end_date == w.end
    &&& p.days.len() == w.days.len()
    &&& forall|k: int| 0 <= k < p.days.len() ==> {
        let d = #[trigger] p.days@[k];
        let l = day_ledger(s, w.start_day as int, days, free, k);
        &&& d.date == w.days@[k]
        &&& d.capacity_minutes == capacities[k]
        &&& d.existing_block_minutes == existing[k]
        &&& d.proposed_minutes as int == crate::num::total(placed_minutes(l.placed))
        &&& d.blocks.len() == l.placed.len()
        &&& forall|i: int| 0 <= i < d.blocks.len() ==> block_shows(#[trigger] d.blocks@[i], s, l.placed[i], w.days@[k]@, days[k], codes)
    }
    &&& crate::tasks::texts(p.unschedulable_overdue@) == carried(s, w.start_day as int, days, free, w.days.len() as int).1
}

/// Whether `plan_proposal` can plan these rows and days: every candidate's
/// due value can be cut to its first ten bytes, and its priority and
/// unplanned minutes are not `i64::MIN`; and each day's capacity less its
/// existing block minutes fits an `i64`.
pub fn plan_fits(rows: &Vec<PlanRow>, capacities: &Vec<Option<i64>>, existing: &Vec<i64>) -> (r: bool)
    requires
        capacities.len() == existing.len(),
    ensures
        r == (rows_plannable(rows@) && forall|k: int| 0 <= k < capacities.len() ==> (#[trigger] capacities@[k] matches Some(v)
            ==> i64::MIN <= v - existing@[k] <= i64::MAX)),
{
    proof {
        reveal_strlit("completed");
    }
    let mut k: usize = 0;
    while k < rows.len()
        invariant
            k <= rows.len(),
            forall|i: int| 0 <= i < k && is_candidate(#[trigger] rows@[i]) ==> {
                &&& (rows@[i].task.due_at matches Some(d) ==> cut_ok(d@, 10))
                &&& rows@[i].task.priority != Some(i64::MIN)
                &&& rows@[i].unplanned_minutes != i64::MIN
            },
        decreases rows.len() - k,
    {
        let r = &rows[k];
        let remaining: i64 = match r.task.remaining_minutes {
            Some(m) => m,
            None => 0,
        };
        if !str_eq(r.task.status.as_str(), "completed") && remaining >= 25 && r.blocked_by_open_count == 0 {
            assert(is_candidate(rows@[k as int]));
            let due_ok = match &r.task.due_at {
                Some(d) => cut_ok_exec(d.as_str(), 10),
                None => true,
            };
            let priority_ok = match r.task.priority {
                Some(p) => p != i64::MIN,
                None => true,
            };
            if !due_ok || !priority_ok || r.unplanned_minutes == i64::MIN {
                return false;
            }
        }
        k += 1;
    }
    let mut q: usize = 0;
    while q < capacities.len()
        invariant
            q <= capacities.len(),
            capacities.len() == existing.len(),
            rows_plannable(rows@),
            forall|i: int| 0 <= i < q ==> (#[trigger] capacities@[i] matches Some(v)
                ==> i64::MIN <= v - existing@[i] <= i64::MAX),
        decreases capacities.len() - q,
    {
        if let Some(v) = capacities[q] {
            if v.checked_sub(existing[q]).is_none() {
                assert(capacities@[q as int] == Some(v));
                return false;
            }
        }
        q += 1;
    }
    true
}

/// Proposes study blocks over the window. The candidates (open tasks with
/// at least 25 minutes left and nothing open blocking them) go in planner
/// order; each day, each candidate in turn gets a block of up to 90
/// minutes, no more than it has left or the day has free, while both
/// have at least 25; work due before the first day is listed by title
/// instead, and no block falls after a task's due date.
pub fn plan_proposal(
    rows: &Vec<PlanRow>,
    window: &PlanWindow,
    capacities: &Vec<Option<i64>>,
    existing: &Vec<i64>,
    codes: &Vec<(i64, String)>,
) -> (r: PlanProposal)
    requires
        window.day_numbers.len() == window.days.len(),
        capacities.len() == window.days.len(),
        existing.len() == window.days.len(),
        rows_plannable(rows@),
        forall|k: int| 0 <= k < capacities.len() ==> (#[trigger] capacities@[k] matches Some(v)
            ==> i64::MIN <= v - existing@[k] <= i64::MAX),
    ensures
        exists|order: Seq<int>| {
            &&& is_permutation(order, candidates(rows@).len() as int)
            &&& in_plan_order(candidates(rows@), order)
            &&& proposal_shows(r, arranged(candidates(rows@), order), *window, capacities@, existing@, codes@)
        },
{
    let cands = candidates_of(rows);
    let order = plan_order(&cands);
    let ghost s = arranged(cands@, positions(order@));
    let ghost days = day_values(*window);
    let ghost free = free_values(capacities@, existing@);
    let mut left: Vec<i64> = Vec::new();
    let mut j: usize = 0;
    while j < order.len()
        invariant
            j <= order.len(),
            s == arranged(cands@, positions(order@)),
            is_permutation(positions(order@), cands.len() as int),
            forall|i: int| 0 <= i < cands.len() ==> (#[trigger] cands@[i]).remaining >= 25,
            left.len() == j,
            forall|q: int| 0 <= q < j ==> (#[trigger] left@[q]) as int == opening_left(s)[q],
        decreases order.len() - j,
    {
        assert(positions(order@)[j as int] == order@[j as int] as int);
        left.push(cands[order[j]].remaining);
        j += 1;
    }
    assert(crate::num::as_ints(left@) =~= opening_left(s));
    let mut overdue: Vec<String> = Vec::new();
    assert(crate::tasks::texts(overdue@) =~= Seq::<Seq<char>>::empty());
    let mut plan_days: Vec<PlanDay> = Vec::new();
    let n = window.days.len();
    let mut k: usize = 0;
    while k < n
        invariant
            n == window.days.len(),
            window.day_numbers.len() == n,
            capacities.len() == n,
            existing.len() == n,
            forall|q: int| 0 <= q < capacities.len() ==> (#[trigger] capacities@[q] matches Some(v)
                ==> i64::MIN <= v - existing@[q] <= i64::MAX),
            s == arranged(cands@, positions(order@)),
            is_permutation(positions(order@), cands.len() as int),
            days == day_values(*window),
            free == free_values(capacities@, existing@),
            k <= n,
            left.len() == order.len(),
            forall|q: int| 0 <= q < left.len() ==> 0 <= #[trigger] left@[q],
            crate::num::as_ints(left@) == carried(s, window.start_day as int, days, free, k as int).0,
            crate::tasks::texts(overdue@) == carried(s, window.start_day as int, days, free, k as int).1,
            plan_days.len() == k,
            forall|q: int| 0 <= q < k ==> {
                let d = #[trigger] plan_days@[q];
                let l = day_ledger(s, window.start_day as int, days, free, q);
                &&& d.date == window.days@[q]
                &&& d.capacity_minutes == capacities@[q]
                &&& d.existing_block_minutes == existing@[q]
                &&& d.proposed_minutes as int == crate::num::total(placed_minutes(l.placed))
                &&& d.blocks.len() == l.placed.len()
                &&& forall|i: int| 0 <= i < d.blocks.len() ==> block_shows(#[trigger] d.blocks@[i], s, l.placed[i], window.days@[q]@, days[q], codes@)
            },
        decreases n - k,
    {
        let capacity = capacities[k];
        let free_today: i64 = match capacity {
            Some(v) => if v - existing[k] > 0 { v - existing[k] } else { 0 },
            None => 0,
        };
        assert(free_today as int == free[k as int]);
        assert(days[k as int] == window.day_numbers@[k as int] as int);
        proof {
            assert forall|q: int| 0 <= q < order.len() implies #[trigger] order@[q] < cands.len() by {
                assert(positions(order@)[q] == order@[q] as int);
            }
        }
        let (blocks, proposed) = walk_day(
            &cands,
            &order,
            window.start_day,
            window.day_numbers[k],
            &window.days[k],
            free_today,
            &mut left,
            &mut overdue,
            codes,
            Ghost(s),
        );
        plan_days.push(PlanDay {
            date: window.days[k].clone(),
            capacity_minutes: capacity,
            existing_block_minutes: existing[k],
            proposed_minutes: proposed,
            blocks,
        });
        k += 1;
    }
    let p = PlanProposal {
        start_date: window.start.clone(),
        end_date: window.end.clone(),
        days: plan_days,
        unschedulable_overdue: overdue,
    };
    assert(proposal_shows(p, s, *window, capacities@, existing@, codes@));
    p
}

/// The minutes placed for task `j`.
pub open spec fn minutes_for(placed: Seq<(int, int)>, j: int) -> Seq<int>
    decreases placed.len(),
{
    if placed.len() == 0 {
        Seq::empty()
    } else {
        let rest = minutes_for(placed.drop_last(), j);
        if placed.last().0 == j {
            rest.push(placed.last().1)
        } else {
            rest
        }
    }
}

proof fn lemma_walk(s: Seq<Candidate>, start: int, day: int, l0: Ledger, m: int)
    requires
        0 <= m <= s.len(),
        l0.left.len() == s.len(),
        l0.placed.len() == 0,
        l0.available >= 0,
        forall|j: int| 0 <= j < s.len() ==> l0.left[j] >= 0,
    ensures
        ({
            let l = walk(s, start, day, l0, m);
            &&& l.left.len() == s.len()
            &&& l.available >= 0
            &&& crate::num::total(placed_minutes(l.placed)) + l.available == l0.available
            &&& forall|i: int| 0 <= i < l.placed.len() ==> {
                let p = #[trigger] l.placed[i];
                &&& 0 <= p.0 < m
                &&& 25 <= p.1 <= 90
                &&& (s[p.0].due matches Some(d) ==> start <= d && day <= d)
            }
            &&& forall|j: int| 0 <= j < s.len() ==> #[trigger] l.left[j] >= 0
                && l.left[j] + crate::num::total(minutes_for(l.placed, j)) == l0.left[j]
        }),
    decreases m,
{
    if m > 0 {
        lemma_walk(s, start, day, l0, m - 1);
        let w = walk(s, start, day, l0, m - 1);
        let l = walk(s, start, day, l0, m);
        let j = m - 1;
        if l.placed.len() > w.placed.len() {
            let chunk = l.placed.last().1;
            assert(l.placed == w.placed.push((j, chunk)));
            assert(placed_minutes(l.placed).drop_last() =~= placed_minutes(w.placed));
            assert forall|q: int| 0 <= q < s.len() implies #[trigger] l.left[q] >= 0
                && l.left[q] + crate::num::total(minutes_for(l.placed, q)) == l0.left[q] by {
                assert(l.placed.drop_last() == w.placed);
                assert(w.left[q] >= 0 && w.left[q] + crate::num::total(minutes_for(w.placed, q)) == l0.left[q]);
                if q == j {
                    assert(minutes_for(l.placed, q) == minutes_for(w.placed, q).push(chunk));
                    assert(minutes_for(w.placed, q).push(chunk).drop_last() =~= minutes_for(w.placed, q));
                    assert(l.left[q] == w.left[q] - chunk);
                } else {
                    assert(minutes_for(l.placed, q) == minutes_for(w.placed, q));
                    assert(l.left[q] == w.left[q]);
                }
            }
        }
    }
}

/// The total over days before `k` of the minutes placed for task `j`.
pub open spec fn planned_through(s: Seq<Candidate>, start: int, days: Seq<int>, free: Seq<int>, j: int, k: int) -> int
    decreases k,
{
    if k <= 0 {
        0
    } else {
        planned_through(s, start, days, free, j, k - 1)
            + crate::num::total(minutes_for(day_ledger(s, start, days, free, k - 1).placed, j))
    }
}

proof fn lemma_carried(s: Seq<Candidate>, start: int, days: Seq<int>, free: Seq<int>, k: int)
    requires
        0 <= k <= days.len(),
        free.len() == days.len(),
        forall|q: int| 0 <= q < free.len() ==> #[trigger] free[q] >= 0,
        forall|j: int| 0 <= j < s.len() ==> (#[trigger] s[j]).remaining >= 0,
    ensures
        carried(s, start, days, free, k).0.len() == s.len(),
        forall|j: int| 0 <= j < s.len() ==> #[trigger] carried(s, start, days, free, k).0[j] >= 0
            && carried(s, start, days, free, k).0[j] + planned_through(s, start, days, free, j, k) == s[j].remaining,
    decreases k,
{
    if k > 0 {
        lemma_carried(s, start, days, free, k - 1);
        let before = carried(s, start, days, free, k - 1);
        let l0 = Ledger { left: before.0, available: free[k - 1], placed: Seq::empty(), overdue: before.1 };
        lemma_walk(s, start, days[k - 1], l0, s.len() as int);
    }
}

/// Law: every proposed block lasts 25 to 90 minutes, and none falls after
/// its task's due date or goes to work due before the first day.
pub proof fn blocks_are_bounded_and_before_due(s: Seq<Candidate>, start: int, days: Seq<int>, free: Seq<int>, k: int)
    requires
        0 <= k < days.len(),
        free.len() == days.len(),
        forall|q: int| 0 <= q < free.len() ==> #[trigger] free[q] >= 0,
        forall|j: int| 0 <= j < s.len() ==> (#[trigger] s[j]).remaining >= 0,
    ensures
        forall|i: int| 0 <= i < day_ledger(s, start, days, free, k).placed.len() ==> {
            let p = #[trigger] day_ledger(s, start, days, free, k).placed[i];
            &&& 0 <= p.0 < s.len()
            &&& 25 <= p.1 <= 90
            &&& (s[p.0].due matches Some(d) ==> start <= d && days[k] <= d)
        },
{
    lemma_carried(s, start, days, free, k);
    let before = carried(s, start, days, free, k);
    let l0 = Ledger { left: before.0, available: free[k], placed: Seq::empty(), overdue: before.1 };
    lemma_walk(s, start, days[k], l0, s.len() as int);
}

/// Law: the planner only considers open tasks with at least 25 minutes
/// left and no open task they depend on: every candidate it plans is one
/// such row's, so a blocked or finished task never gets a block.
pub proof fn candidates_are_open_and_unblocked(rows: Seq<PlanRow>)
    ensures
        forall|j: int| 0 <= j < candidates(rows).len() ==> exists|i: int| 0 <= i < rows.len()
            && is_candidate(#[trigger] rows[i]) && (#[trigger] candidates(rows)[j]) == candidate_of(rows[i]),
    decreases rows.len(),
{
    if rows.len() > 0 {
        let rest = rows.drop_last();
        candidates_are_open_and_unblocked(rest);
        let cs = candidates(rows);
        let prev = candidates(rest);
        assert forall|j: int| 0 <= j < cs.len() implies exists|i: int| 0 <= i < rows.len()
            && is_candidate(#[trigger] rows[i]) && (#[trigger] cs[j]) == candidate_of(rows[i]) by {
            if j < prev.len() {
                assert(cs[j] == prev[j]);
                let i = choose|i: int| 0 <= i < rest.len() && is_candidate(#[trigger] rest[i]) && prev[j] == candidate_of(rest[i]);
                assert(rows[i] == rest[i]);
            } else {
                assert(rows[rows.len() - 1] == rows.last());
            }
        }
    }
}

/// Law: a day's proposed minutes never exceed its free minutes.
pub proof fn day_stays_within_free_minutes(s: Seq<Candidate>, start: int, days: Seq<int>, free: Seq<int>, k: int)
    requires
        0 <= k < days.len(),
        free.len() == days.len(),
        forall|q: int| 0 <= q < free.len() ==> #[trigger] free[q] >= 0,
        forall|j: int| 0 <= j < s.len() ==> (#[trigger] s[j]).remaining >= 0,
    ensures
        0 <= crate::num::total(placed_minutes(day_ledger(s, start, days, free, k).placed)) <= free[k],
{
    lemma_carried(s, start, days, free, k);
    let before = carried(s, start, days, free, k);
    let l0 = Ledger { left: before.0, available: free[k], placed: Seq::empty(), overdue: before.1 };
    lemma_walk(s, start, days[k], l0, s.len() as int);
    lemma_total_nonneg(placed_minutes(day_ledger(s, start, days, free, k).placed));
}

proof fn lemma_total_nonneg(v: Seq<int>)
    requires
        forall|i: int| 0 <= i < v.len() ==> v[i] >= 0,
    ensures
        crate::num::total(v) >= 0,
    decreases v.len(),
{
    if v.len() > 0 {
        lemma_total_nonneg(v.drop_last());
    }
}

/// Law: over the whole window, no task is given more minutes than it has
/// left.
pub proof fn task_gets_at_most_its_remaining(s: Seq<Candidate>, start: int, days: Seq<int>, free: Seq<int>, j: int)
    requires
        0 <= j < s.len(),
        free.len() == days.len(),
        forall|q: int| 0 <= q < free.len() ==> #[trigger] free[q] >= 0,
        forall|q: int| 0 <= q < s.len() ==> (#[trigger] s[q]).remaining >= 0,
    ensures
        planned_through(s, start, days, free, j, days.len() as int) <= s[j].remaining,
{
    lemma_carried(s, start, days, free, days.len() as int);
    assert(carried(s, start, days, free, days.len() as int).0[j] >= 0);
}

/// Why a block of a plan cannot be applied, if it cannot: too short, an
/// unreadable date, or a task no longer open (`available` is false).
pub open spec fn block_problem(b: ProposedBlockInput, available: bool) -> Option<Seq<char>> {
    if b.planned_minutes < 25 {
        Some("Plans cannot create blocks shorter than 25 minutes."@)
    } else if parsed_ymd(b.planned_date@) is None {
        Some("Plan contains an invalid date."@)
    } else if !available {
        Some("Plan contains a task that is no longer available."@)
    } else {
        None
    }
}

/// The first problem among the first `n` blocks.
pub open spec fn plan_problem(blocks: Seq<ProposedBlockInput>, available: Seq<bool>, n: int) -> Option<Seq<char>>
    decreases n,
{
    if n <= 0 {
        None
    } else {
        match plan_problem(blocks, available, n - 1) {
            Some(m) => Some(m),
            None => block_problem(blocks[n - 1], available[n - 1]),
        }
    }
}

proof fn lemma_problem_stays(blocks: Seq<ProposedBlockInput>, available: Seq<bool>, k: int, n: int)
    requires
        0 <= k <= n,
        plan_problem(blocks, available, k) is Some,
    ensures
        plan_problem(blocks, available, n) == plan_problem(blocks, available, k),
    decreases n - k,
{
    if n > k {
        lemma_problem_stays(blocks, available, k, n - 1);
    }
}

/// Checks a plan before it is stored, block by block; `available[i]` tells
/// whether block `i`'s task is still open and not a class timer. Answers
/// the number of blocks to store, or the first block's problem.
pub fn check_plan(input: &ApplyPlanInput, available: &Vec<bool>) -> (r: Result<usize, String>)
    requires
        available.len() == input.blocks.len(),
    ensures
        match plan_problem(input.blocks@, available@, input.blocks.len() as int) {
            Some(m) => r matches Err(e) && e@ == m,
            None => r matches Ok(n) && n == input.blocks.len(),
        },
{
    let mut k: usize = 0;
    while k < input.blocks.len()
        invariant
            k <= input.blocks.len(),
            available.len() == input.blocks.len(),
            plan_problem(input.blocks@, available@, k as int) is None,
        decreases input.blocks.len() - k,
    {
        let b = &input.blocks[k];
        if b.planned_minutes < 25 {
            proof {
                lemma_problem_stays(input.blocks@, available@, k + 1, input.blocks.len() as int);
            }
            return Err(message("Plans cannot create blocks shorter than 25 minutes."));
        }
        if parse_ymd(b.planned_date.as_str()).is_none() {
            proof {
                lemma_problem_stays(input.blocks@, available@, k + 1, input.blocks.len() as int);
            }
            return Err(message("Plan contains an invalid date."));
        }
        if !available[k] {
            proof {
                lemma_problem_stays(input.blocks@, available@, k + 1, input.blocks.len() as int);
            }
            return Err(message("Plan contains a task that is no longer available."));
        }
        k += 1;
    }
    Ok(input.blocks.len())
}

/// No title is listed twice.
pub open spec fn titles_distinct(t: Seq<Seq<char>>) -> bool {
    forall|a: int, b: int| 0 <= a < b < t.len() ==> #[trigger] t[a] != #[trigger] t[b]
}

proof fn lemma_walk_overdue_distinct(s: Seq<Candidate>, start: int, day: int, l: Ledger, m: int)
    requires
        titles_distinct(l.overdue),
        0 <= m <= s.len(),
        l.left.len() == s.len(),
    ensures
        titles_distinct(walk(s, start, day, l, m).overdue),
        walk(s, start, day, l, m).left.len() == s.len(),
    decreases m,
{
    if m > 0 {
        lemma_walk_overdue_distinct(s, start, day, l, m - 1);
        let w = walk(s, start, day, l, m - 1);
        let v = visit(s, start, day, w, m - 1);
        if v.overdue != w.overdue {
            assert(!w.overdue.contains(s[m - 1].title@));
            assert forall|a: int, b: int| 0 <= a < b < v.overdue.len() implies #[trigger] v.overdue[a] != #[trigger] v.overdue[b] by {
                if b == w.overdue.len() {
                    assert(v.overdue[a] == w.overdue[a]);
                    assert(v.overdue[b] == s[m - 1].title@);
                } else {
                    assert(v.overdue[a] == w.overdue[a] && v.overdue[b] == w.overdue[b]);
                }
            }
        }
    }
}

/// Law: the overdue work the planner lists by title never repeats a title,
/// up to any day of the window.
pub proof fn overdue_titles_listed_once(s: Seq<Candidate>, start: int, days: Seq<int>, free: Seq<int>, k: int)
    requires
        0 <= k <= days.len(),
        free.len() == days.len(),
    ensures
        titles_distinct(carried(s, start, days, free, k).1),
    decreases k,
{
    if k > 0 {
        overdue_titles_listed_once(s, start, days, free, k - 1);
        lemma_carried_len(s, start, days, free, k - 1);
        let before = carried(s, start, days, free, k - 1);
        let l0 = Ledger { left: before.0, available: free[k - 1], placed: Seq::empty(), overdue: before.1 };
        lemma_walk_overdue_distinct(s, start, days[k - 1], l0, s.len() as int);
    }
}

proof fn lemma_carried_len(s: Seq<Candidate>, start: int, days: Seq<int>, free: Seq<int>, k: int)
    requires
        0 <= k <= days.len(),
        free.len() == days.len(),
    ensures
        carried(s, start, days, free, k).0.len() == s.len(),
    decreases k,
{
    if k > 0 {
        lemma_carried_len(s, start, days, free, k - 1);
        let before = carried(s, start, days, free, k - 1);
        let l0 = Ledger { left: before.0, available: free[k - 1], placed: Seq::empty(), overdue: before.1 };
        lemma_walk_left_len(s, start, days[k - 1], l0, s.len() as int);
    }
}

proof fn lemma_walk_left_len(s: Seq<Candidate>, start: int, day: int, l: Ledger, m: int)
    requires
        0 <= m <= s.len(),
        l.left.len() == s.len(),
    ensures
        walk(s, start, day, l, m).left.len() == s.len(),
    decreases m,
{
    if m > 0 {
        lemma_walk_left_len(s, start, day, l, m - 1);
    }
}

/// Law: in the order the planner walks its candidates, every candidate
/// with a due date comes before every candidate without one, dated
/// candidates come in order of their due dates (earliest first), and among
/// candidates due alike the higher priority comes first, then the one
/// with more unplanned minutes.
pub proof fn dated_work_comes_first(cands: Seq<Candidate>, order: Seq<int>)
    requires
        is_permutation(order, cands.len() as int),
        in_plan_order(cands, order),
    ensures
        forall|i: int, j: int| 0 <= i < j < order.len() && (#[trigger] cands[order[j]]).due is Some
            ==> (#[trigger] cands[order[i]]).due is Some,
        forall|i: int, j: int| 0 <= i < j < order.len() && (#[trigger] cands[order[i]]).due is Some
            && (#[trigger] cands[order[j]]).due is Some ==> cands[order[i]].due->0 <= cands[order[j]].due->0,
        forall|i: int, j: int| 0 <= i < j < order.len() && (#[trigger] cands[order[i]]).due == (#[trigger] cands[order[j]]).due
            ==> cands[order[i]].priority >= cands[order[j]].priority,
        forall|i: int, j: int| 0 <= i < j < order.len() && (#[trigger] cands[order[i]]).due == (#[trigger] cands[order[j]]).due
            && cands[order[i]].priority == cands[order[j]].priority
            ==> cands[order[i]].unplanned >= cands[order[j]].unplanned,
{
    assert forall|i: int, j: int| 0 <= i < j < order.len() && (#[trigger] cands[order[j]]).due is Some
        implies (#[trigger] cands[order[i]]).due is Some by {
        assert(goes_before(cands[order[i]], order[i], cands[order[j]], order[j]));
    }
    assert forall|i: int, j: int| 0 <= i < j < order.len() && (#[trigger] cands[order[i]]).due is Some
        && (#[trigger] cands[order[j]]).due is Some implies cands[order[i]].due->0 <= cands[order[j]].due->0 by {
        assert(goes_before(cands[order[i]], order[i], cands[order[j]], order[j]));
    }
    assert forall|i: int, j: int| 0 <= i < j < order.len() && (#[trigger] cands[order[i]]).due == (#[trigger] cands[order[j]]).due
        implies cands[order[i]].priority >= cands[order[j]].priority by {
        assert(goes_before(cands[order[i]], order[i], cands[order[j]], order[j]));
    }
    assert forall|i: int, j: int| 0 <= i < j < order.len() && (#[trigger] cands[order[i]]).due == (#[trigger] cands[order[j]]).due
        && cands[order[i]].priority == cands[order[j]].priority
        implies cands[order[i]].unplanned >= cands[order[j]].unplanned by {
        assert(goes_before(cands[order[i]], order[i], cands[order[j]], order[j]));
    }
}

} // verus!
