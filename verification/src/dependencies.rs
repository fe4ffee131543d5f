//! Task dependencies: a task may depend on others, and no chain of
//! dependencies may lead back to where it started.
use vstd::prelude::*;
use crate::text::message;

verus! {

/// A task that another task depends on, with its title and status.
pub struct DependencySummary {
    pub id: i64,
    pub title: String,
    pub status: String,
}

/// `(task_id, depends_on_task_id)` is one of the stored dependencies.
pub open spec fn has_edge(edges: Seq<(i64, i64)>, a: i64, b: i64) -> bool {
    exists|k: int| 0 <= k < edges.len() && edges[k] == (a, b)
}

/// `path` follows stored dependencies from its first task to its last.
pub open spec fn is_chain(edges: Seq<(i64, i64)>, path: Seq<i64>) -> bool {
    &&& path.len() >= 1
    &&& forall|i: int| 0 <= i < path.len() - 1 ==> has_edge(edges, #[trigger] path[i], path[i + 1])
}

/// Some chain of dependencies leads from `from` to `to` (every task reaches itself).
pub open spec fn reaches(edges: Seq<(i64, i64)>, from: i64, to: i64) -> bool {
    exists|path: Seq<i64>| #[trigger] is_chain(edges, path) && path[0] == from && path.last() == to
}

/// Number of dependencies not yet followed.
spec fn unused_count(u: Seq<bool>) -> nat
    decreases u.len(),
{
    if u.len() == 0 {
        0
    } else {
        unused_count(u.drop_last()) + if u.last() { 0nat } else { 1nat }
    }
}

proof fn lemma_unused_count_mark(u: Seq<bool>, k: int)
    requires
        0 <= k < u.len(),
        !u[k],
    ensures
        unused_count(u.update(k, true)) + 1 == unused_count(u),
    decreases u.len(),
{
    if k == u.len() - 1 {
        assert(u.update(k, true).drop_last() =~= u.drop_last());
    } else {
        lemma_unused_count_mark(u.drop_last(), k);
        assert(u.update(k, true).drop_last() =~= u.drop_last().update(k, true));
    }
}

/// `x` is `start` or the target of a dependency already followed.
spec fn is_reached(edges: Seq<(i64, i64)>, used: Seq<bool>, start: i64, x: i64) -> bool {
    x == start || exists|k: int| 0 <= k < edges.len() && used[k] && edges[k].1 == x
}

fn reached_exec(edges: &Vec<(i64, i64)>, used: &Vec<bool>, start: i64, x: i64) -> (r: bool)
    requires
        used.len() == edges.len(),
    ensures
        r == is_reached(edges@, used@, start, x),
{
    if x == start {
        return true;
    }
    let mut k: usize = 0;
    while k < edges.len()
        invariant
            used.len() == edges.len(),
            k <= edges.len(),
            x != start,
            forall|j: int| 0 <= j < k ==> !(used@[j] && edges@[j].1 == x),
        decreases edges.len() - k,
    {
        if used[k] && edges[k].1 == x {
            return true;
        }
        k += 1;
    }
    false
}

proof fn lemma_closed_covers_chain(edges: Seq<(i64, i64)>, used: Seq<bool>, start: i64, path: Seq<i64>, i: int)
    requires
        used.len() == edges.len(),
        is_chain(edges, path),
        path[0] == start,
        0 <= i < path.len(),
        forall|k: int| 0 <= k < edges.len() && is_reached(edges, used, start, edges[k].0)
            ==> is_reached(edges, used, start, #[trigger] edges[k].1),
    ensures
        is_reached(edges, used, start, path[i]),
    decreases i,
{
    if i > 0 {
        lemma_closed_covers_chain(edges, used, start, path, i - 1);
        assert(has_edge(edges, path[i - 1], path[i]));
        let k = choose|k: int| 0 <= k < edges.len() && edges[k] == (path[i - 1], path[i]);
        assert(edges[k].1 == path[i]);
    }
}

/// Whether adding "`task_id` depends on `depends_on_task_id`" would close a
/// cycle: true exactly when `depends_on_task_id` already reaches `task_id`
/// through stored dependencies (or is `task_id` itself).
pub fn creates_cycle(edges: &Vec<(i64, i64)>, task_id: i64, depends_on_task_id: i64) -> (r: bool)
    ensures
        r == reaches(edges@, depends_on_task_id, task_id),
{
    let start = depends_on_task_id;
    let n = edges.len();
    let mut used: Vec<bool> = Vec::new();
    while used.len() < n
        invariant
            used.len() <= n,
            n == edges.len(),
            forall|j: int| 0 <= j < used.len() ==> !used@[j],
        decreases n - used.len(),
    {
        used.push(false);
    }
    let ghost mut unused: nat = n as nat;
    proof {
        assert(unused_count(used@) == used.len()) by {
            lemma_all_unused(used@);
        }
        self_dependency_is_a_cycle(edges@, start);
    }
    loop
        invariant
            start == depends_on_task_id,
            used.len() == n,
            n == edges.len(),
            unused == unused_count(used@),
            forall|x: i64| #[trigger] is_reached(edges@, used@, start, x) ==> reaches(edges@, start, x),
        decreases unused,
    {
        // Look for a dependency not yet followed whose task is reached.
        let mut k: usize = 0;
        let mut found: Option<usize> = None;
        while k < n && found.is_none()
            invariant
                used.len() == n,
                n == edges.len(),
                k <= n,
                found matches Some(f) ==> f < n && !used@[f as int] && is_reached(edges@, used@, start, edges@[f as int].0),
                found is None ==> forall|j: int| 0 <= j < k ==> used@[j] || !is_reached(edges@, used@, start, #[trigger] edges@[j].0),
            decreases (n - k) as int + if found is None { 1int } else { 0int },
        {
            if !used[k] && reached_exec(edges, &used, start, edges[k].0) {
                found = Some(k);
            } else {
                k += 1;
            }
        }
        match found {
            Some(f) => {
                let ghost old_used = used@;
                proof {
                    lemma_unused_count_mark(used@, f as int);
                    let s = edges@[f as int].0;
                    let t = edges@[f as int].1;
                    assert(reaches(edges@, start, s));
                    let p = choose|p: Seq<i64>| is_chain(edges@, p) && p[0] == start && p.last() == s;
                    let q = p.push(t);
                    assert(has_edge(edges@, s, t));
                    assert forall|i: int| 0 <= i < q.len() - 1 implies has_edge(edges@, #[trigger] q[i], q[i + 1]) by {
                        if i < p.len() - 1 {
                            assert(q[i] == p[i] && q[i + 1] == p[i + 1]);
                        } else {
                            assert(q[i] == s && q[i + 1] == t);
                        }
                    }
                    assert(is_chain(edges@, q) && q[0] == start && q.last() == t);
                    assert(reaches(edges@, start, t));
                }
                used.set(f, true);
                proof {
                    unused = (unused - 1) as nat;
                    assert forall|x: i64| #[trigger] is_reached(edges@, used@, start, x) implies reaches(edges@, start, x) by {
                        if x == start {
                            self_dependency_is_a_cycle(edges@, start);
                        } else if x != edges@[f as int].1 {
                            let k2 = choose|k2: int| 0 <= k2 < edges@.len() && used@[k2] && edges@[k2].1 == x;
                            assert(old_used[k2]);
                            assert(is_reached(edges@, old_used, start, x));
                        }
                    }
                }
            }
            None => {
                proof {
                    assert forall|kk: int| 0 <= kk < edges@.len() && is_reached(edges@, used@, start, edges@[kk].0)
                        implies is_reached(edges@, used@, start, #[trigger] edges@[kk].1) by {
                        assert(k >= n);
                        assert(used@[kk] || !is_reached(edges@, used@, start, edges@[kk].0));
                    }
                    if reaches(edges@, start, task_id) {
                        let p = choose|p: Seq<i64>| is_chain(edges@, p) && p[0] == start && p.last() == task_id;
                        lemma_closed_covers_chain(edges@, used@, start, p, p.len() - 1);
                        assert(is_reached(edges@, used@, start, task_id));
                    }
                }
                let found_task = reached_exec(edges, &used, start, task_id);
                return found_task;
            }
        }
    }
}

proof fn lemma_all_unused(u: Seq<bool>)
    requires
        forall|j: int| 0 <= j < u.len() ==> !u[j],
    ensures
        unused_count(u) == u.len(),
    decreases u.len(),
{
    if u.len() > 0 {
        lemma_all_unused(u.drop_last());
    }
}

/// The checks before storing "`task_id` depends on `depends_on_task_id`":
/// no self-dependency, both tasks exist, and no cycle.
pub fn check_new_dependency(
    edges: &Vec<(i64, i64)>,
    task_id: i64,
    depends_on_task_id: i64,
    both_exist: bool,
) -> (r: Result<(), String>)
    ensures
        r is Ok <==> task_id != depends_on_task_id && both_exist && !reaches(edges@, depends_on_task_id, task_id),
        task_id == depends_on_task_id ==> (r matches Err(m) && m@ == "A task can't depend on itself."@),
        task_id != depends_on_task_id && !both_exist ==> (r matches Err(m) && m@ == "Choose two existing tasks."@),
        task_id != depends_on_task_id && both_exist && reaches(edges@, depends_on_task_id, task_id)
            ==> (r matches Err(m) && m@ == "That would create a dependency cycle."@),
{
    if task_id == depends_on_task_id {
        return Err(message("A task can't depend on itself."));
    }
    if !both_exist {
        return Err(message("Choose two existing tasks."));
    }
    if creates_cycle(edges, task_id, depends_on_task_id) {
        return Err(message("That would create a dependency cycle."));
    }
    Ok(())
}

/// Law: every task reaches itself, so a dependency on itself is a cycle.
pub proof fn self_dependency_is_a_cycle(edges: Seq<(i64, i64)>, t: i64)
    ensures
        reaches(edges, t, t),
{
    let p = seq![t];
    assert(is_chain(edges, p));
}

} // verus!
