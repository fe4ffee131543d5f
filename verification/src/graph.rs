//! Reachability along directed links between task ids.
use vstd::prelude::*;

verus! {

/// `(a, b)` is one of the links.
pub open spec fn has_edge(edges: Seq<(i64, i64)>, a: i64, b: i64) -> bool {
    exists|k: int| 0 <= k < edges.len() && edges[k] == (a, b)
}

/// `path` follows links from its first id to its last.
pub open spec fn is_chain(edges: Seq<(i64, i64)>, path: Seq<i64>) -> bool {
    &&& path.len() >= 1
    &&& forall|i: int| 0 <= i < path.len() - 1 ==> has_edge(edges, #[trigger] path[i], path[i + 1])
}

/// Some chain of links leads from `from` to `to` (every id reaches itself).
pub open spec fn reaches(edges: Seq<(i64, i64)>, from: i64, to: i64) -> bool {
    exists|path: Seq<i64>| #[trigger] is_chain(edges, path) && path[0] == from && path.last() == to
}

/// Some start reaches `to`.
pub open spec fn reaches_any(edges: Seq<(i64, i64)>, starts: Seq<i64>, to: i64) -> bool {
    exists|i: int| 0 <= i < starts.len() && reaches(edges, #[trigger] starts[i], to)
}

/// Law: every id reaches itself.
pub proof fn reaches_self(edges: Seq<(i64, i64)>, t: i64)
    ensures
        reaches(edges, t, t),
{
    let p = seq![t];
    assert(is_chain(edges, p));
}

/// Law: a reached id's link extends the reach.
pub proof fn reaches_step(edges: Seq<(i64, i64)>, from: i64, s: i64, t: i64)
    requires
        reaches(edges, from, s),
        has_edge(edges, s, t),
    ensures
        reaches(edges, from, t),
{
    let p = choose|p: Seq<i64>| is_chain(edges, p) && p[0] == from && p.last() == s;
    let q = p.push(t);
    assert forall|i: int| 0 <= i < q.len() - 1 implies has_edge(edges, #[trigger] q[i], q[i + 1]) by {
        if i < p.len() - 1 {
            assert(q[i] == p[i] && q[i + 1] == p[i + 1]);
        } else {
            assert(q[i] == s && q[i + 1] == t);
        }
    }
    assert(is_chain(edges, q) && q[0] == from && q.last() == t);
}

spec fn unused_count(u: Seq<bool>) -> nat
    decreases u.len(),
{
    if u.len() == 0 {
        0
    } else {
        unused_count(u.drop_last()) + if u.last() { 0nat } else { 1nat }
    }
}

proof fn lemma_unused_count_mark(u: Seq<bool>, k: int)
    requires
        0 <= k < u.len(),
        !u[k],
    ensures
        unused_count(u.update(k, true)) + 1 == unused_count(u),
    decreases u.len(),
{
    if k == u.len() - 1 {
        assert(u.update(k, true).drop_last() =~= u.drop_last());
    } else {
        lemma_unused_count_mark(u.drop_last(), k);
        assert(u.update(k, true).drop_last() =~= u.drop_last().update(k, true));
    }
}

proof fn lemma_all_unused(u: Seq<bool>)
    requires
        forall|j: int| 0 <= j < u.len() ==> !u[j],
    ensures
        unused_count(u) == u.len(),
    decreases u.len(),
{
    if u.len() > 0 {
        lemma_all_unused(u.drop_last());
    }
}

/// `x` is a start or the target of a link already followed.
spec fn is_marked(edges: Seq<(i64, i64)>, used: Seq<bool>, starts: Seq<i64>, x: i64) -> bool {
    starts.contains(x) || exists|k: int| 0 <= k < edges.len() && used[k] && edges[k].1 == x
}

fn marked_exec(edges: &Vec<(i64, i64)>, used: &Vec<bool>, starts: &Vec<i64>, x: i64) -> (r: bool)
    requires
        used.len() == edges.len(),
    ensures
        r == is_marked(edges@, used@, starts@, x),
{
    let mut s: usize = 0;
    while s < starts.len()
        invariant
            s <= starts.len(),
            forall|j: int| 0 <= j < s ==> starts@[j] != x,
        decreases starts.len() - s,
    {
        if starts[s] == x {
            return true;
        }
        s += 1;
    }
    let mut k: usize = 0;
    while k < edges.len()
        invariant
            used.len() == edges.len(),
            k <= edges.len(),
            !starts@.contains(x),
            forall|j: int| 0 <= j < k ==> !(used@[j] && edges@[j].1 == x),
        decreases edges.len() - k,
    {
        if used[k] && edges[k].1 == x {
            return true;
        }
        k += 1;
    }
    false
}

proof fn lemma_closed_covers_chain(edges: Seq<(i64, i64)>, used: Seq<bool>, starts: Seq<i64>, path: Seq<i64>, i: int)
    requires
        used.len() == edges.len(),
        is_chain(edges, path),
        is_marked(edges, used, starts, path[0]),
        0 <= i < path.len(),
        forall|k: int| 0 <= k < edges.len() && is_marked(edges, used, starts, edges[k].0)
            ==> is_marked(edges, used, starts, #[trigger] edges[k].1),
    ensures
        is_marked(edges, used, starts, path[i]),
    decreases i,
{
    if i > 0 {
        lemma_closed_covers_chain(edges, used, starts, path, i - 1);
        assert(has_edge(edges, path[i - 1], path[i]));
        let k = choose|k: int| 0 <= k < edges.len() && edges[k] == (path[i - 1], path[i]);
        assert(edges[k].1 == path[i]);
    }
}

/// Everything reachable from the starts: a test of membership answers
/// `reaches_any` exactly.
pub struct Reached {
    edges: Vec<(i64, i64)>,
    used: Vec<bool>,
    starts: Vec<i64>,
}

impl Reached {
    /// The ids this set holds.
    pub closed spec fn holds(&self, x: i64) -> bool {
        is_marked(self.edges@, self.used@, self.starts@, x)
    }

    /// The links the set was computed over.
    pub closed spec fn links(&self) -> Seq<(i64, i64)> {
        self.edges@
    }

    /// The starts the set was computed from.
    pub closed spec fn origins(&self) -> Seq<i64> {
        self.starts@
    }

    pub closed spec fn wf(&self) -> bool {
        self.used.len() == self.edges.len()
    }

    /// Whether `x` is reached.
    pub fn contains(&self, x: i64) -> (r: bool)
        requires
            self.wf(),
        ensures
            r == self.holds(x),
    {
        marked_exec(&self.edges, &self.used, &self.starts, x)
    }
}

/// The ids reachable from `starts` along `edges`.
pub fn reach(edges: Vec<(i64, i64)>, starts: Vec<i64>) -> (r: Reached)
    ensures
        r.wf(),
        r.links() == edges@,
        r.origins() == starts@,
        forall|x: i64| #[trigger] r.holds(x) <==> reaches_any(edges@, starts@, x),
{
    let n = edges.len();
    let mut used: Vec<bool> = Vec::new();
    while used.len() < n
        invariant
            used.len() <= n,
            n == edges.len(),
            forall|j: int| 0 <= j < used.len() ==> !used@[j],
        decreases n - used.len(),
    {
        used.push(false);
    }
    let ghost mut unused: nat = n as nat;
    proof {
        lemma_all_unused(used@);
        assert forall|x: i64| #[trigger] is_marked(edges@, used@, starts@, x) implies reaches_any(edges@, starts@, x) by {
            if starts@.contains(x) {
                let i = choose|i: int| 0 <= i < starts@.len() && starts@[i] == x;
                reaches_self(edges@, x);
            }
        }
    }
    loop
        invariant
            used.len() == n,
            n == edges.len(),
            unused == unused_count(used@),
            forall|x: i64| #[trigger] is_marked(edges@, used@, starts@, x) ==> reaches_any(edges@, starts@, x),
        decreases unused,
    {
        let mut k: usize = 0;
        let mut found: Option<usize> = None;
        while k < n && found.is_none()
            invariant
                used.len() == n,
                n == edges.len(),
                k <= n,
                found matches Some(f) ==> f < n && !used@[f as int] && is_marked(edges@, used@, starts@, edges@[f as int].0),
                found is None ==> forall|j: int| 0 <= j < k ==> used@[j] || !is_marked(edges@, used@, starts@, #[trigger] edges@[j].0),
            decreases (n - k) as int + if found is None { 1int } else { 0int },
        {
            if !used[k] && marked_exec(&edges, &used, &starts, edges[k].0) {
                found = Some(k);
            } else {
                k += 1;
            }
        }
        match found {
            Some(f) => {
                let ghost old_used = used@;
                proof {
                    lemma_unused_count_mark(used@, f as int);
                    let s = edges@[f as int].0;
                    let t = edges@[f as int].1;
                    assert(reaches_any(edges@, starts@, s));
                    let i = choose|i: int| 0 <= i < starts@.len() && reaches(edges@, starts@[i], s);
                    assert(has_edge(edges@, s, t));
                    reaches_step(edges@, starts@[i], s, t);
                    assert(reaches_any(edges@, starts@, t));
                }
                used.set(f, true);
                proof {
                    unused = (unused - 1) as nat;
                    assert forall|x: i64| #[trigger] is_marked(edges@, used@, starts@, x) implies reaches_any(edges@, starts@, x) by {
                        if !starts@.contains(x) && x != edges@[f as int].1 {
                            let k2 = choose|k2: int| 0 <= k2 < edges@.len() && used@[k2] && edges@[k2].1 == x;
                            assert(old_used[k2]);
                            assert(is_marked(edges@, old_used, starts@, x));
                        } else if starts@.contains(x) {
                            assert(is_marked(edges@, old_used, starts@, x));
                        }
                    }
                }
            }
            None => {
                proof {
                    assert forall|kk: int| 0 <= kk < edges@.len() && is_marked(edges@, used@, starts@, edges@[kk].0)
                        implies is_marked(edges@, used@, starts@, #[trigger] edges@[kk].1) by {
                        assert(k >= n);
                        assert(used@[kk] || !is_marked(edges@, used@, starts@, edges@[kk].0));
                    }
                    assert forall|x: i64| reaches_any(edges@, starts@, x) implies #[trigger] is_marked(edges@, used@, starts@, x) by {
                        let i = choose|i: int| 0 <= i < starts@.len() && reaches(edges@, starts@[i], x);
                        let p = choose|p: Seq<i64>| is_chain(edges@, p) && p[0] == starts@[i] && p.last() == x;
                        assert(starts@.contains(p[0]));
                        lemma_closed_covers_chain(edges@, used@, starts@, p, p.len() - 1);
                    }
                }
                return Reached { edges, used, starts };
            }
        }
    }
}

} // verus!
