//! Order statistics over integer samples: sorting and the median.
use vstd::prelude::*;
use vstd::relations::{sorted_by, total_ordering};
use vstd::seq_lib::lemma_sorted_unique;

verus! {

broadcast use vstd::seq_lib::group_to_multiset_ensures;

/// The values as mathematical integers.
pub open spec fn ints(v: Seq<i64>) -> Seq<int> {
    v.map_values(|x: i64| x as int)
}

/// The median as the app reports it: the element at index `len / 2` of the
/// values in ascending order (the upper median), or 0 when there are none.
pub open spec fn median_of(v: Seq<i64>) -> int {
    if v.len() == 0 { 0 } else { ints(v).sort()[(v.len() / 2) as int] }
}

proof fn lemma_leq_total()
    ensures
        total_ordering(|x: int, y: int| x <= y),
{
}

proof fn lemma_insert_multiset(s: Seq<int>, pos: int, x: int)
    requires
        0 <= pos <= s.len(),
    ensures
        s.insert(pos, x).to_multiset() =~= s.to_multiset().insert(x),
{
    let t = s.insert(pos, x);
    s.insert_ensures(pos, x);
    assert(t.remove(pos) =~= s);
    assert(t.remove(pos).to_multiset() =~= t.to_multiset().remove(t[pos]));
}

/// The values in ascending order.
pub fn sorted_copy(values: &Vec<i64>) -> (r: Vec<i64>)
    ensures
        ints(r@) == ints(values@).sort(),
        r@.len() == values@.len(),
{
    let mut out: Vec<i64> = Vec::new();
    let mut i: usize = 0;
    while i < values.len()
        invariant
            i <= values.len(),
            out@.len() == i,
            forall|a: int, b: int| 0 <= a < b < out@.len() ==> out@[a] <= out@[b],
            ints(out@).to_multiset() == ints(values@.take(i as int)).to_multiset(),
        decreases values.len() - i,
    {
        let x = values[i];
        let mut p: usize = 0;
        while p < out.len() && out[p] <= x
            invariant
                p <= out.len(),
                forall|k: int| 0 <= k < p ==> out@[k] <= x,
            decreases out.len() - p,
        {
            p += 1;
        }
        let ghost before = out@;
        out.insert(p, x);
        proof {
            assert(out@ =~= before.insert(p as int, x));
            assert(ints(out@) =~= ints(before).insert(p as int, x as int));
            lemma_insert_multiset(ints(before), p as int, x as int);
            assert(values@.take(i + 1) =~= values@.take(i as int).push(x));
            assert(ints(values@.take(i + 1)) =~= ints(values@.take(i as int)).push(x as int));
            assert forall|a: int, b: int| 0 <= a < b < out@.len() implies out@[a] <= out@[b] by {
                if b < p {
                    assert(out@[a] == before[a] && out@[b] == before[b]);
                } else if b == p {
                    assert(out@[a] == before[a]);
                } else if a < p {
                    assert(out@[a] == before[a] && out@[b] == before[b - 1]);
                    assert(before[a] <= x);
                    if p < before.len() {
                        assert(!(before[p as int] <= x));
                    }
                } else if a == p {
                    assert(out@[b] == before[b - 1]);
                    assert(!(before[p as int] <= x));
                } else {
                    assert(out@[a] == before[a - 1] && out@[b] == before[b - 1]);
                }
            }
        }
        i += 1;
    }
    proof {
        assert(values@.take(values.len() as int) =~= values@);
        ints(values@).lemma_sort_ensures();
        lemma_leq_total();
        assert(sorted_by(ints(out@), |x: int, y: int| x <= y));
        lemma_sorted_unique(ints(out@), ints(values@).sort(), |x: int, y: int| x <= y);
    }
    out
}

/// The median of the values (see `median_of`).
pub fn median(values: &Vec<i64>) -> (r: i64)
    ensures
        r as int == median_of(values@),
{
    if values.len() == 0 {
        return 0;
    }
    let sorted = sorted_copy(values);
    let r = sorted[values.len() / 2];
    assert(ints(sorted@)[(values.len() / 2) as int] == r as int);
    r
}

/// Law: the median of a nonempty list is one of its values.
pub proof fn median_is_a_value(v: Seq<i64>)
    requires
        v.len() > 0,
    ensures
        ints(v).contains(median_of(v)),
{
    ints(v).lemma_sort_ensures();
    let s = ints(v).sort();
    assert(s.to_multiset().len() == s.len());
    assert(ints(v).to_multiset().len() == ints(v).len());
    let k = (v.len() / 2) as int;
    assert(s.contains(s[k]));
    assert(s.to_multiset().count(s[k]) > 0);
    assert(ints(v).to_multiset().count(s[k]) > 0);
}

} // verus!
