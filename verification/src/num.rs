//! Integer helpers with Rust's rounding.
use vstd::prelude::*;

verus! {

/// Rust's `/` on integers: rounds toward zero.
pub open spec fn tdiv(a: int, b: int) -> int {
    if a >= 0 { a / b } else { -((-a) / b) }
}

/// Rust's `%` on integers: the remainder takes the sign of `a`.
pub open spec fn trem(a: int, b: int) -> int {
    a - b * tdiv(a, b)
}

/// `a / b` for `b > 0`, rounding toward zero.
pub fn div_trunc(a: i64, b: i64) -> (r: i64)
    requires
        b > 0,
    ensures
        r as int == tdiv(a as int, b as int),
{
    if a >= 0 {
        a / b
    } else if a == i64::MIN {
        let q: i64 = (-(a + b)) / b;
        proof {
            assert(-(a + b) == -a - b);
            assert((-(a as int)) / (b as int) == (-(a as int) - b) / (b as int) + 1) by (nonlinear_arith)
                requires b > 0, -(a as int) - b >= 0;
        }
        -q - 1
    } else {
        -((-a) / b)
    }
}

/// `a % b` for `a >= 0` and `b != 0`: Rust's remainder, which takes the
/// sign of `a` and so lies in `0..|b|`.
pub fn rem_trunc(a: i64, b: i64) -> (r: i64)
    requires
        a >= 0,
        b != 0,
    ensures
        r as int == trem(a as int, b as int),
        0 <= r,
{
    if b == i64::MIN {
        proof {
            assert((a as int) / (b as int) == 0) by (nonlinear_arith)
                requires 0 <= a < -(b as int), b < 0;
        }
        return a;
    }
    let m: u64 = if b > 0 { b as u64 } else { (-b) as u64 };
    let r: u64 = (a as u64) % m;
    proof {
        let q = (a as int) / (m as int);
        assert((a as int) == (m as int) * q + (r as int)) by (nonlinear_arith)
            requires m > 0, a >= 0, q == (a as int) / (m as int), r == (a as int) % (m as int);
        if b > 0 {
            assert(tdiv(a as int, b as int) == q);
            assert((a as int) - (b as int) * q == r as int) by (nonlinear_arith)
                requires b == m, (a as int) == (m as int) * q + (r as int);
        } else {
            assert((a as int) / (b as int) == -q) by (nonlinear_arith)
                requires b < 0, m == -b, a >= 0, q == (a as int) / (m as int), (a as int) == (m as int) * q + (r as int), 0 <= r < m;
            assert(tdiv(a as int, b as int) == -q);
            assert((a as int) - (b as int) * (-q) == r as int) by (nonlinear_arith)
                requires -(b as int) == m as int, (a as int) == (m as int) * q + (r as int);
        }
    }
    r as i64
}

/// `max(a, b)`.
pub open spec fn max_int(a: int, b: int) -> int {
    if a >= b { a } else { b }
}

/// `min(a, b)`.
pub open spec fn min_int(a: int, b: int) -> int {
    if a <= b { a } else { b }
}


/// Sum of a sequence of integers.
pub open spec fn total(s: Seq<int>) -> int
    decreases s.len(),
{
    if s.len() == 0 { 0 } else { total(s.drop_last()) + s.last() }
}

/// Every running total of `s` fits in an `i64` (Rust's `sum` panics otherwise).
pub open spec fn sums_fit(s: Seq<int>) -> bool {
    forall|k: int| 0 <= k <= s.len() ==> i64::MIN <= #[trigger] total(s.take(k)) <= i64::MAX
}

/// The values as integers.
pub open spec fn as_ints(v: Seq<i64>) -> Seq<int> {
    v.map_values(|x: i64| x as int)
}

/// Sum of the values (`Iterator::sum`).
pub fn sum_i64(v: &Vec<i64>) -> (r: i64)
    requires
        sums_fit(as_ints(v@)),
    ensures
        r as int == total(as_ints(v@)),
{
    let mut acc: i64 = 0;
    let mut i: usize = 0;
    while i < v.len()
        invariant
            i <= v.len(),
            sums_fit(as_ints(v@)),
            acc as int == total(as_ints(v@).take(i as int)),
        decreases v.len() - i,
    {
        proof {
            assert(as_ints(v@).take(i + 1).drop_last() =~= as_ints(v@).take(i as int));
            assert(i64::MIN <= total(as_ints(v@).take(i + 1)) <= i64::MAX);
        }
        acc = acc + v[i];
        i += 1;
    }
    assert(as_ints(v@).take(v.len() as int) =~= as_ints(v@));
    acc
}

/// Whether every running total of the values fits in an `i64`.
pub fn sums_fit_exec(v: &Vec<i64>) -> (r: bool)
    ensures
        r == sums_fit(as_ints(v@)),
{
    let ghost s = as_ints(v@);
    let mut acc: i64 = 0;
    let mut i: usize = 0;
    assert(s.take(0) =~= Seq::<int>::empty());
    while i < v.len()
        invariant
            i <= v.len(),
            s == as_ints(v@),
            acc as int == total(s.take(i as int)),
            forall|k: int| 0 <= k <= i ==> i64::MIN <= #[trigger] total(s.take(k)) <= i64::MAX,
        decreases v.len() - i,
    {
        proof {
            assert(s.take(i + 1).drop_last() =~= s.take(i as int));
        }
        match acc.checked_add(v[i]) {
            Some(next) => {
                acc = next;
            },
            None => {
                proof {
                    assert(total(s.take(i + 1)) == acc + v[i as int]);
                    assert(!(i64::MIN <= total(s.take(i + 1)) <= i64::MAX));
                    assert(i + 1 <= s.len());
                }
                return false;
            },
        }
        i += 1;
    }
    assert(s.take(v.len() as int) =~= s);
    assert forall|k: int| 0 <= k <= s.len() implies i64::MIN <= #[trigger] total(s.take(k)) <= i64::MAX by {
        assert(k <= i);
    }
    true
}

/// Law: the total of a concatenation is the sum of the totals.
pub proof fn total_append(a: Seq<int>, b: Seq<int>)
    ensures
        total(a + b) == total(a) + total(b),
    decreases b.len(),
{
    if b.len() > 0 {
        assert((a + b).drop_last() =~= a + b.drop_last());
        total_append(a, b.drop_last());
    } else {
        assert(a + b =~= a);
    }
}

/// An integer held to the `i64` range, as saturating arithmetic gives it.
pub open spec fn clamp_i64(x: int) -> int {
    if x > i64::MAX {
        i64::MAX as int
    } else if x < i64::MIN {
        i64::MIN as int
    } else {
        x
    }
}

/// `i64::saturating_mul`.
pub fn sat_mul(a: i64, b: i64) -> (r: i64)
    ensures
        r as int == clamp_i64(a as int * b as int),
{
    match a.checked_mul(b) {
        Some(v) => v,
        None => {
            if (a > 0) == (b > 0) {
                proof {
                    if a > 0 {
                        assert(a as int * b as int > 0) by (nonlinear_arith) requires a > 0, b > 0;
                    } else {
                        assert(a as int * b as int >= 0) by (nonlinear_arith) requires a <= 0, b <= 0;
                    }
                }
                i64::MAX
            } else {
                proof {
                    if a > 0 {
                        assert(a as int * b as int <= 0) by (nonlinear_arith) requires a > 0, b <= 0;
                    } else {
                        assert(a as int * b as int <= 0) by (nonlinear_arith) requires a <= 0, b > 0;
                    }
                }
                i64::MIN
            }
        },
    }
}

/// `i64::saturating_add`.
pub fn sat_add(a: i64, b: i64) -> (r: i64)
    ensures
        r as int == clamp_i64(a as int + b as int),
{
    match a.checked_add(b) {
        Some(v) => v,
        None => if a > 0 { i64::MAX } else { i64::MIN },
    }
}

/// `a % b` for `b > 0`: the remainder takes the sign of `a`.
pub fn rem_by(a: i64, b: i64) -> (r: i64)
    requires
        b > 0,
    ensures
        r as int == trem(a as int, b as int),
{
    let q = div_trunc(a, b);
    proof {
        let qa = tdiv(a as int, b as int);
        if a >= 0 {
            assert(0 <= qa * (b as int) <= a) by (nonlinear_arith)
                requires a >= 0, b > 0, qa == (a as int) / (b as int);
        } else {
            assert(a <= qa * (b as int) <= 0) by (nonlinear_arith)
                requires a < 0, b > 0, qa == -((-(a as int)) / (b as int));
        }
    }
    a - q * b
}

} // verus!
