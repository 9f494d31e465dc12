//! Sorted frame lists: ordered insertion and binary search.
use vstd::prelude::*;

verus! {

broadcast use vstd::seq_lib::group_to_multiset_ensures;

/// `s` is in non-decreasing order.
pub open spec fn sorted(s: Seq<i32>) -> bool {
    forall|i: int, j: int| 0 <= i <= j < s.len() ==> s[i] <= s[j]
}

/// The index of the first element of a sorted slice that is at least `x`.
pub fn first_at_least(s: &[i32], x: i32) -> (res: usize)
    requires
        sorted(s@),
    ensures
        res <= s@.len(),
        forall|k: int| 0 <= k < res ==> s@[k] < x,
        forall|k: int| res <= k < s@.len() ==> s@[k] >= x,
{
    let mut lo: usize = 0;
    let mut hi: usize = s.len();
    while lo < hi
        invariant
            lo <= hi <= s@.len(),
            sorted(s@),
            forall|k: int| 0 <= k < lo ==> s@[k] < x,
            forall|k: int| hi <= k < s@.len() ==> s@[k] >= x,
        decreases hi - lo,
    {
        let mid = lo + (hi - lo) / 2;
        if s[mid] < x {
            lo = mid + 1;
        } else {
            hi = mid;
        }
    }
    lo
}

/// The index of the first element of a sorted slice that is above `x`.
pub fn first_above(s: &[i32], x: i32) -> (res: usize)
    requires
        sorted(s@),
    ensures
        res <= s@.len(),
        forall|k: int| 0 <= k < res ==> s@[k] <= x,
        forall|k: int| res <= k < s@.len() ==> s@[k] > x,
{
    let mut lo: usize = 0;
    let mut hi: usize = s.len();
    while lo < hi
        invariant
            lo <= hi <= s@.len(),
            sorted(s@),
            forall|k: int| 0 <= k < lo ==> s@[k] <= x,
            forall|k: int| hi <= k < s@.len() ==> s@[k] > x,
        decreases hi - lo,
    {
        let mid = lo + (hi - lo) / 2;
        if s[mid] <= x {
            lo = mid + 1;
        } else {
            hi = mid;
        }
    }
    lo
}

/// Inserts `x` into a sorted vector, keeping it sorted.
pub fn insert_sorted(v: &mut Vec<i32>, x: i32)
    requires
        sorted(old(v)@),
    ensures
        sorted(final(v)@),
        final(v)@.to_multiset() =~= old(v)@.to_multiset().insert(x),
        final(v)@.len() == old(v)@.len() + 1,
{
    let p = first_above(v.as_slice(), x);
    let ghost before = v@;
    v.insert(p, x);
    proof {
        vstd::seq_lib::to_multiset_insert(before, p as int, x);
        assert forall|i: int, j: int| 0 <= i <= j < v@.len() implies v@[i] <= v@[j] by {
            if i < p && j < p {
                assert(v@[i] == before[i] && v@[j] == before[j]);
            } else if i < p && j == p {
                assert(v@[i] == before[i]);
            } else if i < p {
                assert(v@[i] == before[i] && v@[j] == before[j - 1]);
            } else if i == p && j > p {
                assert(v@[j] == before[j - 1]);
            } else if i > p {
                assert(v@[i] == before[i - 1] && v@[j] == before[j - 1]);
            }
        }
    }
}

/// A sorted copy of a list of frames.
pub fn sorted_copy(s: &[i32]) -> (res: Vec<i32>)
    ensures
        sorted(res@),
        res@.to_multiset() =~= s@.to_multiset(),
{
    let mut out: Vec<i32> = Vec::new();
    let mut i: usize = 0;
    while i < s.len()
        invariant
            i <= s@.len(),
            sorted(out@),
            out@.to_multiset() =~= s@.subrange(0, i as int).to_multiset(),
        decreases s@.len() - i,
    {
        insert_sorted(&mut out, s[i]);
        assert(s@.subrange(0, i + 1) =~= s@.subrange(0, i as int).push(s@[i as int]));
        i = i + 1;
    }
    assert(s@.subrange(0, s@.len() as int) =~= s@);
    out
}


/// `s` is in strictly increasing order.
pub open spec fn strictly_increasing(s: Seq<i32>) -> bool {
    forall|i: int, j: int| 0 <= i < j < s.len() ==> s[i] < s[j]
}

/// The distinct values of a list, in increasing order.
pub fn distinct_sorted(s: &[i32]) -> (res: Vec<i32>)
    ensures
        strictly_increasing(res@),
        forall|v: i32| res@.contains(v) <==> s@.contains(v),
{
    let sorted_values = sorted_copy(s);
    let ghost t = sorted_values@;
    let mut out: Vec<i32> = Vec::new();
    let mut i: usize = 0;
    while i < sorted_values.len()
        invariant
            t == sorted_values@,
            sorted(t),
            i <= t.len(),
            strictly_increasing(out@),
            forall|v: i32| out@.contains(v) <==> t.subrange(0, i as int).contains(v),
            i > 0 ==> out@.len() > 0 && out@.last() == t[i - 1],
            i == 0 ==> out@.len() == 0,
        decreases t.len() - i,
    {
        let x = sorted_values[i];
        let ghost before = out@;
        let push_it = out.len() == 0 || out[out.len() - 1] != x;
        if push_it {
            out.push(x);
            proof {
                assert forall|a: int, b: int| 0 <= a < b < out@.len() implies out@[a] < out@[b] by {
                    if b == out@.len() - 1 && a < b {
                        assert(before[a] <= before.last());
                        assert(before.last() == t[i - 1]);
                        assert(t[i - 1] <= t[i as int]);
                    }
                }
            }
        }
        proof {
            broadcast use vstd::seq_lib::group_seq_properties;
            let sub = t.subrange(0, i as int);
            let sub1 = t.subrange(0, i + 1);
            assert(sub1 =~= sub.push(x));
            if out@.len() > before.len() {
                assert(out@ =~= before.push(x));
            } else {
                assert(out@ == before);
                assert(before[before.len() - 1] == x);
                assert(before.contains(x));
            }
            assert forall|v: i32| out@.contains(v) <==> sub1.contains(v) by {
                assert(sub1.contains(v) <==> (sub.contains(v) || v == x));
            }
        }
        i = i + 1;
    }
    proof {
        assert(t.subrange(0, t.len() as int) =~= t);
        assert forall|v: i32| t.contains(v) <==> s@.contains(v) by {
            assert(t.to_multiset().count(v) == s@.to_multiset().count(v));
        }
    }
    out
}

} // verus!
