//! In-place quicksort with Lomuto partition and the last element as pivot.
//! The pivot choice is part of the benchmark's cost shape, so the executable
//! code keeps it exactly; the contract states that the result is a sorted
//! permutation of the input.

use vstd::prelude::*;
use vstd::seq_lib::lemma_multiset_commutative;
use vstd::seq_lib::lemma_sorted_unique;
use vstd::seq_lib::to_multiset_update;
use vstd::seq_lib::group_to_multiset_ensures;
use vstd::multiset::group_multiset_axioms;
use vstd::multiset::group_multiset_properties;
use vstd::relations::total_ordering;
use vstd::relations::sorted_by;

verus! {

/// The segment [lo, hi) of `s` is in non-decreasing order.
pub open spec fn sorted_between(s: Seq<i32>, lo: int, hi: int) -> bool {
    forall|x: int, y: int| lo <= x < y < hi ==> s[x] <= s[y]
}

/// The whole sequence is in non-decreasing order.
pub open spec fn sorted(s: Seq<i32>) -> bool {
    sorted_between(s, 0, s.len() as int)
}

/// Exchanges the elements at positions `a` and `b`.
fn swap_elems(arr: &mut Vec<i32>, a: usize, b: usize)
    requires
        a < old(arr).len(),
        b < old(arr).len(),
    ensures
        final(arr)@ == old(arr)@.update(a as int, old(arr)@[b as int]).update(
            b as int,
            old(arr)@[a as int],
        ),
        final(arr)@.to_multiset() == old(arr)@.to_multiset(),
        final(arr).len() == old(arr).len(),
{
    let va = arr[a];
    let vb = arr[b];
    arr.set(a, vb);
    arr.set(b, va);
    proof {
        broadcast use group_multiset_axioms, group_multiset_properties, group_to_multiset_ensures;

        let s = old(arr)@;
        if a == b {
            assert(final(arr)@ =~= s);
        } else {
            let s1 = s.update(a as int, s[b as int]);
            to_multiset_update(s, a as int, s[b as int]);
            to_multiset_update(s1, b as int, s[a as int]);
            assert(s.contains(s[a as int]));
            assert(s1.contains(s1[b as int]));
            assert(s1[b as int] == s[b as int]);
            assert forall|e: i32|
                final(arr)@.to_multiset().count(e) == s.to_multiset().count(e) by {
                assert(s.to_multiset().count(s[a as int]) > 0);
                assert(s1.to_multiset().count(s[b as int]) > 0);
            };
            assert(final(arr)@.to_multiset() =~= s.to_multiset());
        }
    }
}

/// Two sequences of equal length and equal multisets that agree outside
/// [lo, hi) have segments [lo, hi) with equal multisets.
proof fn lemma_same_outside_same_segment_multiset(s1: Seq<i32>, s2: Seq<i32>, lo: int, hi: int)
    requires
        s1.len() == s2.len(),
        0 <= lo <= hi <= s1.len(),
        s1.to_multiset() == s2.to_multiset(),
        forall|k: int| 0 <= k < s1.len() && !(lo <= k < hi) ==> s1[k] == s2[k],
    ensures
        s1.subrange(lo, hi).to_multiset() == s2.subrange(lo, hi).to_multiset(),
{
    broadcast use group_multiset_axioms;

    let n = s1.len() as int;
    let a1 = s1.subrange(0, lo);
    let b1 = s1.subrange(lo, hi);
    let c1 = s1.subrange(hi, n);
    let a2 = s2.subrange(0, lo);
    let b2 = s2.subrange(lo, hi);
    let c2 = s2.subrange(hi, n);
    assert(a1 =~= a2);
    assert(c1 =~= c2);
    assert(s1 =~= (a1 + b1) + c1);
    assert(s2 =~= (a2 + b2) + c2);
    lemma_multiset_commutative(a1 + b1, c1);
    lemma_multiset_commutative(a1, b1);
    lemma_multiset_commutative(a2 + b2, c2);
    lemma_multiset_commutative(a2, b2);
    assert forall|e: i32| b1.to_multiset().count(e) == b2.to_multiset().count(e) by {
        assert(s1.to_multiset().count(e) == a1.to_multiset().count(e) + b1.to_multiset().count(e)
            + c1.to_multiset().count(e));
        assert(s2.to_multiset().count(e) == a2.to_multiset().count(e) + b2.to_multiset().count(e)
            + c2.to_multiset().count(e));
    };
    assert(b1.to_multiset() =~= b2.to_multiset());
}

/// An upper bound on every element of segment [lo, hi) of `s_before` also
/// bounds every element of the same segment of `s_after` when the two
/// segments carry the same multiset.
proof fn lemma_segment_elems_stay_le(s_before: Seq<i32>, s_after: Seq<i32>, lo: int, hi: int, bound: i32)
    requires
        s_before.len() == s_after.len(),
        0 <= lo <= hi <= s_before.len(),
        s_before.subrange(lo, hi).to_multiset() == s_after.subrange(lo, hi).to_multiset(),
        forall|k: int| lo <= k < hi ==> s_before[k] <= bound,
    ensures
        forall|k: int| lo <= k < hi ==> s_after[k] <= bound,
{
    broadcast use group_to_multiset_ensures;

    assert forall|k: int| lo <= k < hi implies s_after[k] <= bound by {
        let sub_after = s_after.subrange(lo, hi);
        let sub_before = s_before.subrange(lo, hi);
        assert(sub_after[k - lo] == s_after[k]);
        assert(sub_after.contains(s_after[k]));
        assert(sub_before.to_multiset().count(s_after[k]) > 0);
        assert(sub_before.contains(s_after[k]));
        let j = choose|j: int| 0 <= j < sub_before.len() && sub_before[j] == s_after[k];
        assert(s_before[lo + j] == s_after[k]);
    };
}

/// A strict lower bound on every element of segment [lo, hi) of `s_before`
/// also bounds every element of the same segment of `s_after` when the two
/// segments carry the same multiset.
proof fn lemma_segment_elems_stay_gt(s_before: Seq<i32>, s_after: Seq<i32>, lo: int, hi: int, bound: i32)
    requires
        s_before.len() == s_after.len(),
        0 <= lo <= hi <= s_before.len(),
        s_before.subrange(lo, hi).to_multiset() == s_after.subrange(lo, hi).to_multiset(),
        forall|k: int| lo <= k < hi ==> s_before[k] > bound,
    ensures
        forall|k: int| lo <= k < hi ==> s_after[k] > bound,
{
    broadcast use group_to_multiset_ensures;

    assert forall|k: int| lo <= k < hi implies s_after[k] > bound by {
        let sub_after = s_after.subrange(lo, hi);
        let sub_before = s_before.subrange(lo, hi);
        assert(sub_after[k - lo] == s_after[k]);
        assert(sub_after.contains(s_after[k]));
        assert(sub_before.to_multiset().count(s_after[k]) > 0);
        assert(sub_before.contains(s_after[k]));
        let j = choose|j: int| 0 <= j < sub_before.len() && sub_before[j] == s_after[k];
        assert(s_before[lo + j] == s_after[k]);
    };
}

/// Lomuto partition of the segment [lo, hi): the last element is the pivot;
/// elements at most the pivot move left of it, strictly greater ones right.
fn partition(arr: &mut Vec<i32>, lo: usize, hi: usize) -> (p: usize)
    requires
        lo < hi <= old(arr).len(),
    ensures
        final(arr).len() == old(arr).len(),
        lo <= p < hi,
        final(arr)@.to_multiset() == old(arr)@.to_multiset(),
        forall|k: int| 0 <= k < old(arr).len() && !(lo <= k < hi) ==> final(arr)@[k] == old(
            arr,
        )@[k],
        forall|k: int| lo <= k < p ==> final(arr)@[k] <= final(arr)@[p as int],
        forall|k: int| p < k < hi ==> final(arr)@[k] > final(arr)@[p as int],
        final(arr)@[p as int] == old(arr)@[hi - 1],
{
    let pivot_index = hi - 1;
    let mut i = lo;
    let mut j = lo;
    while j < pivot_index
        invariant
            lo <= i <= j <= pivot_index,
            pivot_index == hi - 1,
            lo < hi <= arr.len(),
            arr.len() == old(arr).len(),
            arr@.to_multiset() == old(arr)@.to_multiset(),
            forall|k: int| 0 <= k < arr.len() && !(lo <= k < hi) ==> arr@[k] == old(arr)@[k],
            arr@[pivot_index as int] == old(arr)@[pivot_index as int],
            forall|k: int| lo <= k < i ==> arr@[k] <= arr@[pivot_index as int],
            forall|k: int| i <= k < j ==> arr@[k] > arr@[pivot_index as int],
        decreases pivot_index - j,
    {
        if arr[j] <= arr[pivot_index] {
            swap_elems(arr, i, j);
            i += 1;
        }
        j += 1;
    }
    swap_elems(arr, i, pivot_index);
    i
}

/// Sorts the segment [lo, hi) in place; the rest of the vector is untouched
/// and the segment keeps its multiset of elements.
fn quicksort_range(arr: &mut Vec<i32>, lo: usize, hi: usize)
    requires
        lo <= hi <= old(arr).len(),
    ensures
        final(arr).len() == old(arr).len(),
        final(arr)@.to_multiset() == old(arr)@.to_multiset(),
        forall|k: int| 0 <= k < old(arr).len() && !(lo <= k < hi) ==> final(arr)@[k] == old(
            arr,
        )@[k],
        sorted_between(final(arr)@, lo as int, hi as int),
    decreases hi - lo,
{
    if hi - lo <= 1 {
        return ;
    }
    let p = partition(arr, lo, hi);
    let ghost s0 = arr@;
    let ghost pivot = arr@[p as int];

    quicksort_range(arr, lo, p);
    let ghost s1 = arr@;
    proof {
        lemma_same_outside_same_segment_multiset(s0, s1, lo as int, p as int);
        lemma_segment_elems_stay_le(s0, s1, lo as int, p as int, pivot);
    }

    quicksort_range(arr, p + 1, hi);
    let ghost s2 = arr@;
    proof {
        lemma_same_outside_same_segment_multiset(s1, s2, p + 1, hi as int);
        lemma_segment_elems_stay_gt(s1, s2, p + 1, hi as int, pivot);
        assert(s2[p as int] == pivot);
        assert(forall|k: int| lo <= k < p ==> s2[k] == s1[k]);
        assert forall|x: int, y: int| lo <= x < y < hi implies s2[x] <= s2[y] by {
            if y < p {
            } else if y == p {
                assert(s2[x] <= pivot);
            } else if x == p {
                assert(s2[y] > pivot);
            } else if x < p {
                assert(s2[x] <= pivot);
                assert(s2[y] > pivot);
            }
        };
    }
}

/// Sorts the vector in place: the result is a non-decreasing permutation of
/// the input.
pub fn quicksort(arr: &mut Vec<i32>)
    ensures
        final(arr).len() == old(arr).len(),
        final(arr)@.to_multiset() == old(arr)@.to_multiset(),
        sorted(final(arr)@),
{
    let n = arr.len();
    if n <= 1 {
        return ;
    }
    quicksort_range(arr, 0, n);
}

/// A sorted permutation of a sequence is unique: any two non-decreasing
/// sequences with the same multiset of elements are equal. Together with the
/// contract of `quicksort`, this makes the sort's output a function of its
/// input alone.
pub proof fn lemma_sorted_permutation_unique(s1: Seq<i32>, s2: Seq<i32>)
    requires
        sorted(s1),
        sorted(s2),
        s1.to_multiset() == s2.to_multiset(),
    ensures
        s1 == s2,
{
    let leq = |a: i32, b: i32| a <= b;
    assert(total_ordering(leq));
    assert(sorted_by(s1, leq));
    assert(sorted_by(s2, leq));
    lemma_sorted_unique(s1, s2, leq);
    assert(s1 =~= s2);
}

} // verus!
