//! Ascending order of a sample.

use vstd::prelude::*;
use vstd::relations::{sorted_by, total_ordering};
use vstd::seq_lib::{lemma_multiset_commutative, lemma_sorted_unique, to_multiset_build};

verus! {

/// No element of `s` is followed by a smaller one.
pub open spec fn ascending(s: Seq<i64>) -> bool {
    forall|i: int, j: int| 0 <= i <= j < s.len() ==> s[i] <= s[j]
}

/// The order on outcomes.
pub open spec fn at_most() -> spec_fn(i64, i64) -> bool {
    |a: i64, b: i64| a <= b
}

/// The elements of `s` in ascending order.
pub open spec fn sorted_sample(s: Seq<i64>) -> Seq<i64> {
    s.sort_by(at_most())
}

/// `sorted_sample(s)` is ascending and holds exactly the elements of `s`,
/// each as often as `s` does.
pub proof fn lemma_sorted_sample(s: Seq<i64>)
    ensures
        ascending(sorted_sample(s)),
        sorted_sample(s).to_multiset() == s.to_multiset(),
        sorted_sample(s).len() == s.len(),
{
    assert(total_ordering(at_most()));
    s.lemma_sort_by_ensures(at_most());
    let t = sorted_sample(s);
    assert forall|i: int, j: int| 0 <= i <= j < t.len() implies t[i] <= t[j] by {
        if i < j {
            assert(at_most()(t[i], t[j]));
        }
    }
    s.to_multiset_ensures();
    t.to_multiset_ensures();
}

/// An ascending arrangement of the elements of `s` is `sorted_sample(s)`:
/// there is only one.
pub proof fn lemma_sorted_sample_unique(s: Seq<i64>, t: Seq<i64>)
    requires
        ascending(t),
        t.to_multiset() == s.to_multiset(),
    ensures
        t == sorted_sample(s),
{
    lemma_sorted_sample(s);
    let u = sorted_sample(s);
    assert(total_ordering(at_most()));
    assert(sorted_by(t, at_most()));
    assert(sorted_by(u, at_most())) by {
        assert forall|i: int, j: int| 0 <= i < j < u.len() implies #[trigger] at_most()(
            u[i],
            u[j],
        ) by {
            assert(u[i] <= u[j]);
        }
    }
    lemma_sorted_unique(t, u, at_most());
}

/// Merges two ascending vectors into one.
fn merge(left: &Vec<i64>, right: &Vec<i64>) -> (merged: Vec<i64>)
    requires
        ascending(left@),
        ascending(right@),
        left.len() + right.len() <= usize::MAX,
    ensures
        ascending(merged@),
        merged@.to_multiset() == left@.to_multiset().add(right@.to_multiset()),
        merged.len() == left.len() + right.len(),
{
    broadcast use vstd::seq_lib::group_to_multiset_ensures;
    broadcast use vstd::multiset::group_multiset_axioms;

    let mut merged: Vec<i64> = Vec::with_capacity(left.len() + right.len());
    let mut i: usize = 0;
    let mut j: usize = 0;
    assert(left@.take(0) =~= Seq::<i64>::empty());
    assert(right@.take(0) =~= Seq::<i64>::empty());
    while i < left.len() || j < right.len()
        invariant
            0 <= i <= left.len(),
            0 <= j <= right.len(),
            left.len() + right.len() <= usize::MAX,
            ascending(left@),
            ascending(right@),
            ascending(merged@),
            merged.len() == i + j,
            merged@.to_multiset() == left@.take(i as int).to_multiset().add(
                right@.take(j as int).to_multiset(),
            ),
            forall|k: int| 0 <= k < merged.len() && i < left.len() ==> merged@[k] <= left@[i as int],
            forall|k: int|
                0 <= k < merged.len() && j < right.len() ==> merged@[k] <= right@[j as int],
        decreases left.len() - i + right.len() - j,
    {
        let take_left = if j >= right.len() {
            true
        } else if i >= left.len() {
            false
        } else {
            left[i] <= right[j]
        };
        let ghost before = merged@;
        let ghost left_taken = left@.take(i as int);
        let ghost right_taken = right@.take(j as int);
        if take_left {
            let value = left[i];
            merged.push(value);
            i = i + 1;
            proof {
                assert(left@.take(i as int) =~= left_taken.push(value));
                assert(merged@ =~= before.push(value));
                to_multiset_build(before, value);
                to_multiset_build(left_taken, value);
                assert(left_taken.to_multiset().insert(value).add(right_taken.to_multiset())
                    =~= left_taken.to_multiset().add(right_taken.to_multiset()).insert(value));
            }
        } else {
            let value = right[j];
            merged.push(value);
            j = j + 1;
            proof {
                assert(right@.take(j as int) =~= right_taken.push(value));
                assert(merged@ =~= before.push(value));
                to_multiset_build(before, value);
                to_multiset_build(right_taken, value);
                assert(left_taken.to_multiset().add(right_taken.to_multiset().insert(value))
                    =~= left_taken.to_multiset().add(right_taken.to_multiset()).insert(value));
            }
        }
    }
    assert(left@.take(i as int) =~= left@);
    assert(right@.take(j as int) =~= right@);
    merged
}

/// Sorts the part of `values` from `low` up to, not including, `high`.
fn sort_range(values: &Vec<i64>, low: usize, high: usize) -> (sorted: Vec<i64>)
    requires
        low <= high <= values.len(),
    ensures
        ascending(sorted@),
        sorted@.to_multiset() == values@.subrange(low as int, high as int).to_multiset(),
        sorted.len() == high - low,
    decreases high - low,
{
    broadcast use vstd::seq_lib::group_to_multiset_ensures;

    if high - low == 0 {
        let sorted: Vec<i64> = Vec::new();
        assert(values@.subrange(low as int, high as int) =~= sorted@);
        sorted
    } else if high - low == 1 {
        let mut sorted: Vec<i64> = Vec::new();
        sorted.push(values[low]);
        assert(values@.subrange(low as int, high as int) =~= sorted@);
        sorted
    } else {
        let middle: usize = low + (high - low) / 2;
        let left = sort_range(values, low, middle);
        let right = sort_range(values, middle, high);
        proof {
            let a = values@.subrange(low as int, middle as int);
            let b = values@.subrange(middle as int, high as int);
            assert(a + b =~= values@.subrange(low as int, high as int));
            lemma_multiset_commutative(a, b);
        }
        merge(&left, &right)
    }
}

/// Returns the elements of `values` in ascending order.
pub fn sort_ascending(values: &Vec<i64>) -> (sorted: Vec<i64>)
    ensures
        sorted@ == sorted_sample(values@),
{
    let sorted = sort_range(values, 0, values.len());
    proof {
        assert(values@.subrange(0, values.len() as int) =~= values@);
        lemma_sorted_sample_unique(values@, sorted@);
    }
    sorted
}

} // verus!
