//! The statistics depend on the order of the outcomes alone.
//!
//! Whatever keys stand for the outcomes, as long as they keep the order, the
//! summary of the keys is made of the keys of the summary. So a summary
//! computed here can be read back as the summary of the values themselves.

use vstd::prelude::*;
use crate::sort::{ascending, lemma_sorted_sample, lemma_sorted_sample_unique, sorted_sample};
use crate::statistics::{
    goal_count, interval_of, lemma_indices_in_range, lower_index, median_index, median_of,
    upper_index,
};

verus! {

/// `rekey` keeps the order: it puts two keys in the order that they are in.
pub open spec fn order_preserving(rekey: spec_fn(i64) -> i64) -> bool {
    forall|a: i64, b: i64| a <= b <==> #[trigger] rekey(a) <= #[trigger] rekey(b)
}

/// Two sequences with the same elements still have the same elements after
/// both are mapped.
proof fn lemma_mapped_elements(a: Seq<i64>, b: Seq<i64>, rekey: spec_fn(i64) -> i64)
    requires
        a.to_multiset() == b.to_multiset(),
    ensures
        a.map_values(rekey).to_multiset() == b.map_values(rekey).to_multiset(),
    decreases a.len(),
{
    broadcast use vstd::seq_lib::group_to_multiset_ensures;
    broadcast use vstd::multiset::group_multiset_axioms;

    let mapped_a = a.map_values(rekey);
    let mapped_b = b.map_values(rekey);
    assert(a.len() == b.len()) by {
        a.to_multiset_ensures();
        b.to_multiset_ensures();
    }
    if a.len() == 0 {
        assert(mapped_a =~= mapped_b);
    } else {
        let last = a.len() - 1;
        let x = a[last];
        assert(a.contains(x));
        assert(b.to_multiset().count(x) > 0) by {
            a.to_multiset_ensures();
        }
        assert(b.contains(x)) by {
            b.to_multiset_ensures();
        }
        let i = choose|i: int| 0 <= i < b.len() && b[i] == x;
        let rest_a = a.remove(last);
        let rest_b = b.remove(i);
        assert(rest_a.to_multiset() == a.to_multiset().remove(x));
        assert(rest_b.to_multiset() == b.to_multiset().remove(x));
        lemma_mapped_elements(rest_a, rest_b, rekey);
        assert(mapped_a.remove(last) =~= rest_a.map_values(rekey));
        assert(mapped_b.remove(i) =~= rest_b.map_values(rekey));
        let y = rekey(x);
        assert(mapped_a[last] == y);
        assert(mapped_b[i] == y);
        assert(mapped_a.remove(last).to_multiset() == mapped_a.to_multiset().remove(y));
        assert(mapped_b.remove(i).to_multiset() == mapped_b.to_multiset().remove(y));
        assert(mapped_a.contains(y));
        assert(mapped_b.contains(y));
        assert(mapped_a.to_multiset().count(y) > 0) by {
            mapped_a.to_multiset_ensures();
        }
        assert(mapped_b.to_multiset().count(y) > 0) by {
            mapped_b.to_multiset_ensures();
        }
        assert(mapped_a.to_multiset() =~= mapped_a.to_multiset().remove(y).insert(y));
        assert(mapped_b.to_multiset() =~= mapped_b.to_multiset().remove(y).insert(y));
    }
}

/// Sorting the mapped sample gives the sorted sample, mapped.
pub proof fn lemma_sorting_follows_order(sample: Seq<i64>, rekey: spec_fn(i64) -> i64)
    requires
        order_preserving(rekey),
    ensures
        sorted_sample(sample.map_values(rekey)) == sorted_sample(sample).map_values(rekey),
{
    lemma_sorted_sample(sample);
    let sorted = sorted_sample(sample);
    let mapped = sorted.map_values(rekey);
    assert forall|i: int, j: int| 0 <= i <= j < mapped.len() implies mapped[i] <= mapped[j] by {
        assert(sorted[i] <= sorted[j]);
        assert(rekey(sorted[i]) <= rekey(sorted[j]));
    }
    assert(ascending(mapped));
    lemma_mapped_elements(sorted, sample, rekey);
    lemma_sorted_sample_unique(sample.map_values(rekey), mapped);
}

/// As many mapped outcomes reach the mapped goal as outcomes reach the goal.
pub proof fn lemma_goal_count_follows_order(
    sample: Seq<i64>,
    goal: i64,
    rekey: spec_fn(i64) -> i64,
)
    requires
        order_preserving(rekey),
    ensures
        goal_count(sample.map_values(rekey), rekey(goal)) == goal_count(sample, goal),
    decreases sample.len(),
{
    let mapped = sample.map_values(rekey);
    if sample.len() > 0 {
        lemma_goal_count_follows_order(sample.drop_last(), goal, rekey);
        assert(mapped.drop_last() =~= sample.drop_last().map_values(rekey));
        assert(mapped.last() == rekey(sample.last()));
        assert(sample.last() >= goal <==> rekey(sample.last()) >= rekey(goal));
    }
}

/// The summary of a sample under other keys of the same order is the same
/// summary under those keys: the median and the bounds of the interval are
/// the same outcomes, and the same number of outcomes reach the goal.
pub proof fn lemma_statistics_follow_order(sample: Seq<i64>, goal: i64, rekey: spec_fn(i64) -> i64)
    requires
        order_preserving(rekey),
        sample.len() > 0,
    ensures
        median_of(sample.map_values(rekey)) == rekey(median_of(sample)),
        interval_of(sample.map_values(rekey)) == (
            rekey(interval_of(sample).0),
            rekey(interval_of(sample).1),
        ),
        goal_count(sample.map_values(rekey), rekey(goal)) == goal_count(sample, goal),
{
    let n = sample.len() as int;
    lemma_indices_in_range(n);
    lemma_sorted_sample(sample);
    lemma_sorting_follows_order(sample, rekey);
    lemma_goal_count_follows_order(sample, goal, rekey);
    let sorted = sorted_sample(sample);
    assert(sorted.map_values(rekey)[median_index(n)] == rekey(sorted[median_index(n)]));
    assert(sorted.map_values(rekey)[lower_index(n)] == rekey(sorted[lower_index(n)]));
    assert(sorted.map_values(rekey)[upper_index(n)] == rekey(sorted[upper_index(n)]));
}

} // verus!
