//! Reduction of a sample of trial outcomes to summary statistics.

use vstd::prelude::*;
use crate::error::SimulationError;
use crate::sort::{lemma_sorted_sample, sort_ascending, sorted_sample};
use crate::structs::Portfolio;

verus! {

/// The confidence level of the interval, in percent.
pub const CONFIDENCE_LEVEL: u32 = 90;

/// The whole of which `CONFIDENCE_LEVEL` is a part.
pub const PERCENT: u32 = 100;

/// The outcome of one trial.
#[derive(Clone, Copy, Debug, PartialEq, Eq, Structural)]
pub struct OneSimulationResult {
    /// Key of the value of the portfolio at the end of the horizon.
    pub final_value: i64,
}

/// The outcomes of all trials of one run, in the order the trials ran.
#[derive(Debug)]
pub struct SimulationsArray {
    /// One outcome per trial.
    pub simulations: Vec<OneSimulationResult>,
}

impl View for SimulationsArray {
    type V = Seq<i64>;

    /// The keys of the final values of the trials.
    open spec fn view(&self) -> Seq<i64> {
        self.simulations@.map_values(|outcome: OneSimulationResult| outcome.final_value)
    }
}

/// An exact fraction, not reduced.
#[derive(Clone, Copy, Debug, PartialEq, Eq, Structural)]
pub struct Ratio {
    /// How many of the counted things qualify.
    pub numerator: u32,
    /// How many things were counted.
    pub denominator: u32,
}

/// The summary of one run.
#[derive(Clone, Copy, Debug, PartialEq, Eq)]
pub struct MulSimulationResult {
    /// Key of the outcome at the middle of the sorted sample.
    pub median_value: i64,
    /// The share of trials whose outcome reached the goal.
    pub goal_probability: Ratio,
    /// Keys of the outcomes that bracket the central part of the sorted
    /// sample, lower bound first.
    pub confidence_interval: (i64, i64),
    /// The share of the sample the interval is meant to cover, in percent.
    pub confidence_level: u32,
}

impl MulSimulationResult {
    /// What holds of every summary of a sample: the probability is a
    /// fraction of a positive number of trials, the interval encloses the
    /// median, and the level is the fixed one.
    pub open spec fn well_formed(&self) -> bool {
        &&& 0 < self.goal_probability.denominator
        &&& self.goal_probability.numerator <= self.goal_probability.denominator
        &&& self.confidence_interval.0 <= self.median_value <= self.confidence_interval.1
        &&& self.confidence_level == CONFIDENCE_LEVEL
    }
}

/// Where the median sits in a sorted sample of `n` outcomes: the upper of
/// the two middle positions when `n` is even.
pub open spec fn median_index(n: int) -> int {
    n / 2
}

/// Where the lower bound of the interval sits in a sorted sample of `n`
/// outcomes: `n` times half of what the confidence level leaves out, rounded
/// down.
pub open spec fn lower_index(n: int) -> int {
    (n * (PERCENT - CONFIDENCE_LEVEL)) / (2 * PERCENT)
}

/// Where the upper bound of the interval sits in a sorted sample of `n`
/// outcomes: `n` times the confidence level plus half of what it leaves out,
/// rounded down.
pub open spec fn upper_index(n: int) -> int {
    (n * (PERCENT + CONFIDENCE_LEVEL)) / (2 * PERCENT)
}

/// The number of outcomes in `sample` that are at least `goal`.
pub open spec fn goal_count(sample: Seq<i64>, goal: i64) -> nat
    decreases sample.len(),
{
    if sample.len() == 0 {
        0
    } else {
        goal_count(sample.drop_last(), goal) + if sample.last() >= goal {
            1nat
        } else {
            0nat
        }
    }
}

/// A sample of `n` outcomes can be reduced for a run of `trials` trials: it
/// is not empty, holds one outcome per trial, and both interval positions
/// fall inside it.
pub open spec fn sample_accepted(n: int, trials: int) -> bool {
    &&& n > 0
    &&& n == trials
    &&& lower_index(n) < n
    &&& upper_index(n) < n
}

/// The median of `sample`.
pub open spec fn median_of(sample: Seq<i64>) -> i64 {
    sorted_sample(sample)[median_index(sample.len() as int)]
}

/// The bounds of the confidence interval of `sample`, lower bound first.
pub open spec fn interval_of(sample: Seq<i64>) -> (i64, i64) {
    (
        sorted_sample(sample)[lower_index(sample.len() as int)],
        sorted_sample(sample)[upper_index(sample.len() as int)],
    )
}

/// The summary of `sample` against `goal`.
pub open spec fn statistics_of(sample: Seq<i64>, goal: i64) -> MulSimulationResult {
    MulSimulationResult {
        median_value: median_of(sample),
        goal_probability: Ratio {
            numerator: goal_count(sample, goal) as u32,
            denominator: sample.len() as u32,
        },
        confidence_interval: interval_of(sample),
        confidence_level: CONFIDENCE_LEVEL,
    }
}

/// What reducing `sample` under `portfolio` yields.
pub open spec fn statistics_result(sample: Seq<i64>, portfolio: Portfolio) -> Result<
    MulSimulationResult,
    SimulationError,
> {
    if sample_accepted(sample.len() as int, portfolio.num_simulations as int) {
        Ok(statistics_of(sample, portfolio.goal))
    } else {
        Err(SimulationError::InvalidConfig)
    }
}

/// In a sample that is not empty the three positions are ordered and fall
/// inside the sample.
pub proof fn lemma_indices_in_range(n: int)
    requires
        n > 0,
    ensures
        0 <= lower_index(n) <= median_index(n) <= upper_index(n) < n,
{
    assert(lower_index(n) == (n * 10) / 200);
    assert(upper_index(n) == (n * 190) / 200);
}

/// A sample is accepted exactly when it is not empty and holds one outcome
/// per trial: at the fixed confidence level the interval positions then
/// always fall inside it.
pub proof fn lemma_sample_accepted(n: int, trials: int)
    ensures
        sample_accepted(n, trials) <==> n > 0 && n == trials,
{
    if n > 0 {
        lemma_indices_in_range(n);
    }
}

/// The goal count never exceeds the sample size, so the goal probability
/// lies between zero and one. It is the whole sample when no outcome is
/// below the goal, and nothing when every outcome is below it.
pub proof fn lemma_goal_count_bounds(sample: Seq<i64>, goal: i64)
    ensures
        goal_count(sample, goal) <= sample.len(),
        (forall|i: int| 0 <= i < sample.len() ==> sample[i] >= goal) ==> goal_count(sample, goal)
            == sample.len(),
        (forall|i: int| 0 <= i < sample.len() ==> sample[i] < goal) ==> goal_count(sample, goal)
            == 0,
    decreases sample.len(),
{
    if sample.len() > 0 {
        lemma_goal_count_bounds(sample.drop_last(), goal);
        assert(forall|i: int|
            0 <= i < sample.drop_last().len() ==> sample.drop_last()[i] == sample[i]);
        assert(sample.last() == sample[sample.len() - 1]);
    }
}

/// Every position of the sorted sample holds an outcome of the sample, and
/// no outcome of the sample is missing from the sorted sample.
pub proof fn lemma_sorted_holds_sample(sample: Seq<i64>)
    ensures
        forall|k: int|
            0 <= k < sample.len() ==> sample.contains(#[trigger] sorted_sample(sample)[k]),
        forall|i: int|
            0 <= i < sample.len() ==> sorted_sample(sample).contains(#[trigger] sample[i]),
{
    lemma_sorted_sample(sample);
    let sorted = sorted_sample(sample);
    sample.to_multiset_ensures();
    sorted.to_multiset_ensures();
    assert forall|k: int| 0 <= k < sample.len() implies sample.contains(#[trigger] sorted[k]) by {
        assert(sorted.contains(sorted[k]));
        assert(sorted.to_multiset().count(sorted[k]) > 0);
        assert(sample.to_multiset().count(sorted[k]) > 0);
    }
    assert forall|i: int| 0 <= i < sample.len() implies sorted.contains(#[trigger] sample[i]) by {
        assert(sample.contains(sample[i]));
        assert(sample.to_multiset().count(sample[i]) > 0);
        assert(sorted.to_multiset().count(sample[i]) > 0);
    }
}

/// `value` is an outcome of `sample` that no outcome is below.
pub open spec fn is_minimum_of(sample: Seq<i64>, value: i64) -> bool {
    &&& sample.contains(value)
    &&& forall|i: int| 0 <= i < sample.len() ==> value <= sample[i]
}

/// `value` is an outcome of `sample` that no outcome is above.
pub open spec fn is_maximum_of(sample: Seq<i64>, value: i64) -> bool {
    &&& sample.contains(value)
    &&& forall|i: int| 0 <= i < sample.len() ==> sample[i] <= value
}

/// The median of a sample that is not empty is one of its outcomes, never a
/// value in between two of them, and lies between the smallest and the
/// largest outcome.
pub proof fn lemma_median_in_sample(sample: Seq<i64>, smallest: i64, largest: i64)
    requires
        sample.len() > 0,
        is_minimum_of(sample, smallest),
        is_maximum_of(sample, largest),
    ensures
        sample.contains(median_of(sample)),
        smallest <= median_of(sample) <= largest,
{
    lemma_indices_in_range(sample.len() as int);
    lemma_sorted_holds_sample(sample);
    let median = sorted_sample(sample)[median_index(sample.len() as int)];
    assert(sample.contains(median));
    let i = choose|i: int| 0 <= i < sample.len() && sample[i] == median;
    assert(smallest <= sample[i] <= largest);
}

/// In a sample that is not empty the interval encloses the median, and both
/// of its bounds are outcomes of the sample.
pub proof fn lemma_interval_encloses_median(sample: Seq<i64>)
    requires
        sample.len() > 0,
    ensures
        interval_of(sample).0 <= median_of(sample) <= interval_of(sample).1,
        sample.contains(interval_of(sample).0),
        sample.contains(interval_of(sample).1),
{
    let n = sample.len() as int;
    lemma_indices_in_range(n);
    lemma_sorted_sample(sample);
    lemma_sorted_holds_sample(sample);
    let sorted = sorted_sample(sample);
    assert(sorted[lower_index(n)] <= sorted[median_index(n)]);
    assert(sorted[median_index(n)] <= sorted[upper_index(n)]);
    assert(sample.contains(sorted[lower_index(n)]));
    assert(sample.contains(sorted[upper_index(n)]));
}

/// When every trial ends at the same value, that value is the median and
/// both bounds of the interval.
pub proof fn lemma_constant_sample(sample: Seq<i64>, value: i64)
    requires
        sample.len() > 0,
        forall|i: int| 0 <= i < sample.len() ==> sample[i] == value,
    ensures
        median_of(sample) == value,
        interval_of(sample) == (value, value),
{
    let n = sample.len() as int;
    lemma_indices_in_range(n);
    lemma_sorted_holds_sample(sample);
    let sorted = sorted_sample(sample);
    assert forall|k: int| 0 <= k < n implies #[trigger] sorted[k] == value by {
        assert(sample.contains(sorted[k]));
        let i = choose|i: int| 0 <= i < sample.len() && sample[i] == sorted[k];
        assert(sample[i] == value);
    }
}

/// Reduces the sample to its median, the share of outcomes that reached the
/// goal, and the interval at the fixed confidence level.
///
/// Fails with `InvalidConfig` exactly when the sample is empty or does not
/// hold one outcome per configured trial.
pub fn calculate_statistics(simulations: &SimulationsArray, portfolio: &Portfolio) -> (r: Result<
    MulSimulationResult,
    SimulationError,
>)
    ensures
        r == statistics_result(simulations@, *portfolio),
        r.is_ok() <==> simulations@.len() > 0 && simulations@.len() == portfolio.num_simulations,
        r matches Ok(summary) ==> {
            &&& summary.goal_probability.numerator == goal_count(simulations@, portfolio.goal)
            &&& summary.goal_probability.denominator == simulations@.len()
            &&& summary.well_formed()
        },
{
    let n: usize = simulations.simulations.len();
    proof {
        lemma_sample_accepted(n as int, portfolio.num_simulations as int);
    }
    if n == 0 || n != portfolio.num_simulations as usize {
        return Err(SimulationError::InvalidConfig);
    }
    let lower: usize = ((n as u64 * (PERCENT - CONFIDENCE_LEVEL) as u64) / (2 * PERCENT as u64))
        as usize;
    let upper: usize = ((n as u64 * (PERCENT + CONFIDENCE_LEVEL) as u64) / (2 * PERCENT as u64))
        as usize;
    if lower >= n || upper >= n {
        return Err(SimulationError::InvalidConfig);
    }
    let mut final_values: Vec<i64> = Vec::with_capacity(n);
    let mut reached: u32 = 0;
    let mut i: usize = 0;
    assert(simulations@.take(0) =~= Seq::<i64>::empty());
    while i < n
        invariant
            0 <= i <= n,
            n == simulations.simulations.len(),
            n <= u32::MAX,
            final_values@ == simulations@.take(i as int),
            reached == goal_count(simulations@.take(i as int), portfolio.goal),
            reached <= i,
        decreases n - i,
    {
        let value = simulations.simulations[i].final_value;
        proof {
            let longer = simulations@.take(i + 1);
            assert(longer.drop_last() =~= simulations@.take(i as int));
            assert(longer.last() == value);
        }
        final_values.push(value);
        if value >= portfolio.goal {
            reached = reached + 1;
        }
        i = i + 1;
    }
    assert(simulations@.take(n as int) =~= simulations@);
    let sorted = sort_ascending(&final_values);
    proof {
        lemma_sorted_sample(simulations@);
        lemma_interval_encloses_median(simulations@);
    }
    Ok(
        MulSimulationResult {
            median_value: sorted[n / 2],
            goal_probability: Ratio { numerator: reached, denominator: n as u32 },
            confidence_interval: (sorted[lower], sorted[upper]),
            confidence_level: CONFIDENCE_LEVEL,
        },
    )
}

} // verus!
