//! The configuration of a projection.

use vstd::prelude::*;

verus! {

/// What is projected and how. Every real quantity is held as its order key.
#[derive(Clone, Copy, Debug, PartialEq, Eq, Structural)]
pub struct Portfolio {
    /// Key of the amount invested at the start.
    pub initial_investment: i64,
    /// Key of the expected annual return rate.
    pub expected_yearly_return: i64,
    /// Key of the amount added each month; negative for withdrawals.
    pub monthly_contributions: i64,
    /// Key of the standard deviation of the annual return: negative exactly
    /// when the deviation is.
    pub volatility: i64,
    /// The number of years to simulate.
    pub years: u32,
    /// Key of the value the portfolio should reach by the end.
    pub goal: i64,
    /// The number of independent trials to run.
    pub num_simulations: u32,
}

} // verus!
