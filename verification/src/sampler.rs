//! The condition under which a yearly return can be drawn.

use vstd::prelude::*;
use crate::error::SimulationError;

verus! {

/// A normal distribution with this standard deviation can be sampled: the
/// deviation is not negative.
pub open spec fn volatility_accepted(volatility: i64) -> bool {
    volatility >= 0
}

/// Decides whether a yearly return may be drawn at the volatility with the
/// given key. To be called before every draw, so that a run that draws
/// nothing never fails on its volatility.
///
/// Fails with `InvalidParameter` exactly when the volatility is negative.
pub fn check_volatility(volatility: i64) -> (r: Result<(), SimulationError>)
    ensures
        volatility_accepted(volatility) ==> r == Ok::<(), SimulationError>(()),
        !volatility_accepted(volatility) ==> r == Err::<(), SimulationError>(
            SimulationError::InvalidParameter,
        ),
{
    if volatility < 0 {
        Err(SimulationError::InvalidParameter)
    } else {
        Ok(())
    }
}

} // verus!
