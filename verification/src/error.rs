//! The failures a run can report.

use vstd::prelude::*;

verus! {

/// Why a run could not produce a summary.
#[derive(Clone, Copy, Debug, PartialEq, Eq, Structural)]
pub enum SimulationError {
    /// The volatility handed to the return sampler is negative.
    InvalidParameter,
    /// The trial count is zero, the sample does not hold one outcome per
    /// trial, or a percentile index falls outside the sample.
    InvalidConfig,
}

} // verus!
