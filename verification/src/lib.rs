//! Summary statistics of a Monte Carlo portfolio projection.
//!
//! The statistics of a run only order, select and count outcomes: the median
//! and the bounds of the confidence interval are outcomes of the sample, and
//! the goal probability is a count over the sample size. No arithmetic is
//! done on a value.
//!
//! Real quantities therefore cross into this library as order keys: signed
//! integers that stand for them, with the same order and the same sign as the
//! quantities, and zero for zero. Whoever holds the real values turns them
//! into keys before a call and turns the keys that come back into values
//! again; nothing is rounded on the way as long as different values get
//! different keys.

pub mod error;
pub mod key;
pub mod structs;
pub mod sampler;
pub mod sort;
pub mod statistics;
pub mod order;
