//! The failures that a valuation can report.

use vstd::prelude::*;

verus! {

/// Why a valuation step could not produce a value.
#[derive(Clone, Copy, Debug, PartialEq, Eq, Structural)]
pub enum PricingError {
    /// The calibration window asks for more closing prices than the series holds.
    InsufficientHistory,
    /// The window yields no adjacent pair, or a pair whose divisor price is zero.
    DegenerateSeries,
    /// The return deviation of the model is not strictly positive.
    InvalidDistributionParameters,
    /// The ensemble of terminal prices is empty.
    EmptyEnsemble,
    /// A value left the range of the fixed-point representation.
    Overflow,
}

} // verus!
