//! Monte Carlo valuation of a European call option in fixed-point arithmetic.
//!
//! Every quantity (a price, a relative return, a payoff) is an integer count of
//! `1 / SCALE` units, so that each result is an exact function of its inputs
//! and every rounding step is stated in a contract.

pub mod error;
pub mod fixed;
pub mod statistics;
pub mod stock;
pub mod random;
pub mod simulation;
pub mod payoff;
pub mod contract;
