//! The option contract that is valued.

use vstd::prelude::*;

verus! {

/// The right that an option gives: to buy the asset, or to sell it.
#[derive(Clone, Copy, Debug, PartialEq, Eq, Structural)]
pub enum OptionType {
    /// The right to buy at the strike price.
    Call,
    /// The right to sell at the strike price.
    Put,
}

/// An option on an asset, by the time that is left to it.
#[derive(Clone, Copy, Debug, PartialEq, Eq, Structural)]
pub struct StockOption {
    /// The number of days until the option expires.
    pub days_till_expiry: u64,
}

impl StockOption {
    /// Returns the number of days until the option expires: the number of
    /// steps that a daily walk to expiry takes.
    pub fn get_ndays_left(&self) -> (r: u64)
        ensures
            r == self.days_till_expiry,
    {
        self.days_till_expiry
    }
}

} // verus!
