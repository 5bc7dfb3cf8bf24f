//! The volatility model of one asset, calibrated from its daily closing
//! prices.

use vstd::prelude::*;
use crate::error::PricingError;
use crate::fixed::{abs_wide, fits_i64, magnitude, trunc_div, SCALE};
use crate::statistics::{mean, mean_of, std_deviation, std_deviation_of};

verus! {

/// An asset as the simulation sees it: its latest price and the size of its
/// daily moves, all in raw fixed-point units.
#[derive(Clone, Copy, Debug, PartialEq, Eq, Structural)]
pub struct Stock {
    /// The most recent closing price.
    pub current_value: i64,
    /// The mean of the relative day-to-day moves, taken without their sign.
    pub volatility: i64,
    /// The population standard deviation of those moves.
    pub volatility_stdev: u64,
}

/// The size of the move from price `p` to the next price `q`, relative to
/// `p`: the distance between the two, divided by `p` and rounded toward
/// zero. The direction of the move is discarded; `p` is not zero.
pub open spec fn relative_change_of(p: int, q: int) -> int {
    trunc_div(magnitude(p - q) * SCALE, p)
}

/// What the relative move from `p` to `q` comes to: no value for a zero
/// divisor or for a quotient outside the raw range.
pub open spec fn relative_change_outcome(p: i64, q: i64) -> Result<i64, PricingError> {
    if p == 0 {
        Err(PricingError::DegenerateSeries)
    } else if !fits_i64(relative_change_of(p as int, q as int)) {
        Err(PricingError::Overflow)
    } else {
        Ok(relative_change_of(p as int, q as int) as i64)
    }
}

/// Whether some price of `w` other than the last, each of which divides one
/// move, is zero.
pub open spec fn has_zero_divisor(w: Seq<i64>) -> bool {
    exists|i: int| 0 <= i < w.len() - 1 && #[trigger] w[i] == 0
}

/// Whether the relative move of every adjacent pair of `w` is a raw value.
pub open spec fn changes_fit(w: Seq<i64>) -> bool {
    forall|i: int|
        0 <= i < w.len() - 1 ==> fits_i64(relative_change_of(#[trigger] w[i] as int, w[i + 1] as int))
}

/// The relative moves of the adjacent pairs of `w`, oldest pair first.
pub open spec fn changes_of(w: Seq<i64>) -> Seq<i64> {
    if w.len() < 2 {
        Seq::empty()
    } else {
        Seq::new((w.len() - 1) as nat, |i: int| relative_change_of(w[i] as int, w[i + 1] as int) as i64)
    }
}

/// What the relative moves of `w` come to. A zero divisor anywhere in `w`
/// is reported before a move that leaves the raw range.
pub open spec fn changes_outcome(w: Seq<i64>) -> Result<Seq<i64>, PricingError> {
    if has_zero_divisor(w) {
        Err(PricingError::DegenerateSeries)
    } else if !changes_fit(w) {
        Err(PricingError::Overflow)
    } else {
        Ok(changes_of(w))
    }
}

/// The `window` most recent prices of a series ordered oldest first.
pub open spec fn window_of(prices: Seq<i64>, window: int) -> Seq<i64> {
    prices.subrange(prices.len() - window, prices.len() as int)
}

/// The model that a series of closing prices, ordered oldest first, yields
/// over its `window` most recent prices.
pub open spec fn calibration_of(prices: Seq<i64>, window: int) -> Result<Stock, PricingError> {
    if window > prices.len() {
        Err(PricingError::InsufficientHistory)
    } else if window < 2 {
        Err(PricingError::DegenerateSeries)
    } else {
        match changes_outcome(window_of(prices, window)) {
            Err(e) => Err(e),
            Ok(changes) => Ok(
                Stock {
                    current_value: prices.last(),
                    volatility: mean_of(changes) as i64,
                    volatility_stdev: std_deviation_of(changes) as u64,
                },
            ),
        }
    }
}

/// Computes the relative move from price `p` to the next price `q`.
pub fn relative_change(p: i64, q: i64) -> (r: Result<i64, PricingError>)
    ensures
        r == relative_change_outcome(p, q),
{
    if p == 0 {
        return Err(PricingError::DegenerateSeries);
    }
    let distance: u128 = abs_wide(p as i128 - q as i128);
    let divisor: u128 = abs_wide(p as i128);
    let numerator: u128 = distance * (SCALE as u128);
    let quotient: u128 = numerator / divisor;
    assert(quotient <= numerator) by (nonlinear_arith)
        requires
            quotient == numerator / divisor,
            divisor > 0,
    ;
    let change: i128 = if p > 0 {
        quotient as i128
    } else {
        -(quotient as i128)
    };
    if change < i64::MIN as i128 || change > i64::MAX as i128 {
        Err(PricingError::Overflow)
    } else {
        Ok(change as i64)
    }
}

/// Computes the relative moves of the adjacent pairs of `w`, oldest pair
/// first.
pub fn relative_changes(w: &Vec<i64>) -> (r: Result<Vec<i64>, PricingError>)
    ensures
        match r {
            Ok(changes) => changes_outcome(w@) == Ok::<Seq<i64>, PricingError>(changes@),
            Err(e) => changes_outcome(w@) == Err::<Seq<i64>, PricingError>(e),
        },
{
    let mut changes: Vec<i64> = Vec::new();
    if w.len() < 2 {
        assert(changes@ =~= changes_of(w@));
        return Ok(changes);
    }
    let pairs: usize = w.len() - 1;
    let mut k: usize = 0;
    while k < pairs
        invariant
            pairs == w@.len() - 1,
            0 <= k <= pairs,
            forall|i: int| 0 <= i < k ==> #[trigger] w@[i] != 0,
        decreases pairs - k,
    {
        if w[k] == 0 {
            return Err(PricingError::DegenerateSeries);
        }
        k = k + 1;
    }
    let mut i: usize = 0;
    while i < pairs
        invariant
            pairs == w@.len() - 1,
            0 <= i <= pairs,
            !has_zero_divisor(w@),
            changes@.len() == i,
            forall|j: int|
                0 <= j < i ==> fits_i64(relative_change_of(#[trigger] w@[j] as int, w@[j + 1] as int)),
            forall|j: int|
                0 <= j < i ==> changes@[j] == relative_change_of(w@[j] as int, w@[j + 1] as int),
        decreases pairs - i,
    {
        match relative_change(w[i], w[i + 1]) {
            Err(_) => {
                assert(w@[i as int] != 0);
                assert(!fits_i64(relative_change_of(w@[i as int] as int, w@[i + 1] as int)));
                return Err(PricingError::Overflow);
            },
            Ok(change) => {
                changes.push(change);
            },
        }
        i = i + 1;
    }
    assert(changes@ =~= changes_of(w@));
    Ok(changes)
}

impl Stock {
    /// Calibrates the model from closing prices ordered oldest first, over
    /// the `window` most recent of them. The latest price of the whole series
    /// becomes the current value, whatever the window.
    pub fn calibrate(prices: &Vec<i64>, window: usize) -> (r: Result<Stock, PricingError>)
        ensures
            r == calibration_of(prices@, window as int),
    {
        let len: usize = prices.len();
        if window > len {
            return Err(PricingError::InsufficientHistory);
        }
        if window < 2 {
            return Err(PricingError::DegenerateSeries);
        }
        let mut recent: Vec<i64> = Vec::new();
        let mut i: usize = len - window;
        while i < len
            invariant
                len == prices@.len(),
                window <= len,
                len - window <= i <= len,
                recent@ =~= prices@.subrange(len - window, i as int),
            decreases len - i,
        {
            recent.push(prices[i]);
            i = i + 1;
        }
        assert(recent@ =~= window_of(prices@, window as int));
        let changes: Vec<i64> = match relative_changes(&recent) {
            Err(e) => {
                return Err(e);
            },
            Ok(changes) => changes,
        };
        assert(changes@ == changes_of(recent@));
        assert(changes@.len() == window - 1);
        let volatility: i64 = match mean(&changes) {
            None => {
                return Err(PricingError::DegenerateSeries);
            },
            Some(m) => m,
        };
        let volatility_stdev: u64 = match std_deviation(&changes) {
            None => {
                return Err(PricingError::DegenerateSeries);
            },
            Some(s) => s,
        };
        Ok(Stock { current_value: prices[len - 1], volatility, volatility_stdev })
    }
}

/// A series with no zero divisor and no move outside the raw range can be
/// calibrated over every window from two prices up to all of them, the two
/// ends included; a window of more prices than the series holds is reported
/// as insufficient history, whatever the series.
pub proof fn lemma_calibration_window_limits(prices: Seq<i64>, window: int)
    requires
        !has_zero_divisor(prices),
        changes_fit(prices),
    ensures
        2 <= window <= prices.len() ==> calibration_of(prices, window) is Ok,
        window > prices.len() ==> calibration_of(prices, window) == Err::<Stock, PricingError>(
            PricingError::InsufficientHistory,
        ),
{
    if 2 <= window <= prices.len() {
        let w = window_of(prices, window);
        let base = prices.len() - window;
        assert forall|i: int| 0 <= i < w.len() - 1 implies #[trigger] w[i] != 0 by {
            assert(w[i] == prices[base + i]);
        }
        assert forall|i: int| 0 <= i < w.len() - 1 implies fits_i64(
            relative_change_of(#[trigger] w[i] as int, w[i + 1] as int),
        ) by {
            assert(w[i] == prices[base + i]);
            assert(w[i + 1] == prices[base + i + 1]);
        }
    }
}

} // verus!
