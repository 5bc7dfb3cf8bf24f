//! The fair price of a call: the mean payoff over an ensemble of terminal
//! prices.

use vstd::prelude::*;
use crate::error::PricingError;
use crate::simulation::Simulation;

verus! {

/// What a call struck at `strike` pays on a terminal price: the excess of
/// the price over the strike, and nothing where there is none.
pub open spec fn payoff_of(terminal: int, strike: int) -> int {
    if terminal > strike {
        terminal - strike
    } else {
        0
    }
}

/// The sum of the payoffs of a call struck at `strike` over `results`.
pub open spec fn payoff_sum(results: Seq<i64>, strike: int) -> int
    decreases results.len(),
{
    if results.len() == 0 {
        0
    } else {
        payoff_sum(results.drop_last(), strike) + payoff_of(results.last() as int, strike)
    }
}

/// The fair price of a call struck at `strike` over the ensemble `results`:
/// the mean of the payoffs, rounded down and not discounted. An empty
/// ensemble has none.
pub open spec fn fair_price_of(strike: i64, results: Seq<i64>) -> Result<u64, PricingError> {
    if results.len() == 0 {
        Err(PricingError::EmptyEnsemble)
    } else {
        Ok((payoff_sum(results, strike as int) / (results.len() as int)) as u64)
    }
}

/// The payoffs over `results` sum to at most the length of `results` times
/// the largest distance between two raw values, so their mean is an unsigned
/// 64-bit value.
pub proof fn lemma_payoff_sum_bounds(results: Seq<i64>, strike: i64)
    ensures
        0 <= payoff_sum(results, strike as int) <= results.len() * 0xffff_ffff_ffff_ffff,
        results.len() > 0 ==> 0 <= payoff_sum(results, strike as int) / (results.len() as int)
            <= 0xffff_ffff_ffff_ffff,
    decreases results.len(),
{
    if results.len() > 0 {
        lemma_payoff_sum_bounds(results.drop_last(), strike);
        let n = results.len() as int;
        let total = payoff_sum(results, strike as int);
        assert((n - 1) * 0xffff_ffff_ffff_ffff + 0xffff_ffff_ffff_ffff == n * 0xffff_ffff_ffff_ffff)
            by (nonlinear_arith);
        assert(0 <= total / n <= 0xffff_ffff_ffff_ffff) by (nonlinear_arith)
            requires
                n > 0,
                0 <= total <= n * 0xffff_ffff_ffff_ffff,
        ;
    }
}

impl Simulation {
    /// Computes the fair price of a call struck at `strik_price` from the
    /// terminal prices of an ensemble.
    pub fn fair_price(strik_price: i64, simdata: &Vec<i64>) -> (r: Result<u64, PricingError>)
        ensures
            r == fair_price_of(strik_price, simdata@),
            simdata@.len() == 0 <==> r == Err::<u64, PricingError>(PricingError::EmptyEnsemble),
            simdata@.len() > 0 ==> r is Ok && r->Ok_0 == payoff_sum(simdata@, strik_price as int) / (
            simdata@.len() as int),
    {
        let count: usize = simdata.len();
        if count == 0 {
            return Err(PricingError::EmptyEnsemble);
        }
        let mut total: u128 = 0;
        let mut i: usize = 0;
        while i < count
            invariant
                count == simdata@.len(),
                0 <= i <= count,
                total == payoff_sum(simdata@.take(i as int), strik_price as int),
            decreases count - i,
        {
            proof {
                lemma_payoff_sum_bounds(simdata@.take(i as int), strik_price);
                assert(simdata@.take(i + 1).drop_last() =~= simdata@.take(i as int));
                assert(i * 0xffff_ffff_ffff_ffff <= 0xffff_ffff_ffff_ffff * 0xffff_ffff_ffff_ffff)
                    by (nonlinear_arith)
                    requires
                        0 <= i <= 0xffff_ffff_ffff_ffff,
                ;
            }
            let terminal: i64 = simdata[i];
            if terminal > strik_price {
                total = total + (terminal as i128 - strik_price as i128) as u128;
            }
            i = i + 1;
        }
        proof {
            assert(simdata@.take(count as int) =~= simdata@);
            lemma_payoff_sum_bounds(simdata@, strik_price);
        }
        Ok((total / (count as u128)) as u64)
    }
}

} // verus!
