//! The random walk of a price, one trial at a time and over a whole ensemble
//! of independent trials.

use vstd::prelude::*;
use rand::rngs::ThreadRng;
use rayon::iter::{IntoParallelRefIterator, ParallelIterator};
use crate::error::PricingError;
use crate::fixed::{fits_i64, lemma_scaled_product_bounds, mul_scaled, scaled_product};
use crate::random::draw_direction;
use crate::stock::Stock;

verus! {

/// One step's draw: the direction of the move and its relative size, a raw
/// value drawn from the normal distribution of the model.
#[derive(Clone, Copy, Debug, PartialEq, Eq, Structural)]
pub struct Shock {
    /// Whether the price moves up.
    pub up: bool,
    /// The relative size of the move; a negative size reverses the direction.
    pub magnitude: i64,
}

/// The amount that `shock` adds to a price that stands at `value`: the
/// value times the size of the shock, rounded toward zero, with the sign of
/// the direction.
pub open spec fn shock_amount(value: int, shock: Shock) -> int {
    if shock.up {
        scaled_product(value, shock.magnitude as int)
    } else {
        -scaled_product(value, shock.magnitude as int)
    }
}

/// The price after one step from `value`. The shock is scaled by the price
/// before the step.
pub open spec fn step_of(value: int, shock: Shock) -> int {
    value + shock_amount(value, shock)
}

/// What one step from `value` comes to: the next price, or an overflow where
/// that price is no raw value.
pub open spec fn step_outcome(value: i64, shock: Shock) -> Result<i64, PricingError> {
    if fits_i64(step_of(value as int, shock)) {
        Ok(step_of(value as int, shock) as i64)
    } else {
        Err(PricingError::Overflow)
    }
}

/// What a walk from `start` through `shocks`, first shock first, comes to:
/// the terminal price, or an overflow as soon as one step leaves the raw
/// range.
pub open spec fn path_outcome(start: i64, shocks: Seq<Shock>) -> Result<i64, PricingError>
    decreases shocks.len(),
{
    if shocks.len() == 0 {
        Ok(start)
    } else {
        match path_outcome(start, shocks.drop_last()) {
            Err(e) => Err(e),
            Ok(value) => step_outcome(value, shocks.last()),
        }
    }
}

/// The shocks that pair each size of `magnitudes` with the direction of the
/// same step in `ups`.
pub open spec fn shocks_of(ups: Seq<bool>, magnitudes: Seq<i64>) -> Seq<Shock> {
    Seq::new(magnitudes.len(), |i: int| Shock { up: ups[i], magnitude: magnitudes[i] })
}

/// Whether `r` is what a walk from `start` comes to for some choice of one
/// direction per step, the sizes of the steps being `magnitudes`.
pub open spec fn possible_trial(start: i64, magnitudes: Seq<i64>, r: Result<i64, PricingError>) -> bool {
    exists|ups: Seq<bool>|
        ups.len() == magnitudes.len() && r == path_outcome(start, #[trigger] shocks_of(ups, magnitudes))
}

/// Whether `r` is what an ensemble of walks from `start` may come to, one
/// walk for each row of step sizes: either every walk ends in a raw value and
/// `r` holds these terminal prices in the order of the rows, or some walk may
/// overflow and `r` is that overflow.
pub open spec fn possible_ensemble(
    start: i64,
    magnitudes: Seq<Vec<i64>>,
    r: Result<Seq<i64>, PricingError>,
) -> bool {
    match r {
        Ok(values) => values.len() == magnitudes.len() && forall|i: int|
            0 <= i < values.len() ==> possible_trial(
                start,
                magnitudes[i]@,
                Ok::<i64, PricingError>(#[trigger] values[i]),
            ),
        Err(e) => e == PricingError::Overflow && exists|i: int|
            0 <= i < magnitudes.len() && possible_trial(
                start,
                (#[trigger] magnitudes[i])@,
                Err::<i64, PricingError>(PricingError::Overflow),
            ),
    }
}

/// The result of an ensemble with its terminal prices as a sequence.
pub open spec fn ensemble_view(r: Result<Vec<i64>, PricingError>) -> Result<Seq<i64>, PricingError> {
    match r {
        Ok(values) => Ok(values@),
        Err(e) => Err(e),
    }
}

/// A walk fails with an overflow and with nothing else.
pub proof fn lemma_path_fails_by_overflow(start: i64, shocks: Seq<Shock>)
    ensures
        path_outcome(start, shocks) is Err ==> path_outcome(start, shocks) == Err::<
            i64,
            PricingError,
        >(PricingError::Overflow),
    decreases shocks.len(),
{
    if shocks.len() > 0 {
        lemma_path_fails_by_overflow(start, shocks.drop_last());
    }
}

/// Once a prefix of a walk has overflowed, the whole walk has.
pub proof fn lemma_path_failure_stays(start: i64, shocks: Seq<Shock>, k: int)
    requires
        0 <= k <= shocks.len(),
        path_outcome(start, shocks.take(k)) is Err,
    ensures
        path_outcome(start, shocks) == path_outcome(start, shocks.take(k)),
    decreases shocks.len() - k,
{
    if k == shocks.len() {
        assert(shocks.take(k) =~= shocks);
    } else {
        assert(shocks.take(k + 1).drop_last() =~= shocks.take(k));
        lemma_path_failure_stays(start, shocks, k + 1);
    }
}

/// A trial of no steps ends where it started, whatever is drawn.
pub proof fn lemma_no_steps_keep_start(start: i64, magnitudes: Seq<i64>, r: Result<i64, PricingError>)
    requires
        magnitudes.len() == 0,
        possible_trial(start, magnitudes, r),
    ensures
        r == Ok::<i64, PricingError>(start),
{
}

/// An ensemble whose trials all have no steps holds one copy of the starting
/// price for each trial, and an ensemble of no trials is empty.
pub proof fn lemma_ensemble_without_steps(
    start: i64,
    magnitudes: Seq<Vec<i64>>,
    r: Result<Seq<i64>, PricingError>,
)
    requires
        forall|i: int| 0 <= i < magnitudes.len() ==> (#[trigger] magnitudes[i])@.len() == 0,
        possible_ensemble(start, magnitudes, r),
    ensures
        r == Ok::<Seq<i64>, PricingError>(Seq::new(magnitudes.len(), |i: int| start)),
{
    match r {
        Ok(values) => {
            assert forall|i: int| 0 <= i < values.len() implies values[i] == start by {
                lemma_no_steps_keep_start(start, magnitudes[i]@, Ok(values[i]));
            }
            assert(values =~= Seq::new(magnitudes.len(), |i: int| start));
        },
        Err(_) => {
            let i = choose|i: int|
                0 <= i < magnitudes.len() && possible_trial(
                    start,
                    (#[trigger] magnitudes[i])@,
                    Err::<i64, PricingError>(PricingError::Overflow),
                );
            lemma_no_steps_keep_start(start, magnitudes[i]@, Err(PricingError::Overflow));
        },
    }
}

/// A simulator of one asset. Its model has a strictly positive return
/// deviation, as the normal distribution of the step sizes needs.
#[derive(Clone, Copy, Debug)]
pub struct Simulation {
    asset: Stock,
}

impl Simulation {
    #[verifier::type_invariant]
    spec fn positive_deviation(self) -> bool {
        self.asset.volatility_stdev > 0
    }

    /// The model that the simulator was made from.
    pub closed spec fn model(&self) -> Stock {
        self.asset
    }

    /// Makes a simulator of `asset`. A model whose return deviation is not
    /// strictly positive is refused.
    pub fn new(asset: Stock) -> (r: Result<Simulation, PricingError>)
        ensures
            match r {
                Ok(sim) => asset.volatility_stdev > 0 && sim.model() == asset,
                Err(e) => asset.volatility_stdev == 0 && e
                    == PricingError::InvalidDistributionParameters,
            },
    {
        if asset.volatility_stdev == 0 {
            Err(PricingError::InvalidDistributionParameters)
        } else {
            Ok(Simulation { asset })
        }
    }

    /// Returns the model of the simulator.
    pub fn asset(&self) -> (r: Stock)
        ensures
            r == self.model(),
            r.volatility_stdev > 0,
    {
        proof {
            use_type_invariant(self);
        }
        self.asset
    }

    /// Computes the amount that `shock` adds to a price standing at
    /// `startval`.
    pub fn get_shock(&self, startval: i64, shock: Shock) -> (r: i128)
        ensures
            r == shock_amount(startval as int, shock),
    {
        let scaled: i128 = mul_scaled(startval, shock.magnitude);
        assert(-0x4000_0000_0000_0000_0000_0000_0000_0000 <= scaled
            <= 0x4000_0000_0000_0000_0000_0000_0000_0000) by {
            lemma_scaled_product_bounds(startval, shock.magnitude);
        }
        if shock.up {
            scaled
        } else {
            -scaled
        }
    }

    /// Takes one step of the walk from `startval`.
    pub fn simulate_step(&self, startval: i64, shock: Shock) -> (r: Result<i64, PricingError>)
        ensures
            r == step_outcome(startval, shock),
    {
        let amount: i128 = self.get_shock(startval, shock);
        assert(-0x4000_0000_0000_0000_0000_0000_0000_0000 <= amount
            <= 0x4000_0000_0000_0000_0000_0000_0000_0000) by {
            lemma_scaled_product_bounds(startval, shock.magnitude);
        }
        let next: i128 = startval as i128 + amount;
        if next < i64::MIN as i128 || next > i64::MAX as i128 {
            Err(PricingError::Overflow)
        } else {
            Ok(next as i64)
        }
    }

    /// Walks from `startval` through the given shocks, first shock first, and
    /// returns the terminal price.
    pub fn simulate_path(&self, startval: i64, shocks: &Vec<Shock>) -> (r: Result<i64, PricingError>)
        ensures
            r == path_outcome(startval, shocks@),
    {
        let mut value: i64 = startval;
        let mut i: usize = 0;
        while i < shocks.len()
            invariant
                0 <= i <= shocks@.len(),
                path_outcome(startval, shocks@.take(i as int)) == Ok::<i64, PricingError>(value),
            decreases shocks@.len() - i,
        {
            assert(shocks@.take(i + 1).drop_last() =~= shocks@.take(i as int));
            match self.simulate_step(value, shocks[i]) {
                Err(e) => {
                    proof {
                        lemma_path_failure_stays(startval, shocks@, i + 1);
                    }
                    return Err(e);
                },
                Ok(next) => {
                    value = next;
                },
            }
            i = i + 1;
        }
        assert(shocks@.take(shocks@.len() as int) =~= shocks@);
        Ok(value)
    }

    /// Runs one trial from `startval`: a walk of one step for each size in
    /// `magnitudes`, each with a direction drawn anew from the generator of
    /// the running thread. No direction is drawn for a trial of no steps.
    pub fn simulate_multi_step(&self, startval: i64, magnitudes: &Vec<i64>) -> (r: Result<
        i64,
        PricingError,
    >)
        ensures
            possible_trial(startval, magnitudes@, r),
            magnitudes@.len() == 0 ==> r == Ok::<i64, PricingError>(startval),
    {
        let mut shocks: Vec<Shock> = Vec::new();
        if magnitudes.len() > 0 {
            let mut rng: ThreadRng = rand::thread_rng();
            let mut i: usize = 0;
            while i < magnitudes.len()
                invariant
                    0 <= i <= magnitudes@.len(),
                    shocks@.len() == i,
                    forall|j: int| 0 <= j < i ==> (#[trigger] shocks@[j]).magnitude == magnitudes@[j],
                decreases magnitudes@.len() - i,
            {
                let up: bool = draw_direction(&mut rng);
                shocks.push(Shock { up, magnitude: magnitudes[i] });
                i = i + 1;
            }
        }
        let r = self.simulate_path(startval, &shocks);
        proof {
            let ups = Seq::new(shocks@.len(), |j: int| shocks@[j].up);
            assert(shocks_of(ups, magnitudes@) =~= shocks@);
        }
        r
    }

    /// Runs one trial from `startval` for each row of `magnitudes`, one after
    /// the other, and returns the terminal prices in the order of the rows.
    /// The ensemble fails as a whole when one of its trials overflows.
    pub fn simulate_multi_run(&self, startval: i64, magnitudes: &Vec<Vec<i64>>) -> (r: Result<
        Vec<i64>,
        PricingError,
    >)
        ensures
            possible_ensemble(startval, magnitudes@, ensemble_view(r)),
            (forall|i: int| 0 <= i < magnitudes@.len() ==> (#[trigger] magnitudes@[i])@.len() == 0)
                ==> ensemble_view(r) == Ok::<Seq<i64>, PricingError>(
                Seq::new(magnitudes@.len(), |i: int| startval),
            ),
            magnitudes@.len() == 0 ==> ensemble_view(r) == Ok::<Seq<i64>, PricingError>(Seq::empty()),
    {
        let mut outcomes: Vec<Result<i64, PricingError>> = Vec::new();
        let mut i: usize = 0;
        while i < magnitudes.len()
            invariant
                0 <= i <= magnitudes@.len(),
                outcomes@.len() == i,
                forall|j: int|
                    0 <= j < i ==> possible_trial(startval, magnitudes@[j]@, #[trigger] outcomes@[j]),
            decreases magnitudes@.len() - i,
        {
            let outcome = self.simulate_multi_step(startval, &magnitudes[i]);
            outcomes.push(outcome);
            i = i + 1;
        }
        let r = gather(startval, magnitudes, outcomes);
        proof {
            if forall|i: int| 0 <= i < magnitudes@.len() ==> (#[trigger] magnitudes@[i])@.len() == 0 {
                lemma_ensemble_without_steps(startval, magnitudes@, ensemble_view(r));
            }
            if magnitudes@.len() == 0 {
                assert(ensemble_view(r)->Ok_0 =~= Seq::<i64>::empty());
            }
        }
        r
    }

    /// Runs one trial from the current value of the model for each row of
    /// `magnitudes`, the trials spread over the worker threads, and returns
    /// the terminal prices in the order of the rows. The call returns when
    /// every trial has ended; the ensemble fails as a whole when one of its
    /// trials overflows.
    pub fn rayon_multi_run(&self, magnitudes: &Vec<Vec<i64>>) -> (r: Result<Vec<i64>, PricingError>)
        ensures
            possible_ensemble(self.model().current_value, magnitudes@, ensemble_view(r)),
            (forall|i: int| 0 <= i < magnitudes@.len() ==> (#[trigger] magnitudes@[i])@.len() == 0)
                ==> ensemble_view(r) == Ok::<Seq<i64>, PricingError>(
                Seq::new(magnitudes@.len(), |i: int| self.model().current_value),
            ),
            magnitudes@.len() == 0 ==> ensemble_view(r) == Ok::<Seq<i64>, PricingError>(Seq::empty()),
    {
        let startval: i64 = self.asset.current_value;
        let outcomes = run_trials(self, startval, magnitudes);
        let r = gather(startval, magnitudes, outcomes);
        proof {
            if forall|i: int| 0 <= i < magnitudes@.len() ==> (#[trigger] magnitudes@[i])@.len() == 0 {
                lemma_ensemble_without_steps(startval, magnitudes@, ensemble_view(r));
            }
            if magnitudes@.len() == 0 {
                assert(ensemble_view(r)->Ok_0 =~= Seq::<i64>::empty());
            }
        }
        r
    }
}

/// Maps `Simulation::simulate_multi_step` over the rows of `magnitudes` with
/// rayon's `par_iter`, `map` and `collect`. Rayon calls the closure once for
/// each row and collects into a vector in the order of the rows, so the
/// outcome at each index is one that a trial over the row at that index may
/// have.
#[verifier::external_body]
fn run_trials(sim: &Simulation, startval: i64, magnitudes: &Vec<Vec<i64>>) -> (outcomes: Vec<
    Result<i64, PricingError>,
>)
    ensures
        outcomes@.len() == magnitudes@.len(),
        forall|i: int|
            0 <= i < outcomes@.len() ==> possible_trial(
                startval,
                magnitudes@[i]@,
                #[trigger] outcomes@[i],
            ),
{
    magnitudes.par_iter().map(|row| sim.simulate_multi_step(startval, row)).collect()
}

/// Gathers the outcomes of the trials of an ensemble into its result: the
/// terminal prices in order, or the overflow of the first trial that failed.
fn gather(startval: i64, magnitudes: &Vec<Vec<i64>>, outcomes: Vec<Result<i64, PricingError>>) -> (r:
    Result<Vec<i64>, PricingError>)
    requires
        outcomes@.len() == magnitudes@.len(),
        forall|i: int|
            0 <= i < outcomes@.len() ==> possible_trial(
                startval,
                magnitudes@[i]@,
                #[trigger] outcomes@[i],
            ),
    ensures
        possible_ensemble(startval, magnitudes@, ensemble_view(r)),
{
    let mut values: Vec<i64> = Vec::new();
    let mut i: usize = 0;
    while i < outcomes.len()
        invariant
            0 <= i <= outcomes@.len(),
            outcomes@.len() == magnitudes@.len(),
            values@.len() == i,
            forall|j: int|
                0 <= j < outcomes@.len() ==> possible_trial(
                    startval,
                    magnitudes@[j]@,
                    #[trigger] outcomes@[j],
                ),
            forall|j: int| 0 <= j < i ==> outcomes@[j] == Ok::<i64, PricingError>(#[trigger] values@[j]),
        decreases outcomes@.len() - i,
    {
        match outcomes[i] {
            Err(_) => {
                proof {
                    let ups = choose|ups: Seq<bool>|
                        ups.len() == magnitudes@[i as int]@.len() && outcomes@[i as int]
                            == path_outcome(
                            startval,
                            #[trigger] shocks_of(ups, magnitudes@[i as int]@),
                        );
                    lemma_path_fails_by_overflow(startval, shocks_of(ups, magnitudes@[i as int]@));
                    assert(possible_trial(
                        startval,
                        magnitudes@[i as int]@,
                        Err::<i64, PricingError>(PricingError::Overflow),
                    ));
                }
                return Err(PricingError::Overflow);
            },
            Ok(value) => {
                values.push(value);
            },
        }
        i = i + 1;
    }
    Ok(values)
}

} // verus!
