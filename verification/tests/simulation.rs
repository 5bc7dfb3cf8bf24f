use option_pricer::error::PricingError;
use option_pricer::fixed::SCALE;
use option_pricer::simulation::{Shock, Simulation};
use option_pricer::stock::Stock;

fn model() -> Stock {
    Stock { current_value: 100 * SCALE, volatility: 24_932_730, volatility_stdev: 10_983_672 }
}

fn simulation() -> Simulation {
    Simulation::new(model()).unwrap()
}

fn up(magnitude: i64) -> Shock {
    Shock { up: true, magnitude }
}

fn down(magnitude: i64) -> Shock {
    Shock { up: false, magnitude }
}

#[test]
fn new_keeps_the_model() {
    assert_eq!(simulation().asset(), model());
}

#[test]
fn new_refuses_a_zero_deviation() {
    let flat = Stock { current_value: 100 * SCALE, volatility: 10_101_010, volatility_stdev: 0 };
    assert_eq!(
        Simulation::new(flat).unwrap_err(),
        PricingError::InvalidDistributionParameters
    );
}

#[test]
fn new_refuses_a_model_calibrated_from_two_prices() {
    let stock = Stock::calibrate(&vec![100 * SCALE, 102 * SCALE], 2).unwrap();
    assert!(matches!(
        Simulation::new(stock),
        Err(PricingError::InvalidDistributionParameters)
    ));
}

#[test]
fn shock_is_the_value_times_the_size_with_the_sign_of_the_direction() {
    let sim = simulation();
    assert_eq!(sim.get_shock(100 * SCALE, up(SCALE / 2)), 50_000_000_000);
    assert_eq!(sim.get_shock(100 * SCALE, down(SCALE / 2)), -50_000_000_000);
    assert_eq!(sim.get_shock(100 * SCALE, up(-SCALE / 2)), -50_000_000_000);
    assert_eq!(sim.get_shock(100 * SCALE, down(-SCALE / 2)), 50_000_000_000);
    assert_eq!(sim.get_shock(-100 * SCALE, up(25_000_000)), -2_500_000_000);
    assert_eq!(sim.get_shock(0, up(SCALE)), 0);
    assert_eq!(sim.get_shock(7, down(3)), 0);
}

#[test]
fn step_adds_the_shock() {
    let sim = simulation();
    assert_eq!(sim.simulate_step(100 * SCALE, up(SCALE / 2)), Ok(150 * SCALE));
    assert_eq!(sim.simulate_step(100 * SCALE, down(SCALE / 2)), Ok(50 * SCALE));
    assert_eq!(sim.simulate_step(100 * SCALE, up(0)), Ok(100 * SCALE));
    assert_eq!(sim.simulate_step(100 * SCALE, down(2 * SCALE)), Ok(-100 * SCALE));
    assert_eq!(sim.simulate_step(100 * SCALE, up(24_932_730)), Ok(102_493_273_000));
}

#[test]
fn step_out_of_range_is_an_overflow() {
    let sim = simulation();
    assert_eq!(sim.simulate_step(i64::MAX, up(SCALE)), Err(PricingError::Overflow));
    assert_eq!(sim.simulate_step(i64::MIN, up(SCALE)), Err(PricingError::Overflow));
    assert_eq!(sim.simulate_step(i64::MAX, down(3 * SCALE)), Err(PricingError::Overflow));
    assert_eq!(sim.simulate_step(i64::MAX, down(SCALE)), Ok(0));
    assert_eq!(sim.simulate_step(i64::MAX, down(2 * SCALE)), Ok(-i64::MAX));
    assert_eq!(sim.simulate_step(i64::MIN, up(i64::MIN)), Err(PricingError::Overflow));
}

#[test]
fn path_of_no_steps_is_the_start() {
    let sim = simulation();
    assert_eq!(sim.simulate_path(100 * SCALE, &Vec::new()), Ok(100 * SCALE));
    assert_eq!(sim.simulate_path(i64::MIN, &Vec::new()), Ok(i64::MIN));
}

#[test]
fn path_scales_each_shock_by_the_value_before_the_step() {
    let sim = simulation();
    // 100 -> 150 -> 75: the second shock is half of 150, not half of 100.
    assert_eq!(
        sim.simulate_path(100 * SCALE, &vec![up(SCALE / 2), down(SCALE / 2)]),
        Ok(75 * SCALE)
    );
    // 100 -> 50 -> 75.
    assert_eq!(
        sim.simulate_path(100 * SCALE, &vec![down(SCALE / 2), up(SCALE / 2)]),
        Ok(75 * SCALE)
    );
    // 100 -> 110 -> 121 -> 108.9
    assert_eq!(
        sim.simulate_path(
            100 * SCALE,
            &vec![up(SCALE / 10), up(SCALE / 10), down(SCALE / 10)]
        ),
        Ok(108_900_000_000)
    );
}

#[test]
fn path_that_leaves_the_range_on_the_way_is_an_overflow() {
    let sim = simulation();
    // The first step overflows, though the second would bring the value back.
    assert_eq!(
        sim.simulate_path(i64::MAX, &vec![up(SCALE), down(SCALE)]),
        Err(PricingError::Overflow)
    );
    assert_eq!(
        sim.simulate_path(i64::MAX / 2, &vec![up(SCALE / 2), up(SCALE / 2)]),
        Err(PricingError::Overflow)
    );
}

#[test]
fn trial_of_no_steps_is_the_start() {
    let sim = simulation();
    assert_eq!(sim.simulate_multi_step(100 * SCALE, &Vec::new()), Ok(100 * SCALE));
}

#[test]
fn trial_takes_one_of_the_two_directions_at_each_step() {
    let sim = simulation();
    for _ in 0..200 {
        let one = sim.simulate_multi_step(100 * SCALE, &vec![SCALE / 2]).unwrap();
        assert!(one == 150 * SCALE || one == 50 * SCALE);
        let two = sim.simulate_multi_step(100 * SCALE, &vec![SCALE / 2, SCALE / 2]).unwrap();
        assert!(two == 225 * SCALE || two == 75 * SCALE || two == 25 * SCALE);
    }
}

#[test]
fn trial_draws_both_directions() {
    let sim = simulation();
    let mut ups = 0;
    let mut downs = 0;
    for _ in 0..2000 {
        match sim.simulate_multi_step(100 * SCALE, &vec![SCALE / 2]).unwrap() {
            150_000_000_000 => ups += 1,
            50_000_000_000 => downs += 1,
            other => panic!("{}", other),
        }
    }
    assert_eq!(ups + downs, 2000);
    assert!(ups > 700 && downs > 700);
}

#[test]
fn trial_with_zero_sizes_stays_at_the_start() {
    let sim = simulation();
    assert_eq!(sim.simulate_multi_step(-7, &vec![0, 0, 0, 0]), Ok(-7));
}

#[test]
fn trial_that_overflows_either_way_is_an_overflow() {
    let sim = simulation();
    assert_eq!(
        sim.simulate_multi_step(i64::MAX, &vec![3 * SCALE]),
        Err(PricingError::Overflow)
    );
}

#[test]
fn multi_run_without_steps_returns_copies_of_the_start() {
    let sim = simulation();
    let rows: Vec<Vec<i64>> = vec![Vec::new(); 1000];
    assert_eq!(sim.simulate_multi_run(42, &rows), Ok(vec![42; 1000]));
}

#[test]
fn multi_run_without_trials_is_empty() {
    let sim = simulation();
    assert_eq!(sim.simulate_multi_run(42, &Vec::new()), Ok(Vec::new()));
}

#[test]
fn multi_run_returns_one_value_for_each_row_in_order() {
    let sim = simulation();
    let rows = vec![vec![SCALE / 2], Vec::new(), vec![0, 0], vec![SCALE / 10]];
    let values = sim.simulate_multi_run(100 * SCALE, &rows).unwrap();
    assert_eq!(values.len(), 4);
    assert!(values[0] == 150 * SCALE || values[0] == 50 * SCALE);
    assert_eq!(values[1], 100 * SCALE);
    assert_eq!(values[2], 100 * SCALE);
    assert!(values[3] == 110 * SCALE || values[3] == 90 * SCALE);
}

#[test]
fn multi_run_fails_as_a_whole_when_a_trial_overflows() {
    let sim = simulation();
    let rows = vec![Vec::new(), vec![3 * SCALE], Vec::new()];
    assert_eq!(sim.simulate_multi_run(i64::MAX, &rows), Err(PricingError::Overflow));
}

#[test]
fn rayon_run_without_steps_returns_copies_of_the_current_value() {
    let sim = simulation();
    let rows: Vec<Vec<i64>> = vec![Vec::new(); 1000];
    assert_eq!(sim.rayon_multi_run(&rows), Ok(vec![100 * SCALE; 1000]));
}

#[test]
fn rayon_run_without_trials_is_empty() {
    let sim = simulation();
    assert_eq!(sim.rayon_multi_run(&Vec::new()), Ok(Vec::new()));
    let no_rows: Vec<Vec<i64>> = Vec::new();
    assert_eq!(sim.rayon_multi_run(&no_rows).unwrap().len(), 0);
}

#[test]
fn rayon_run_returns_one_value_for_each_row_in_order() {
    let sim = simulation();
    let mut rows: Vec<Vec<i64>> = Vec::new();
    for i in 0..500 {
        rows.push(vec![(i % 5) * (SCALE / 10)]);
    }
    let values = sim.rayon_multi_run(&rows).unwrap();
    assert_eq!(values.len(), 500);
    for i in 0..500 {
        let tenths = (i as i64) % 5;
        let high = (100 + 10 * tenths) * SCALE;
        let low = (100 - 10 * tenths) * SCALE;
        assert!(values[i] == high || values[i] == low);
    }
}

#[test]
fn rayon_run_moves_away_from_the_start() {
    let sim = simulation();
    let rows: Vec<Vec<i64>> = vec![vec![SCALE / 2]; 64];
    let values = sim.rayon_multi_run(&rows).unwrap();
    for v in values {
        assert_ne!(v, 100 * SCALE);
    }
}

#[test]
fn rayon_run_fails_as_a_whole_when_a_trial_overflows() {
    let stock = Stock { current_value: i64::MAX, volatility: 1, volatility_stdev: 1 };
    let sim = Simulation::new(stock).unwrap();
    let rows = vec![Vec::new(), Vec::new(), vec![3 * SCALE], Vec::new()];
    assert_eq!(sim.rayon_multi_run(&rows), Err(PricingError::Overflow));
}

#[test]
fn calibrated_model_without_steps_yields_a_thousand_copies() {
    let closes =
        vec![100 * SCALE, 102 * SCALE, 98 * SCALE, 101 * SCALE, 99 * SCALE, 100 * SCALE];
    let stock = Stock::calibrate(&closes, 5).unwrap();
    let sim = Simulation::new(stock).unwrap();
    let rows: Vec<Vec<i64>> = vec![Vec::new(); 1000];
    let values = sim.rayon_multi_run(&rows).unwrap();
    assert_eq!(values.len(), 1000);
    for v in values {
        assert_eq!(v, 100 * SCALE);
    }
}

#[test]
fn two_runs_are_not_identical() {
    let sim = simulation();
    let rows: Vec<Vec<i64>> = vec![vec![24_932_730; 10]; 1000];
    let first = sim.rayon_multi_run(&rows).unwrap();
    let second = sim.rayon_multi_run(&rows).unwrap();
    assert_eq!(first.len(), second.len());
    assert_ne!(first, second);
}

#[test]
fn two_runs_have_close_means() {
    let sim = simulation();
    let rows: Vec<Vec<i64>> = vec![vec![24_932_730; 10]; 20_000];
    let first = sim.rayon_multi_run(&rows).unwrap();
    let second = sim.rayon_multi_run(&rows).unwrap();
    let mean_of = |values: &Vec<i64>| -> f64 {
        let total: f64 = values.iter().map(|v| *v as f64 / SCALE as f64).sum();
        total / values.len() as f64
    };
    let a = mean_of(&first);
    let b = mean_of(&second);
    // Each trial has mean 100 and a deviation near 7.9, so the mean of
    // 20,000 trials has a deviation near 0.056.
    assert!((a - 100.0).abs() < 0.6);
    assert!((b - 100.0).abs() < 0.6);
    assert!((a - b).abs() < 0.8);
}
