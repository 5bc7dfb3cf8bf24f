use option_pricer::statistics::{mean, std_deviation};

#[test]
fn mean_of_nothing_is_no_value() {
    assert_eq!(mean(&Vec::new()), None);
}

#[test]
fn std_deviation_of_nothing_is_no_value() {
    assert_eq!(std_deviation(&Vec::new()), None);
}

#[test]
fn mean_of_one_value_is_that_value() {
    assert_eq!(mean(&vec![42]), Some(42));
    assert_eq!(mean(&vec![-42]), Some(-42));
    assert_eq!(mean(&vec![i64::MAX]), Some(i64::MAX));
    assert_eq!(mean(&vec![i64::MIN]), Some(i64::MIN));
}

#[test]
fn mean_is_exact_where_the_count_divides_the_sum() {
    assert_eq!(mean(&vec![2, 4, 4, 4, 5, 5, 7, 9]), Some(5));
    assert_eq!(mean(&vec![-6, 6]), Some(0));
    assert_eq!(mean(&vec![-3, -5]), Some(-4));
}

#[test]
fn mean_rounds_down() {
    assert_eq!(mean(&vec![1, 2]), Some(1));
    assert_eq!(mean(&vec![-7, 2]), Some(-3));
    assert_eq!(mean(&vec![-3, -4]), Some(-4));
    assert_eq!(mean(&vec![-1, 0, 0]), Some(-1));
    assert_eq!(mean(&vec![-5, 3, 10]), Some(2));
}

#[test]
fn mean_of_extreme_values_does_not_overflow() {
    assert_eq!(mean(&vec![i64::MAX, i64::MAX, i64::MAX]), Some(i64::MAX));
    assert_eq!(mean(&vec![i64::MIN, i64::MIN, i64::MIN]), Some(i64::MIN));
    assert_eq!(mean(&vec![i64::MIN, i64::MAX]), Some(-1));
}

#[test]
fn std_deviation_of_a_constant_sequence_is_zero() {
    assert_eq!(std_deviation(&vec![7]), Some(0));
    assert_eq!(std_deviation(&vec![7, 7, 7, 7, 7]), Some(0));
    assert_eq!(std_deviation(&vec![-3, -3]), Some(0));
    assert_eq!(std_deviation(&vec![100_000_000, 100_000_000, 100_000_000]), Some(0));
    assert_eq!(std_deviation(&vec![i64::MIN, i64::MIN]), Some(0));
    assert_eq!(std_deviation(&vec![i64::MAX; 9]), Some(0));
}

#[test]
fn std_deviation_divides_by_the_count() {
    // Squared distances from the mean 5 sum to 32; 32 / 8 = 4, by one less
    // it would be 32 / 7.
    assert_eq!(std_deviation(&vec![2, 4, 4, 4, 5, 5, 7, 9]), Some(2));
    // Distances 1 and 1: variance 1 by the count, 2 by one less.
    assert_eq!(std_deviation(&vec![10, 12]), Some(1));
}

#[test]
fn std_deviation_rounds_down() {
    // Mean 2, squared distances 49 + 1 + 64 = 114, variance 38.
    assert_eq!(std_deviation(&vec![-5, 3, 10]), Some(6));
    assert_eq!(
        std_deviation(&vec![1_000_000_000, 2_000_000_000, 4_000_000_000]),
        Some(1_247_219_128)
    );
}

#[test]
fn std_deviation_of_extreme_values_does_not_overflow() {
    assert_eq!(
        std_deviation(&vec![i64::MIN, i64::MAX]),
        Some(9_223_372_036_854_775_807)
    );
}
