use adc_sampler::filter::{average_readings, AVG_CUTOFF, AVG_LENGTH, AVG_WINDOW};

#[test]
fn constants_match_window_layout() {
    assert_eq!(AVG_WINDOW, 8);
    assert_eq!(AVG_CUTOFF, 2);
    assert_eq!(AVG_LENGTH, 12);
}

#[test]
fn outliers_are_discarded_from_literal_window() {
    let mut w: Vec<i16> = vec![5, 5, 5, 5, 5, 5, 5, 5, -100, -100, 1000, 1000];
    let avg = average_readings(&mut w);
    assert_eq!(avg, 5);
    assert_eq!(w, vec![-100, -100, 5, 5, 5, 5, 5, 5, 5, 5, 1000, 1000]);
}

#[test]
fn average_is_permutation_invariant() {
    let mut a: Vec<i16> = vec![5, 5, 5, 5, 5, 5, 5, 5, -100, -100, 1000, 1000];
    let mut b: Vec<i16> = vec![1000, -100, 5, 5, 5, 1000, 5, 5, -100, 5, 5, 5];
    let mut c: Vec<i16> = vec![5, 1000, 5, -100, 5, 5, 1000, 5, 5, 5, 5, -100];
    let avg_a = average_readings(&mut a);
    let avg_b = average_readings(&mut b);
    let avg_c = average_readings(&mut c);
    assert_eq!(avg_a, avg_b);
    assert_eq!(avg_a, avg_c);
    assert_eq!(a, b);
    assert_eq!(a, c);
}

#[test]
fn extreme_outlier_value_does_not_influence_average() {
    let mut with_high: Vec<i16> = vec![7, 8, 9, 10, 11, 12, 13, 14, 1, 2, 20, 30000];
    let mut with_higher: Vec<i16> = vec![7, 8, 9, 10, 11, 12, 13, 14, 1, 2, 20, 400];
    let a = average_readings(&mut with_high);
    let b = average_readings(&mut with_higher);
    assert_eq!(a, b);

    let mut with_low: Vec<i16> = vec![7, 8, 9, 10, 11, 12, 13, 14, -30000, 2, 20, 40];
    let mut with_lower: Vec<i16> = vec![7, 8, 9, 10, 11, 12, 13, 14, -300, 2, 20, 40];
    let a = average_readings(&mut with_low);
    let b = average_readings(&mut with_lower);
    assert_eq!(a, b);
}

#[test]
fn average_of_identical_samples_is_that_sample() {
    let mut w: Vec<i16> = vec![-100; 12];
    assert_eq!(average_readings(&mut w), -100);
}

#[test]
fn negative_average_truncates_toward_zero() {
    // Retained after sorting: [-2, -1, -1, -1, -1, -1, -1, -1], sum -9.
    let mut w: Vec<i16> = vec![-3, -3, -2, -1, -1, -1, -1, -1, -1, -1, 5, 5];
    assert_eq!(average_readings(&mut w), -1);

    // Retained sum 9 on the positive side truncates the same way.
    let mut w: Vec<i16> = vec![3, 3, 2, 1, 1, 1, 1, 1, 1, 1, -5, -5];
    assert_eq!(average_readings(&mut w), 1);
}

#[test]
fn full_scale_window_does_not_overflow() {
    let mut w: Vec<i16> = vec![32767; 12];
    assert_eq!(average_readings(&mut w), 32767);
    let mut w: Vec<i16> = vec![-32768; 12];
    assert_eq!(average_readings(&mut w), -32768);
}
