use arbitrage::trading::Leg::{First, Second};
use arbitrage::walk_forward::{calibration_due, last_other_time, last_values, leading_before, stale_values, MINUTE_NS};

const MIN: i64 = MINUTE_NS as i64;

#[test]
fn latest_value_of_each_leg() {
    assert_eq!(last_values(&[First, Second, First, First]), Some((3, 1)));
    assert_eq!(last_values(&[Second, First, Second]), Some((1, 2)));
    assert_eq!(last_values(&[First, First, First]), None);
    assert_eq!(last_values(&[First]), None);
}

#[test]
fn first_buffered_value_is_not_looked_at() {
    assert_eq!(last_values(&[Second, First]), None);
    assert_eq!(last_values(&[Second, First, First]), None);
}

#[test]
fn calibration_waits_for_enough_data() {
    let times = [0, 30 * MIN, 88 * MIN];
    assert!(!calibration_due(&times, None, 90, 1));
    let times = [0, 30 * MIN, 89 * MIN];
    assert!(calibration_due(&times, None, 90, 1));
    assert!(!calibration_due(&[0], None, 1, 1));
    assert!(calibration_due(&[0, 0], None, 1, 1));
}

#[test]
fn calibration_waits_for_its_interval() {
    let times = [0, 95 * MIN];
    assert!(!calibration_due(&times, Some(94 * MIN), 90, 1));
    assert!(calibration_due(&times, Some(94 * MIN - 1), 90, 1));
}

#[test]
fn stale_values_before_the_training_window() {
    let times = [0, 5 * MIN, 10 * MIN, 20 * MIN, 100 * MIN];
    assert_eq!(stale_values(&times, 90), 2);
    assert_eq!(stale_values(&times, 200), 0);
    assert_eq!(stale_values(&[3 * MIN, 0, 10 * MIN], 5), 2);
    assert_eq!(stale_values(&times, 0), 4);
}

#[test]
fn leading_times_before_a_bound() {
    let times = [10, 20, 30, 15];
    assert_eq!(leading_before(&times, 25), 2);
    assert_eq!(leading_before(&times, 5), 0);
    assert_eq!(leading_before(&times, 100), 4);
    assert_eq!(leading_before(&[], 100), 0);
}

#[test]
fn last_time_that_differs() {
    assert_eq!(last_other_time(&[10, 20, 30, 30], 30), Some(1));
    assert_eq!(last_other_time(&[10, 20, 30], 40), Some(2));
    assert_eq!(last_other_time(&[30, 30], 30), None);
    assert_eq!(last_other_time(&[], 30), None);
}
