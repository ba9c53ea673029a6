use geohasher::{refine_interval, Bisection, Interval};

const DEGREE: i64 = 1 << 45;

#[test]
fn full_ranges() {
    assert_eq!(Interval::latitude(), Interval { low: -90 * DEGREE, high: 90 * DEGREE });
    assert_eq!(Interval::longitude(), Interval { low: -180 * DEGREE, high: 180 * DEGREE });
    assert_eq!(Interval::latitude().midpoint(), 0);
    assert_eq!(Interval::longitude().midpoint(), 0);
}

#[test]
fn refine_interval_keeps_the_half_that_the_bit_selects() {
    let full = Interval::latitude();
    assert_eq!(refine_interval(full, 1), Interval { low: 0, high: 90 * DEGREE });
    assert_eq!(refine_interval(full, 0), Interval { low: -90 * DEGREE, high: 0 });
    let upper = refine_interval(full, 1);
    assert_eq!(refine_interval(upper, 0), Interval { low: 0, high: 45 * DEGREE });
    assert_eq!(refine_interval(upper, 1), Interval { low: 45 * DEGREE, high: 90 * DEGREE });
}

#[test]
fn refine_interval_takes_any_other_bit_as_zero() {
    let interval = Interval { low: -10, high: 10 };
    assert_eq!(refine_interval(interval, 2), Interval { low: -10, high: 0 });
    assert_eq!(refine_interval(interval, 255), Interval { low: -10, high: 0 });
}

#[test]
fn midpoint_rounds_down_and_cannot_overflow() {
    assert_eq!(Interval { low: 0, high: 1 }.midpoint(), 0);
    assert_eq!(Interval { low: -1, high: 0 }.midpoint(), -1);
    assert_eq!(Interval { low: -3, high: 0 }.midpoint(), -2);
    assert_eq!(Interval { low: 5, high: 5 }.midpoint(), 5);
    assert_eq!(Interval { low: i64::MIN, high: i64::MAX }.midpoint(), -1);
    assert_eq!(Interval { low: i64::MAX - 2, high: i64::MAX }.midpoint(), i64::MAX - 1);
    assert_eq!(Interval { low: i64::MIN, high: i64::MIN + 2 }.midpoint(), i64::MIN + 1);
}

#[test]
fn bisection_alternates_starting_with_longitude() {
    let start = Bisection::start();
    assert!(start.lng_turn);
    assert_eq!(start.lat, Interval::latitude());
    assert_eq!(start.lng, Interval::longitude());
    let lat = 10 * DEGREE;
    let lng = -20 * DEGREE;
    assert_eq!(start.bit_for(lat, lng), 0);
    let first = start.refine(0);
    assert!(!first.lng_turn);
    assert_eq!(first.lng, Interval { low: -180 * DEGREE, high: 0 });
    assert_eq!(first.lat, Interval::latitude());
    assert_eq!(first.bit_for(lat, lng), 1);
    let second = first.refine(1);
    assert!(second.lng_turn);
    assert_eq!(second.lat, Interval { low: 0, high: 90 * DEGREE });
    assert_eq!(second.lng, first.lng);
    assert_eq!(second.bit_for(lat, lng), 1);
}

#[test]
fn bit_for_is_zero_on_the_midpoint() {
    let start = Bisection::start();
    assert_eq!(start.bit_for(0, 0), 0);
    assert_eq!(start.bit_for(0, 1), 1);
    assert_eq!(start.bit_for(0, -1), 0);
    let next = start.refine(0);
    assert_eq!(next.bit_for(0, 0), 0);
    assert_eq!(next.bit_for(1, 0), 1);
}
