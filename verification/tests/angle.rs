use geohasher::Angle;

const DEGREE: i64 = 1 << 45;

fn units_of(degrees: f64) -> i64 {
    Angle::from_binary64(degrees.to_bits()).units()
}

fn degrees_of(units: i64) -> f64 {
    f64::from_bits(Angle::from_units(units).unwrap().to_binary64())
}

#[test]
fn from_binary64_reads_whole_degrees() {
    assert_eq!(units_of(0.0), 0);
    assert_eq!(units_of(-0.0), 0);
    assert_eq!(units_of(1.0), DEGREE);
    assert_eq!(units_of(-1.0), -DEGREE);
    assert_eq!(units_of(0.5), DEGREE / 2);
    assert_eq!(units_of(90.0), 3_166_593_487_994_880);
    assert_eq!(units_of(-90.0), -3_166_593_487_994_880);
    assert_eq!(units_of(180.0), 6_333_186_975_989_760);
    assert_eq!(units_of(-180.0), -6_333_186_975_989_760);
    assert_eq!(units_of(179.99999999999997), 180 * DEGREE - 1);
}

#[test]
fn from_binary64_rounds_up() {
    let unit = 2f64.powi(-45);
    assert_eq!(units_of(unit), 1);
    assert_eq!(units_of(-unit), -1);
    assert_eq!(units_of(unit / 2.0), 1);
    assert_eq!(units_of(-unit / 2.0), 0);
    assert_eq!(units_of(1.5 * unit), 2);
    assert_eq!(units_of(-1.5 * unit), -1);
    assert_eq!(units_of(f64::from_bits(1)), 1);
    assert_eq!(units_of(-f64::from_bits(1)), 0);
    assert_eq!(units_of(f64::MIN_POSITIVE), 1);
    assert_eq!(units_of(2f64.powi(-60)), 1);
    assert_eq!(units_of(1.0 + 2f64.powi(-46)), DEGREE + 1);
    assert_eq!(units_of(-1.0 - 2f64.powi(-46)), -DEGREE);
    assert_eq!(units_of(57.64911), (57.64911f64 * 2f64.powi(45)).ceil() as i64);
    assert_eq!(units_of(-118.243683), (-118.243683f64 * 2f64.powi(45)).ceil() as i64);
}

#[test]
fn from_binary64_limits_to_the_half_turn() {
    let limit = 180 * DEGREE;
    assert_eq!(units_of(180.00000000000003), limit);
    assert_eq!(units_of(200.0), limit);
    assert_eq!(units_of(255.99999999999997), limit);
    assert_eq!(units_of(256.0), limit);
    assert_eq!(units_of(1e300), limit);
    assert_eq!(units_of(f64::MAX), limit);
    assert_eq!(units_of(f64::INFINITY), limit);
    assert_eq!(units_of(-200.0), -limit);
    assert_eq!(units_of(-1e300), -limit);
    assert_eq!(units_of(f64::NEG_INFINITY), -limit);
    assert_eq!(units_of(f64::NAN), -limit);
    assert_eq!(units_of(-f64::NAN), -limit);
}

#[test]
fn to_binary64_writes_the_exact_number() {
    assert_eq!(Angle::from_units(0).unwrap().to_binary64(), 0);
    assert_eq!(degrees_of(0), 0.0);
    assert_eq!(degrees_of(DEGREE), 1.0);
    assert_eq!(degrees_of(-DEGREE), -1.0);
    assert_eq!(degrees_of(1), 2f64.powi(-45));
    assert_eq!(degrees_of(-1), -(2f64.powi(-45)));
    assert_eq!(degrees_of(3), 3.0 * 2f64.powi(-45));
    assert_eq!(degrees_of(180 * DEGREE), 180.0);
    assert_eq!(degrees_of(-180 * DEGREE), -180.0);
    assert_eq!(degrees_of(180 * DEGREE - 1), 179.99999999999997);
    assert_eq!(degrees_of(45 * DEGREE / 2), 22.5);
}

#[test]
fn writing_and_reading_gives_the_angle_back() {
    for units in [0, 1, -1, 2, 3, 12345, -98765, DEGREE, 90 * DEGREE, -90 * DEGREE, 180 * DEGREE, -180 * DEGREE, 180 * DEGREE - 1, 1 - 180 * DEGREE, 4_000_000_000_000_001] {
        let angle = Angle::from_units(units).unwrap();
        assert_eq!(angle.units(), units);
        assert_eq!(Angle::from_binary64(angle.to_binary64()).units(), units);
    }
}

#[test]
fn from_units_accepts_the_half_turn_only() {
    assert!(Angle::from_units(180 * DEGREE).is_some());
    assert!(Angle::from_units(-180 * DEGREE).is_some());
    assert!(Angle::from_units(180 * DEGREE + 1).is_none());
    assert!(Angle::from_units(-180 * DEGREE - 1).is_none());
    assert!(Angle::from_units(i64::MAX).is_none());
    assert!(Angle::from_units(i64::MIN).is_none());
}
