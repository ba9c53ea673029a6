use geohasher::{encode, Angle, GeohashError};

fn angle(degrees: f64) -> Angle {
    Angle::from_binary64(degrees.to_bits())
}

#[test]
fn test_encode_basic() {
    assert_eq!(encode(angle(57.64911), angle(10.40744), 8).unwrap(), "u4pruydq");
}

#[test]
fn test_encode_low_precision() {
    assert_eq!(encode(angle(57.64911), angle(10.40744), 4).unwrap(), "u4pr");
}

#[test]
fn test_encode_high_precision() {
    assert_eq!(encode(angle(57.64911), angle(10.40744), 12).unwrap(), "u4pruydqqvj8");
}

#[test]
fn test_extremes() {
    assert_eq!(encode(angle(90.0), angle(180.0), 6).unwrap(), "zzzzzz");
    assert_eq!(encode(angle(-90.0), angle(-180.0), 6).unwrap(), "000000");
}

#[test]
fn test_zero_coordinates() {
    assert_eq!(encode(angle(0.0), angle(0.0), 12).unwrap(), "7zzzzzzzzzzz");
}

#[test]
fn test_random_coordinates() {
    assert_eq!(encode(angle(34.052235), angle(-118.243683), 12).unwrap(), "9q5ctr18dkxw");
}

#[test]
fn test_encode() {
    assert_eq!(encode(angle(57.64911), angle(10.40744), 5).unwrap(), "u4pru");
}

#[test]
fn encode_zero_precision_is_empty() {
    assert_eq!(encode(angle(57.64911), angle(10.40744), 0).unwrap(), "");
}

#[test]
fn encode_accepts_the_largest_precision() {
    let text = encode(angle(57.64911), angle(10.40744), 18).unwrap();
    assert_eq!(text.len(), 18);
    assert!(text.starts_with("u4pruydqqvj8"));
}

#[test]
fn encode_refuses_too_many_symbols() {
    assert_eq!(encode(angle(57.64911), angle(10.40744), 19), Err(GeohashError::InvalidPrecision));
    assert_eq!(encode(angle(0.0), angle(0.0), usize::MAX), Err(GeohashError::InvalidPrecision));
}

#[test]
fn encode_midpoint_falls_into_lower_half() {
    // 45 degrees is the midpoint of the second bisection of a northern latitude
    assert_eq!(encode(angle(45.0), angle(0.0), 1).unwrap(), "e");
    assert_eq!(encode(angle(45.000000001), angle(0.0), 1).unwrap(), "g");
    // 90 degrees is the midpoint of the second bisection of an eastern longitude
    assert_eq!(encode(angle(45.0), angle(90.0), 1).unwrap(), "t");
    assert_eq!(encode(angle(45.0), angle(90.000000001), 1).unwrap(), "w");
    // just above a midpoint the upper half is taken
    assert_eq!(encode(angle(0.0), angle(f64::MIN_POSITIVE), 1).unwrap(), "k");
    assert_eq!(encode(angle(f64::MIN_POSITIVE), angle(f64::MIN_POSITIVE), 1).unwrap(), "s");
}

#[test]
fn encode_beyond_the_domain_is_no_error() {
    assert_eq!(encode(angle(100.0), angle(0.0), 3).unwrap(), encode(angle(90.0), angle(0.0), 3).unwrap());
    assert_eq!(encode(angle(0.0), angle(500.0), 4).unwrap(), encode(angle(0.0), angle(180.0), 4).unwrap());
    assert_eq!(encode(angle(f64::INFINITY), angle(f64::INFINITY), 2).unwrap(), "zz");
    assert_eq!(encode(angle(f64::NEG_INFINITY), angle(f64::NEG_INFINITY), 2).unwrap(), "00");
    assert_eq!(encode(angle(f64::NAN), angle(f64::NAN), 2).unwrap(), "00");
}

#[test]
fn encode_is_deterministic() {
    let first = encode(angle(34.052235), angle(-118.243683), 9);
    let second = encode(angle(34.052235), angle(-118.243683), 9);
    assert_eq!(first, second);
}

#[test]
fn longer_geohash_extends_shorter() {
    let lat = angle(34.052235);
    let lng = angle(-118.243683);
    let full = encode(lat, lng, 18).unwrap();
    for precision in 0..=18 {
        let shorter = encode(lat, lng, precision).unwrap();
        assert_eq!(shorter.len(), precision);
        assert!(full.starts_with(&shorter));
    }
}
