use geohasher::{decode, encode, Angle, GeohashError};

fn degrees(angle: Angle) -> f64 {
    f64::from_bits(angle.to_binary64())
}

#[test]
fn test_decode_basic() {
    let (lat, lng) = decode("u4pruydq").unwrap();
    let (lat, lng) = (degrees(lat), degrees(lng));
    assert!((lat - 57.64911).abs() < 0.001);
    assert!((lng - 10.40744).abs() < 0.001);
}

#[test]
fn decode_empty_is_origin() {
    let (lat, lng) = decode("").unwrap();
    assert_eq!(lat.units(), 0);
    assert_eq!(lng.units(), 0);
    assert_eq!(degrees(lat), 0.0);
    assert_eq!(degrees(lng), 0.0);
}

#[test]
fn decode_single_symbols_exactly() {
    // "s" is 11000: longitude bits 1,0,0 and latitude bits 1,0
    let (lat, lng) = decode("s").unwrap();
    assert_eq!(degrees(lat), 22.5);
    assert_eq!(degrees(lng), 22.5);
    // "0": everything in the lowest halves
    let (lat, lng) = decode("0").unwrap();
    assert_eq!(degrees(lat), -67.5);
    assert_eq!(degrees(lng), -157.5);
    // "z": everything in the highest halves
    let (lat, lng) = decode("z").unwrap();
    assert_eq!(degrees(lat), 67.5);
    assert_eq!(degrees(lng), 157.5);
}

#[test]
fn decode_alternation_carries_over_symbols() {
    // after the five bits of the first symbol the sixth bit belongs to the latitude
    let (lat, lng) = decode("00").unwrap();
    assert_eq!(degrees(lat), -90.0 + 180.0 / 64.0);
    assert_eq!(degrees(lng), -180.0 + 360.0 / 64.0);
    let (lat, lng) = decode("0h").unwrap();
    // "h" is 10000: the one goes to the latitude
    assert_eq!(degrees(lat), -90.0 + 45.0 / 2.0 + 180.0 / 64.0);
    assert_eq!(degrees(lng), -180.0 + 360.0 / 64.0);
}

#[test]
fn decode_refuses_foreign_characters() {
    assert_eq!(decode("u4pruydqa").err(), Some(GeohashError::InvalidSymbol));
    assert_eq!(decode("a").err(), Some(GeohashError::InvalidSymbol));
    assert_eq!(decode("i").err(), Some(GeohashError::InvalidSymbol));
    assert_eq!(decode("l").err(), Some(GeohashError::InvalidSymbol));
    assert_eq!(decode("o").err(), Some(GeohashError::InvalidSymbol));
    assert_eq!(decode("U4PR").err(), Some(GeohashError::InvalidSymbol));
    assert_eq!(decode("u4 pr").err(), Some(GeohashError::InvalidSymbol));
    assert_eq!(decode("u4pr\u{e9}").err(), Some(GeohashError::InvalidSymbol));
    let long = "0".repeat(40) + "!";
    assert_eq!(decode(&long).err(), Some(GeohashError::InvalidSymbol));
}

#[test]
fn decode_accepts_long_geohashes() {
    let (lat, lng) = decode("u4pruydqqvj8pr9yc27rjr").unwrap();
    assert!((degrees(lat) - 57.64911).abs() < 1e-7);
    assert!((degrees(lng) - 10.40744).abs() < 1e-7);
    let text = "z".repeat(200);
    let (lat, lng) = decode(&text).unwrap();
    assert!((degrees(lat) - 90.0).abs() < 1e-12);
    assert!((degrees(lng) - 180.0).abs() < 1e-12);
}

#[test]
fn decode_is_deterministic() {
    let first = decode("9q5ctr18dkxw").unwrap();
    let second = decode("9q5ctr18dkxw").unwrap();
    assert_eq!(first.0.units(), second.0.units());
    assert_eq!(first.1.units(), second.1.units());
}

fn floating_decode(text: &str) -> (f64, f64) {
    let alphabet = "0123456789bcdefghjkmnpqrstuvwxyz";
    let mut lat = (-90.0f64, 90.0f64);
    let mut lng = (-180.0f64, 180.0f64);
    let mut lat_turn = false;
    for c in text.chars() {
        let value = alphabet.find(c).unwrap();
        for i in 0..5 {
            let bit = (value >> (4 - i)) & 1;
            let interval = if lat_turn { &mut lat } else { &mut lng };
            let mid = (interval.0 + interval.1) / 2.0;
            if bit == 1 {
                interval.0 = mid;
            } else {
                interval.1 = mid;
            }
            lat_turn = !lat_turn;
        }
    }
    ((lat.0 + lat.1) / 2.0, (lng.0 + lng.1) / 2.0)
}

#[test]
fn decode_agrees_with_floating_bisection() {
    for text in ["u", "u4", "u4pruydq", "9q5ctr18dkxw", "7zzzzzzzzzzz", "ezs42", "u4pruydqqvj8pr9yc2"] {
        let (lat, lng) = decode(text).unwrap();
        let (expected_lat, expected_lng) = floating_decode(text);
        assert_eq!(degrees(lat), expected_lat);
        assert_eq!(degrees(lng), expected_lng);
    }
}

#[test]
fn round_trip_stays_within_half_a_cell() {
    let points = [
        (57.64911, 10.40744),
        (34.052235, -118.243683),
        (0.0, 0.0),
        (90.0, 180.0),
        (-90.0, -180.0),
        (-33.8688, 151.2093),
        (1e-9, -1e-9),
    ];
    for (lat, lng) in points {
        for precision in 1..=18usize {
            let text = encode(
                Angle::from_binary64(f64::to_bits(lat)),
                Angle::from_binary64(f64::to_bits(lng)),
                precision,
            ).unwrap();
            let (decoded_lat, decoded_lng) = decode(&text).unwrap();
            let lat_bits = (5 * precision / 2) as i32;
            let lng_bits = ((5 * precision + 1) / 2) as i32;
            assert!((degrees(decoded_lat) - lat).abs() <= 90.0 / 2f64.powi(lat_bits));
            assert!((degrees(decoded_lng) - lng).abs() <= 180.0 / 2f64.powi(lng_bits));
        }
    }
}

#[test]
fn centre_of_a_cell_encodes_to_the_cell() {
    for text in ["u4pruydq", "9q5ctr18dkxw", "0", "z", "s00000000000000000"] {
        let (lat, lng) = decode(text).unwrap();
        assert_eq!(encode(lat, lng, text.len()).unwrap(), text);
    }
}
