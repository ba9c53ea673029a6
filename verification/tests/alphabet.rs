use geohasher::alphabet::BASE32;
use geohasher::{symbol_for, value_for, GeohashError};

#[test]
fn alphabet_is_the_geohash_base32() {
    let symbols: String = (0..32u8).map(symbol_for).collect();
    assert_eq!(symbols, "0123456789bcdefghjkmnpqrstuvwxyz");
    assert_eq!(BASE32.iter().collect::<String>(), symbols);
}

#[test]
fn value_of_symbol_of_every_value() {
    for value in 0..32u8 {
        assert_eq!(value_for(symbol_for(value)), Ok(value));
    }
}

#[test]
fn symbol_of_value_of_every_symbol() {
    for symbol in "0123456789bcdefghjkmnpqrstuvwxyz".chars() {
        assert_eq!(symbol_for(value_for(symbol).unwrap()), symbol);
    }
}

#[test]
fn value_for_known_symbols() {
    assert_eq!(value_for('0'), Ok(0));
    assert_eq!(value_for('9'), Ok(9));
    assert_eq!(value_for('b'), Ok(10));
    assert_eq!(value_for('h'), Ok(16));
    assert_eq!(value_for('j'), Ok(17));
    assert_eq!(value_for('u'), Ok(26));
    assert_eq!(value_for('z'), Ok(31));
}

#[test]
fn value_for_refuses_other_characters() {
    for c in ['a', 'i', 'l', 'o', 'A', 'U', 'Z', ' ', '-', '/', ':', '{', '\0', '\u{e9}', '\u{1f600}'] {
        assert_eq!(value_for(c), Err(GeohashError::InvalidSymbol));
    }
}
