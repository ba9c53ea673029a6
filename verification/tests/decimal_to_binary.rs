use geohasher::{decimal_to_binary, value_for};

#[test]
fn test_d2b_zero_case() {
    assert_eq!(decimal_to_binary(0), vec![0, 0, 0, 0, 0]);
}

#[test]
fn test_d2b_basic() {
    assert_eq!(decimal_to_binary(value_for('u').unwrap() as usize), vec![1, 1, 0, 1, 0]);
    assert_eq!(decimal_to_binary(value_for('4').unwrap() as usize), vec![0, 0, 1, 0, 0]);
    assert_eq!(decimal_to_binary(value_for('p').unwrap() as usize), vec![1, 0, 1, 0, 1]);
    assert_eq!(decimal_to_binary(value_for('r').unwrap() as usize), vec![1, 0, 1, 1, 1]);
    assert_eq!(decimal_to_binary(value_for('y').unwrap() as usize), vec![1, 1, 1, 1, 0]);
    assert_eq!(decimal_to_binary(value_for('d').unwrap() as usize), vec![0, 1, 1, 0, 0]);
    assert_eq!(decimal_to_binary(value_for('q').unwrap() as usize), vec![1, 0, 1, 1, 0]);
}

#[test]
fn decimal_to_binary_pads_to_five_digits() {
    assert_eq!(decimal_to_binary(1), vec![0, 0, 0, 0, 1]);
    assert_eq!(decimal_to_binary(2), vec![0, 0, 0, 1, 0]);
    assert_eq!(decimal_to_binary(16), vec![1, 0, 0, 0, 0]);
    assert_eq!(decimal_to_binary(31), vec![1, 1, 1, 1, 1]);
}

#[test]
fn decimal_to_binary_writes_every_digit_of_larger_numbers() {
    assert_eq!(decimal_to_binary(32), vec![1, 0, 0, 0, 0, 0]);
    assert_eq!(decimal_to_binary(37), vec![1, 0, 0, 1, 0, 1]);
    assert_eq!(decimal_to_binary(255), vec![1, 1, 1, 1, 1, 1, 1, 1]);
    assert_eq!(decimal_to_binary(usize::MAX), vec![1; usize::BITS as usize]);
}

#[test]
fn decimal_to_binary_gives_the_bits_of_every_symbol() {
    for value in 0..32usize {
        let bits = decimal_to_binary(value);
        assert_eq!(bits.len(), 5);
        let mut number = 0usize;
        for bit in bits {
            assert!(bit <= 1);
            number = 2 * number + bit as usize;
        }
        assert_eq!(number, value);
    }
}
