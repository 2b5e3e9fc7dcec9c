use auction_backfill::decimal::{
    big_decimal_to_u256, spells_zero, u256_from_be_bytes, u256_to_big_decimal, u256_to_big_uint,
    BigDecimal,
};
use auction_backfill::u256::U256;

fn amount(n: u128) -> U256 {
    let mut bytes = [0u8; 32];
    bytes[16..].copy_from_slice(&n.to_be_bytes());
    U256(bytes)
}

fn decimal(negative: bool, unscaled: u128, scale: i64) -> BigDecimal {
    BigDecimal { negative, magnitude: unscaled.to_be_bytes().to_vec(), scale }
}

#[test]
fn amount_to_decimal_has_scale_zero_and_the_same_bytes() {
    let d = u256_to_big_decimal(&amount(20));
    assert!(!d.negative);
    assert_eq!(d.scale, 0);
    assert_eq!(d.magnitude, amount(20).0.to_vec());
    assert_eq!(u256_to_big_uint(&amount(20)).bytes, amount(20).0.to_vec());
}

#[test]
fn amount_round_trips_through_decimal() {
    for v in [amount(0), amount(1), amount(u128::MAX), U256([0xff; 32]), U256([0x80; 32])] {
        assert_eq!(big_decimal_to_u256(&u256_to_big_decimal(&v)), Some(v));
    }
}

#[test]
fn integral_decimals_convert_whatever_their_scale() {
    assert_eq!(big_decimal_to_u256(&decimal(false, 10, 0)), Some(amount(10)));
    assert_eq!(big_decimal_to_u256(&decimal(false, 1000, 2)), Some(amount(10)));
    assert_eq!(big_decimal_to_u256(&decimal(false, 7, -2)), Some(amount(700)));
    assert_eq!(big_decimal_to_u256(&decimal(false, 1, -38)), Some(amount(10u128.pow(38))));
}

#[test]
fn zero_converts_with_any_sign_and_scale() {
    assert_eq!(big_decimal_to_u256(&decimal(false, 0, 0)), Some(amount(0)));
    assert_eq!(big_decimal_to_u256(&decimal(true, 0, 5)), Some(amount(0)));
    assert_eq!(big_decimal_to_u256(&decimal(false, 0, i64::MAX)), Some(amount(0)));
    assert_eq!(big_decimal_to_u256(&decimal(false, 0, i64::MIN)), Some(amount(0)));
    let empty = BigDecimal { negative: false, magnitude: vec![], scale: 3 };
    assert_eq!(big_decimal_to_u256(&empty), Some(amount(0)));
}

#[test]
fn negative_decimals_do_not_convert() {
    assert_eq!(big_decimal_to_u256(&decimal(true, 1, 0)), None);
    assert_eq!(big_decimal_to_u256(&decimal(true, 100, 2)), None);
    assert_eq!(big_decimal_to_u256(&decimal(true, 1, -3)), None);
}

#[test]
fn fractional_decimals_do_not_convert() {
    assert_eq!(big_decimal_to_u256(&decimal(false, 1005, 2)), None);
    assert_eq!(big_decimal_to_u256(&decimal(false, 1, 1)), None);
    assert_eq!(big_decimal_to_u256(&decimal(false, 5, i64::MAX)), None);
    assert_eq!(big_decimal_to_u256(&decimal(false, u128::MAX, 48)), None);
    assert_eq!(big_decimal_to_u256(&decimal(false, u128::MAX, 49)), None);
}

#[test]
fn decimals_beyond_256_bits_do_not_convert() {
    let mut bytes = vec![1u8];
    bytes.extend_from_slice(&[0u8; 32]);
    let limit = BigDecimal { negative: false, magnitude: bytes, scale: 0 };
    assert_eq!(big_decimal_to_u256(&limit), None);
    assert_eq!(big_decimal_to_u256(&decimal(false, 1, -78)), None);
    assert_eq!(big_decimal_to_u256(&decimal(false, 1, i64::MIN)), None);
    assert_eq!(big_decimal_to_u256(&decimal(false, 2, -77)), None);
    let max = BigDecimal { negative: false, magnitude: vec![0xff; 32], scale: 0 };
    assert_eq!(big_decimal_to_u256(&max), Some(U256([0xff; 32])));
}

#[test]
fn the_largest_power_of_ten_below_the_limit_converts() {
    let expected = auction_backfill::u256::parse_hex_or_decimal(&format!("1{}", "0".repeat(77)));
    assert!(expected.is_some());
    assert_eq!(big_decimal_to_u256(&decimal(false, 1, -77)), expected);
}

#[test]
fn a_large_unscaled_number_with_a_positive_scale_converts() {
    // 10^40 with scale 30 is 10^10.
    let digits = auction_backfill::u256::parse_hex_or_decimal(&format!("1{}", "0".repeat(40)))
        .unwrap();
    let d = BigDecimal { negative: false, magnitude: digits.0.to_vec(), scale: 30 };
    assert_eq!(big_decimal_to_u256(&d), Some(amount(10_000_000_000)));
}

#[test]
fn leading_zero_bytes_do_not_count() {
    let mut bytes = vec![0u8; 40];
    bytes.push(9);
    assert_eq!(u256_from_be_bytes(&bytes), Some(amount(9)));
    assert_eq!(u256_from_be_bytes(&[]), Some(amount(0)));
    assert_eq!(u256_from_be_bytes(&[1, 0]), Some(amount(256)));
    let mut over = vec![0u8; 3];
    over.push(1);
    over.extend_from_slice(&[0u8; 32]);
    assert_eq!(u256_from_be_bytes(&over), None);
    assert!(spells_zero(&[0, 0, 0]));
    assert!(spells_zero(&[]));
    assert!(!spells_zero(&[0, 1, 0]));
}
