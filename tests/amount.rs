use kafka_cost::amount::{format_ratio, parse_amount, AmountError, Decimal};

/// The value of little-endian 32-bit limbs, where it fits in 128 bits.
fn value(limbs: &[u32]) -> u128 {
    limbs.iter().rev().fold(0u128, |acc, &l| acc.checked_mul(1 << 32).unwrap() + l as u128)
}

fn read(s: &str) -> (bool, u128, usize) {
    let d: Decimal = parse_amount(s).unwrap();
    (d.negative, value(&d.mantissa), d.scale)
}

#[test]
fn decimal_amounts_are_read_exactly() {
    assert_eq!(read("12.34"), (false, 1234, 2));
    assert_eq!(read("12"), (false, 12, 0));
    assert_eq!(read("0.000000001"), (false, 1, 9));
    assert_eq!(read("0.0000000001"), (false, 1, 10));
    assert_eq!(read("007.50"), (false, 750, 2));
    assert_eq!(read("1.1234567890"), (false, 11_234_567_890, 10));
    assert_eq!(read("99999999999999999999.99"), (false, 9_999_999_999_999_999_999_999, 2));
}

#[test]
fn credits_are_negative_amounts() {
    assert_eq!(read("-5.00"), (true, 500, 2));
    assert_eq!(read("-0.000000001"), (true, 1, 9));
}

#[test]
fn amounts_of_any_size_are_read() {
    let d = parse_amount("123456789012345678901234567890123456789012345678901234567890").unwrap();
    assert_eq!(d.scale, 0);
    assert_eq!(format_ratio(false, &d.mantissa, 0, &vec![1]), "123456789012345678901234567890123456789012345678901234567890.00");
}

#[test]
fn malformed_amounts_are_refused() {
    for s in ["", "1.", ".5", "abc", "1.2.3", "-", "--1", "+1", "1e3", "1,5", " 1", "-.5"] {
        assert_eq!(parse_amount(s), Err(AmountError::Malformed), "{s}");
    }
}

#[test]
fn ratios_are_written_with_two_decimals_rounded_half_up() {
    let m = |s: &str| parse_amount(s).unwrap().mantissa;
    assert_eq!(format_ratio(false, &m("80"), 0, &vec![]), "80.00");
    assert_eq!(format_ratio(false, &m("0"), 3, &vec![7]), "0.00");
    assert_eq!(format_ratio(false, &m("4999"), 6, &vec![]), "0.00");
    assert_eq!(format_ratio(false, &m("5"), 3, &vec![]), "0.01");
    assert_eq!(format_ratio(false, &m("123456"), 3, &vec![]), "123.46");
    assert_eq!(format_ratio(false, &m("100"), 0, &vec![3]), "33.33");
    assert_eq!(format_ratio(false, &m("200"), 0, &vec![3]), "66.67");
    assert_eq!(format_ratio(false, &m("1"), 0, &vec![8]), "0.13");
    assert_eq!(format_ratio(true, &m("5"), 3, &vec![]), "-0.01");
    assert_eq!(format_ratio(true, &m("4999"), 6, &vec![]), "0.00");
    assert_eq!(format_ratio(true, &m("123456"), 3, &vec![]), "-123.46");
}
