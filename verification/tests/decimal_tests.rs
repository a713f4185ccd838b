use binance_ws::decimal::{parse_bytes, parse_decimal, Decimal, SCALE};

fn units(text: &str) -> Option<i128> {
    parse_decimal(text).map(|d| d.units)
}

#[test]
fn whole_numbers_are_read() {
    assert_eq!(units("0"), Some(0));
    assert_eq!(units("7"), Some(7 * SCALE));
    assert_eq!(units("50000"), Some(50000 * SCALE));
}

#[test]
fn fractions_are_read_exactly() {
    assert_eq!(units("0.5"), Some(SCALE / 2));
    assert_eq!(units("0.25"), Some(SCALE / 4));
    assert_eq!(units("49123.37"), Some(49123 * SCALE + 370_000_000_000_000_000));
    assert_eq!(units("50000.00"), Some(50000 * SCALE));
    assert_eq!(units("0.000000000000000001"), Some(1));
}

#[test]
fn a_point_may_stand_first_or_last() {
    assert_eq!(units(".5"), Some(SCALE / 2));
    assert_eq!(units("5."), Some(5 * SCALE));
}

#[test]
fn signs_are_read() {
    assert_eq!(units("+1.5"), Some(SCALE + SCALE / 2));
    assert_eq!(units("-1.5"), Some(-(SCALE + SCALE / 2)));
    assert_eq!(units("-0"), Some(0));
}

#[test]
fn digits_past_the_eighteenth_place_are_dropped() {
    assert_eq!(units("0.2500000000000000009"), Some(SCALE / 4));
    assert_eq!(units("1.0000000000000000000000"), Some(SCALE));
}

#[test]
fn text_that_is_no_numeral_is_refused() {
    assert_eq!(units(""), None);
    assert_eq!(units("."), None);
    assert_eq!(units("-"), None);
    assert_eq!(units("+."), None);
    assert_eq!(units("abc"), None);
    assert_eq!(units("1.2.3"), None);
    assert_eq!(units("1e5"), None);
    assert_eq!(units(" 1"), None);
    assert_eq!(units("1 "), None);
    assert_eq!(units("--1"), None);
    assert_eq!(units("1,5"), None);
    assert_eq!(units("NaN"), None);
    assert_eq!(units("１"), None);
}

#[test]
fn a_whole_part_of_nineteen_digits_is_refused() {
    assert_eq!(units("999999999999999999"), Some(999_999_999_999_999_999 * SCALE));
    assert_eq!(units("1000000000000000000"), None);
    assert_eq!(units("0000000000000000000001"), Some(SCALE));
    assert_eq!(units("99999999999999999999999999999999999999999999"), None);
}

#[test]
fn bytes_and_text_agree() {
    assert_eq!(parse_bytes(b"12.75").map(|d| d.units), units("12.75"));
    assert_eq!(parse_bytes(&[0xff, 0x31]).map(|d| d.units), None);
}

#[test]
fn magnitude_drops_the_sign() {
    assert_eq!(Decimal { units: 5 }.magnitude(), 5);
    assert_eq!(Decimal { units: -5 }.magnitude(), 5);
    assert_eq!(Decimal { units: 0 }.magnitude(), 0);
    assert_eq!(Decimal { units: i128::MAX }.magnitude(), i128::MAX as u128);
    assert_eq!(Decimal { units: i128::MIN }.magnitude(), 1u128 << 127);
}

#[test]
fn distance_is_symmetric_and_never_overflows() {
    let d = |a: i128, b: i128| Decimal { units: a }.distance(&Decimal { units: b });
    assert_eq!(d(3, 10), 7);
    assert_eq!(d(10, 3), 7);
    assert_eq!(d(-3, 10), 13);
    assert_eq!(d(10, -3), 13);
    assert_eq!(d(-10, -3), 7);
    assert_eq!(d(4, 4), 0);
    assert_eq!(d(i128::MIN, i128::MAX), u128::MAX);
    assert_eq!(d(i128::MAX, i128::MIN), u128::MAX);
    assert_eq!(d(i128::MIN, 0), 1u128 << 127);
}

#[test]
fn products_are_exact() {
    let times = |a: &str, b: &str| {
        parse_decimal(a).unwrap().times(&parse_decimal(b).unwrap()).map(|d| d.units)
    };
    assert_eq!(times("2", "3"), Some(6 * SCALE));
    assert_eq!(times("50000.0", "5"), Some(250_000 * SCALE));
    assert_eq!(times("49999.37", "3.3"), units("164997.921"));
    assert_eq!(times("0.5", "0.5"), Some(SCALE / 4));
    assert_eq!(times("-1.5", "2"), Some(-3 * SCALE));
    assert_eq!(times("-1.5", "-2"), Some(3 * SCALE));
    assert_eq!(times("0", "-2"), Some(0));
    assert_eq!(times("123456789.123456789", "987654321.987654321"), units("121932631356500531.347203169112635269"));
}

#[test]
fn products_are_rounded_toward_zero() {
    let times = |a: &str, b: &str| {
        parse_decimal(a).unwrap().times(&parse_decimal(b).unwrap()).map(|d| d.units)
    };
    // 10^-18 times 0.9 is below the smallest unit.
    assert_eq!(times("0.000000000000000001", "0.9"), Some(0));
    assert_eq!(times("-0.000000000000000001", "0.9"), Some(0));
    assert_eq!(times("0.000000000000000003", "0.5"), Some(1));
    assert_eq!(times("-0.000000000000000003", "0.5"), Some(-1));
}

#[test]
fn products_that_do_not_fit_are_refused() {
    let big = parse_decimal("999999999999999999").unwrap();
    // Just below 10^36 wholes, which is 10^54 units: far above what fits.
    assert_eq!(big.times(&big), None);
    let limit = Decimal { units: i128::MAX };
    let one = parse_decimal("1").unwrap();
    assert_eq!(limit.times(&one), Some(limit));
    assert_eq!(limit.times(&parse_decimal("-1").unwrap()), Some(Decimal { units: -i128::MAX }));
    assert_eq!(limit.times(&parse_decimal("1.000000000000000001").unwrap()), None);
    assert_eq!(Decimal { units: i128::MIN }.times(&one), None);
    assert_eq!(limit.times(&parse_decimal("2").unwrap()), None);
    assert_eq!(limit.times(&limit), None);
}

#[test]
fn parts_are_the_sizes_of_the_integer_and_fractional_part() {
    assert_eq!(parse_decimal("49123.37").unwrap().parts(), (49123, 370_000_000_000_000_000));
    assert_eq!(parse_decimal("-49123.37").unwrap().parts(), (49123, 370_000_000_000_000_000));
    assert_eq!(parse_decimal("0.5").unwrap().parts(), (0, 500_000_000_000_000_000));
    assert_eq!(parse_decimal("7").unwrap().parts(), (7, 0));
    assert_eq!(Decimal { units: i128::MIN }.parts().0, (1u128 << 127) / (SCALE as u128));
}
