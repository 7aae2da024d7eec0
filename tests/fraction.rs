use daopay::decimal::{parse_decimal, IntParseError};
use daopay::fraction::{Fraction, FractionError};

#[test]
fn quarter_of_a_thousand() {
    let f = Fraction::from_str("1/4").unwrap();
    assert_eq!(f.to_string(), "1/4");
    assert_eq!(Fraction { num: 1, den: 4 }.mult(1000), 250);
    assert_eq!(f.mult(1000), 250);
}

#[test]
fn fifth_of_a_thousand() {
    let f = Fraction::from_str("1/5").unwrap();
    assert_eq!(f.to_string(), "1/5");
    assert_eq!(f.mult(1000), 200);
}

#[test]
fn zero_denominator_is_invalid() {
    assert_eq!(Fraction { num: 1, den: 0 }.validate(), Err(FractionError::InvalidFraction));
    assert_eq!(Fraction { num: 0, den: 0 }.validate(), Err(FractionError::InvalidFraction));
    assert_eq!(Fraction { num: 5, den: 0 }.validate(), Err(FractionError::InvalidFraction));
}

#[test]
fn numerator_above_denominator_is_invalid() {
    assert_eq!(Fraction { num: 5, den: 4 }.validate(), Err(FractionError::FractionExceedsOne));
    assert_eq!(Fraction { num: u32::MAX, den: 1 }.validate(), Err(FractionError::FractionExceedsOne));
    assert_eq!(Fraction { num: 4, den: 4 }.validate(), Ok(()));
    Fraction { num: 4, den: 4 }.check();
    let f = Fraction::new(3, 4);
    assert_eq!((f.num, f.den), (3, 4));
}

#[test]
fn text_with_zero_denominator_fails() {
    assert_eq!(Fraction::from_str("1/0").unwrap_err(), FractionError::InvalidFraction);
}

#[test]
fn text_with_bad_numerator_fails() {
    assert_eq!(
        Fraction::from_str("abc/2").unwrap_err(),
        FractionError::Int(IntParseError::InvalidDigit)
    );
}

#[test]
fn text_needs_a_single_slash() {
    assert_eq!(Fraction::from_str("12").unwrap_err(), FractionError::MalformedFraction);
    assert_eq!(Fraction::from_str("1/2/3").unwrap_err(), FractionError::MalformedFraction);
    assert_eq!(Fraction::from_str("").unwrap_err(), FractionError::MalformedFraction);
}

#[test]
fn text_term_errors() {
    assert_eq!(Fraction::from_str("/4").unwrap_err(), FractionError::Int(IntParseError::Empty));
    assert_eq!(Fraction::from_str("1/").unwrap_err(), FractionError::Int(IntParseError::Empty));
    assert_eq!(
        Fraction::from_str("1/4294967296").unwrap_err(),
        FractionError::Int(IntParseError::Overflow)
    );
    assert_eq!(
        Fraction::from_str("1/+").unwrap_err(),
        FractionError::Int(IntParseError::InvalidDigit)
    );
    assert_eq!(
        Fraction::from_str("5/4").unwrap_err(),
        FractionError::FractionExceedsOne
    );
    let f = Fraction::from_str("+3/4294967295").unwrap();
    assert_eq!((f.num, f.den), (3, u32::MAX));
}

#[test]
fn text_round_trip() {
    for (num, den) in [(0u32, 1u32), (1, 2), (3, 7), (u32::MAX, u32::MAX), (12345, 4000000000)] {
        let f = Fraction::new(num, den);
        let g = Fraction::from_str(&f.to_string()).unwrap();
        assert_eq!((g.num, g.den), (num, den));
        assert!(f.share_eq(&g));
    }
    assert_eq!(Fraction::new(12345, 4000000000).to_string(), "12345/4000000000");
}

#[test]
fn scaling_is_monotonic_and_bounded() {
    let f = Fraction::new(2, 3);
    let mut last = 0u128;
    for b in [0u128, 1, 2, 3, 10, 1000, 1 << 100, u128::MAX] {
        let v = f.mult(b);
        assert!(v >= last);
        assert!(v <= b);
        last = v;
    }
    assert_eq!(f.mult(10), 6);
}

#[test]
fn scaling_at_the_extremes() {
    assert_eq!(Fraction { num: u32::MAX, den: u32::MAX }.mult(u128::MAX), u128::MAX);
    assert_eq!(
        Fraction { num: 1, den: u32::MAX }.mult(u128::MAX),
        (1u128 << 96) + (1u128 << 64) + (1u128 << 32) + 1
    );
    assert_eq!(Fraction { num: u32::MAX - 1, den: u32::MAX }.mult(u128::MAX), u128::MAX - (u128::MAX / u32::MAX as u128));
    assert_eq!(Fraction { num: 0, den: 1 }.mult(u128::MAX), 0);
}

#[test]
fn equality_and_order_by_scaled_value() {
    let half = Fraction::new(1, 2);
    let two_quarters = Fraction::new(2, 4);
    let third = Fraction::new(1, 3);
    assert!(half.share_eq(&two_quarters));
    assert!(!half.share_eq(&third));
    assert_eq!(half.share_cmp(&two_quarters), std::cmp::Ordering::Equal);
    assert_eq!(third.share_cmp(&half), std::cmp::Ordering::Less);
    assert_eq!(half.share_cmp(&third), std::cmp::Ordering::Greater);
}

#[test]
fn decimal_parsing() {
    assert_eq!(parse_decimal("0", 9), Ok(0));
    assert_eq!(parse_decimal("+17", 100), Ok(17));
    assert_eq!(parse_decimal("", 100), Err(IntParseError::Empty));
    assert_eq!(parse_decimal("-1", 100), Err(IntParseError::InvalidDigit));
    assert_eq!(parse_decimal("101", 100), Err(IntParseError::Overflow));
    assert_eq!(parse_decimal("1000x", 100), Err(IntParseError::Overflow));
    assert_eq!(parse_decimal("10x0", 100), Err(IntParseError::InvalidDigit));
    assert_eq!(
        parse_decimal("340282366920938463463374607431768211455", u128::MAX),
        Ok(u128::MAX)
    );
    assert_eq!(
        parse_decimal("340282366920938463463374607431768211456", u128::MAX),
        Err(IntParseError::Overflow)
    );
}
