use fills_archive::text::{decimal, signed_decimal};

#[test]
fn decimal_has_no_leading_zeros() {
    assert_eq!(decimal(0), "0");
    assert_eq!(decimal(7), "7");
    assert_eq!(decimal(10), "10");
    assert_eq!(decimal(1_234_567_890), "1234567890");
    assert_eq!(decimal(1_650_000_000_123), "1650000000123");
    assert_eq!(decimal(u64::MAX), "18446744073709551615");
}

#[test]
fn signed_decimal_puts_a_minus_before_negative_numbers() {
    assert_eq!(signed_decimal(0), "0");
    assert_eq!(signed_decimal(42), "42");
    assert_eq!(signed_decimal(-42), "-42");
    assert_eq!(signed_decimal(i64::MAX), "9223372036854775807");
    assert_eq!(signed_decimal(i64::MIN), "-9223372036854775808");
}

#[test]
fn decimal_agrees_with_the_standard_formatting() {
    for n in [0u64, 9, 10, 99, 100, 101, 65_535, 4_294_967_296, u64::MAX - 1] {
        assert_eq!(decimal(n), format!("{}", n));
    }
    for n in [-1i64, -9, -10, -100, 1_704_067_200, i64::MIN + 1] {
        assert_eq!(signed_decimal(n), format!("{}", n));
    }
}
