use blabla::text::{chars_of, i64_to_decimal, u64_to_decimal};

#[test]
fn decimal_of_zero() {
    assert_eq!(u64_to_decimal(0), "0");
}

#[test]
fn decimal_of_unsigned_numbers() {
    assert_eq!(u64_to_decimal(7), "7");
    assert_eq!(u64_to_decimal(10), "10");
    assert_eq!(u64_to_decimal(1234567890), "1234567890");
    assert_eq!(u64_to_decimal(u64::MAX), u64::MAX.to_string());
}

#[test]
fn decimal_of_signed_numbers() {
    assert_eq!(i64_to_decimal(-5), "-5");
    assert_eq!(i64_to_decimal(42), "42");
    assert_eq!(i64_to_decimal(0), "0");
    assert_eq!(i64_to_decimal(i64::MIN), i64::MIN.to_string());
    assert_eq!(i64_to_decimal(i64::MAX), i64::MAX.to_string());
}

#[test]
fn chars_in_order() {
    let v = chars_of("héllo ✓");
    assert_eq!(v, vec!['h', 'é', 'l', 'l', 'o', ' ', '✓']);
}
