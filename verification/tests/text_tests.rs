use ell_http::text::{i64_decimal, u64_decimal, value_debug};
use ell_http::values::LogValue;

#[test]
fn u64_decimal_digits() {
    assert_eq!(u64_decimal(0), "0");
    assert_eq!(u64_decimal(7), "7");
    assert_eq!(u64_decimal(1700000000), "1700000000");
    assert_eq!(u64_decimal(u64::MAX), "18446744073709551615");
}

#[test]
fn i64_decimal_signs() {
    assert_eq!(i64_decimal(-42), "-42");
    assert_eq!(i64_decimal(0), "0");
    assert_eq!(i64_decimal(i64::MIN), "-9223372036854775808");
    assert_eq!(i64_decimal(i64::MAX), "9223372036854775807");
}

#[test]
fn value_debug_matches_column_value_debug() {
    assert_eq!(value_debug(&LogValue::Null), "Null");
    assert_eq!(value_debug(&LogValue::Integer(-5)), "Integer(-5)");
    assert_eq!(value_debug(&LogValue::Text("a\"b".to_string())), "Text(\"a\\\"b\")");
    assert_eq!(value_debug(&LogValue::Text("line\n".to_string())), "Text(\"line\\n\")");
}
