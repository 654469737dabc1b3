//! The fixed-point numeric field reader and the integer field readers.
use dpt::num::{parse_u32_str, SCALE};
use dpt::st::parse::parse_csv_number;
use dpt::ErrorKind;

#[test]
fn empty_field_is_zero() {
    assert_eq!(parse_csv_number("").unwrap(), 0);
}

#[test]
fn whole_numbers() {
    assert_eq!(parse_csv_number("5").unwrap(), 5 * SCALE);
    assert_eq!(parse_csv_number("+5").unwrap(), 5 * SCALE);
    assert_eq!(parse_csv_number("-3").unwrap(), -3 * SCALE);
}

#[test]
fn decimal_numbers() {
    assert_eq!(parse_csv_number("50.0").unwrap(), 50 * SCALE);
    assert_eq!(parse_csv_number("3.25").unwrap(), 3 * SCALE + 250_000);
    assert_eq!(parse_csv_number("-0.5").unwrap(), -SCALE / 2);
    assert_eq!(parse_csv_number("5.").unwrap(), 5 * SCALE);
}

#[test]
fn leading_point_gains_a_zero() {
    assert_eq!(parse_csv_number(".5").unwrap(), SCALE / 2);
    assert_eq!(parse_csv_number("-.5").unwrap(), -SCALE / 2);
}

#[test]
fn thousands_separators_are_stripped() {
    assert_eq!(parse_csv_number("1,234.56").unwrap(), 1_234 * SCALE + 560_000);
    assert_eq!(parse_csv_number("1,,2").unwrap(), 12 * SCALE);
}

#[test]
fn residual_text_fails() {
    for bad in ["abc", "5x", "1.2.3", "--5", "-", "1e5", "12.3456789"] {
        let err = parse_csv_number(bad).unwrap_err();
        match err.kind() {
            ErrorKind::FromStr(text, ty) => {
                assert_eq!(text, bad);
                assert_eq!(*ty, "number");
            }
            other => panic!("unexpected error kind: {:?}", other),
        }
    }
}

#[test]
fn bare_point_becomes_zero() {
    // "." gains a zero and reads as "0."
    assert_eq!(parse_csv_number(".").is_err(), false);
    assert_eq!(parse_csv_number(".").unwrap(), 0);
}

#[test]
fn unsigned_fields() {
    assert_eq!(parse_u32_str("123"), Some(123));
    assert_eq!(parse_u32_str("+123"), Some(123));
    assert_eq!(parse_u32_str("004"), Some(4));
    assert_eq!(parse_u32_str(""), None);
    assert_eq!(parse_u32_str("-1"), None);
    assert_eq!(parse_u32_str("4294967295"), Some(u32::MAX));
    assert_eq!(parse_u32_str("4294967296"), None);
}
