//! Coercion and rendering of single cells.

use excel_parser::{coerce, render_raw, render_value, NormalizedValue, RawCell};

#[test]
fn coerce_keeps_typed_kinds() {
    assert_eq!(
        coerce(&RawCell::Text(String::from("hi"))),
        NormalizedValue::Text(String::from("hi"))
    );
    assert_eq!(coerce(&RawCell::Integer(30)), NormalizedValue::Integer(30));
    assert_eq!(
        coerce(&RawCell::Float(String::from("2.5"))),
        NormalizedValue::Float(String::from("2.5"))
    );
    assert_eq!(coerce(&RawCell::Boolean(true)), NormalizedValue::Boolean(true));
    assert_eq!(
        coerce(&RawCell::Timestamp(String::from("45000.5"))),
        NormalizedValue::Timestamp(String::from("45000.5"))
    );
}

#[test]
fn empty_and_error_coerce_to_null() {
    assert_eq!(coerce(&RawCell::Empty), NormalizedValue::Null);
    assert_eq!(coerce(&RawCell::Error), NormalizedValue::Null);
}

#[test]
fn rendering_round_trips_through_coercion() {
    let cells = vec![
        RawCell::Text(String::from("Are you ready?")),
        RawCell::Integer(30),
        RawCell::Integer(-7),
        RawCell::Float(String::from("3.25")),
        RawCell::Boolean(true),
        RawCell::Boolean(false),
        RawCell::Timestamp(String::from("45000")),
        RawCell::Empty,
        RawCell::Error,
    ];
    for c in &cells {
        assert_eq!(render_value(&coerce(c)), render_raw(c));
    }
}

#[test]
fn integer_rendering_is_decimal() {
    assert_eq!(render_raw(&RawCell::Integer(0)), "0");
    assert_eq!(render_raw(&RawCell::Integer(30)), "30");
    assert_eq!(render_raw(&RawCell::Integer(-7)), "-7");
    assert_eq!(render_raw(&RawCell::Integer(1234567890)), "1234567890");
    assert_eq!(render_raw(&RawCell::Integer(i64::MAX)), "9223372036854775807");
    assert_eq!(render_raw(&RawCell::Integer(i64::MIN)), "-9223372036854775808");
}

#[test]
fn boolean_rendering_is_lowercase_words() {
    assert_eq!(render_raw(&RawCell::Boolean(true)), "true");
    assert_eq!(render_raw(&RawCell::Boolean(false)), "false");
}

#[test]
fn silent_kinds_render_as_empty_string() {
    assert_eq!(render_raw(&RawCell::Empty), "");
    assert_eq!(render_raw(&RawCell::Error), "");
    assert_eq!(render_raw(&RawCell::Timestamp(String::from("45000"))), "");
    assert_eq!(render_value(&NormalizedValue::Null), "");
    assert_eq!(render_value(&NormalizedValue::Timestamp(String::from("1"))), "");
}
