use csv_converter::{convert_field_value, FieldValue};

#[test]
fn value_conversion_test_convert_field_value_integers() {
    let value = convert_field_value("42", "age", false, &[]);
    assert!(matches!(value, FieldValue::Integer(_)));
    if let FieldValue::Integer(n) = value {
        assert_eq!(Some(n), Some(42));
    }
}

#[test]
fn value_conversion_test_convert_field_value_floats() {
    let value = convert_field_value("3.14", "price", false, &[]);
    assert!(matches!(value, FieldValue::Float(_)));
    if let FieldValue::Float(n) = value {
        assert_eq!(n.as_f64(), Some(3.14));
    }
}

#[test]
fn value_conversion_test_convert_field_value_booleans() {
    let value_true = convert_field_value("true", "active", false, &[]);
    assert_eq!(value_true, FieldValue::Bool(true));

    let value_false = convert_field_value("FALSE", "active", false, &[]);
    assert_eq!(value_false, FieldValue::Bool(false));
}

#[test]
fn value_conversion_test_convert_field_value_leading_zeros() {
    let value = convert_field_value("02134", "zipcode", false, &[]);
    assert_eq!(value, FieldValue::Text("02134".to_string()));
}

#[test]
fn value_conversion_test_convert_field_value_decimal_leading_zero() {
    let value = convert_field_value("0.5", "score", false, &[]);
    assert!(matches!(value, FieldValue::Float(_)));
}

#[test]
fn value_conversion_test_convert_field_value_empty_to_null() {
    let value = convert_field_value("", "field", false, &[]);
    assert_eq!(value, FieldValue::Null);
}

#[test]
fn value_conversion_test_convert_field_value_string_fields() {
    let string_fields = vec!["zipcode".to_string()];
    let value = convert_field_value("12345", "zipcode", false, &string_fields);
    assert_eq!(value, FieldValue::Text("12345".to_string()));
}

#[test]
fn value_conversion_test_convert_field_value_no_type_conversion() {
    let value = convert_field_value("42", "age", true, &[]);
    assert_eq!(value, FieldValue::Text("42".to_string()));

    let value = convert_field_value("true", "active", true, &[]);
    assert_eq!(value, FieldValue::Text("true".to_string()));
}

#[test]
fn value_conversion_test_convert_field_value_strings() {
    let value = convert_field_value("Hello World", "name", false, &[]);
    assert_eq!(value, FieldValue::Text("Hello World".to_string()));
}

#[test]
fn value_conversion_test_convert_field_value_negative_numbers() {
    let value = convert_field_value("-42", "temp", false, &[]);
    assert!(matches!(value, FieldValue::Integer(_)));
    if let FieldValue::Integer(n) = value {
        assert_eq!(Some(n), Some(-42));
    }
}
