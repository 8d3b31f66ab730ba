use griddy::format::format_value;
use griddy::json::CellValue;

#[test]
fn null() {
    assert_eq!(format_value(&CellValue::Null), "null");
}

#[test]
fn bool_true() {
    assert_eq!(format_value(&CellValue::Bool(true)), "true");
}

#[test]
fn bool_false() {
    assert_eq!(format_value(&CellValue::Bool(false)), "false");
}

#[test]
fn number_int() {
    assert_eq!(format_value(&CellValue::Number(String::from("42"))), "42");
}

#[test]
fn number_float() {
    assert_eq!(format_value(&CellValue::Number(String::from("3.14"))), "3.14");
}

#[test]
fn string() {
    assert_eq!(format_value(&CellValue::Text(String::from("hello"))), "hello");
}

#[test]
fn array() {
    assert_eq!(format_value(&CellValue::Array(3)), "[3 items]");
}

#[test]
fn object() {
    assert_eq!(format_value(&CellValue::Object(2)), "{2 keys}");
}

#[test]
fn array_with_two_digit_count() {
    assert_eq!(format_value(&CellValue::Array(12)), "[12 items]");
}

#[test]
fn empty_array_value() {
    assert_eq!(format_value(&CellValue::Array(0)), "[0 items]");
}

#[test]
fn empty_text_stays_empty() {
    assert_eq!(format_value(&CellValue::Text(String::new())), "");
}
