use griddy::json::ParsedRow;
use griddy::parse::{parse_json, TableError};

#[test]
fn array_of_objects() {
    let input = r#"[{"a": 1}, {"a": 2}]"#;
    let rows = parse_json(input).unwrap();
    assert_eq!(rows.len(), 2);
}

#[test]
fn single_object() {
    let input = r#"{"a": 1, "b": 2}"#;
    let rows = parse_json(input).unwrap();
    assert_eq!(rows.len(), 1);
}

#[test]
fn jsonl() {
    let input = "{\"a\": 1}\n{\"a\": 2}\n{\"a\": 3}";
    let rows = parse_json(input).unwrap();
    assert_eq!(rows.len(), 3);
}

#[test]
fn jsonl_with_blank_lines() {
    let input = "{\"a\": 1}\n\n{\"a\": 2}\n";
    let rows = parse_json(input).unwrap();
    assert_eq!(rows.len(), 2);
}

#[test]
fn jsonl_with_whitespace_lines() {
    let input = "{\"a\": 1}\n   \t \n{\"a\": 2}";
    let rows = parse_json(input).unwrap();
    assert_eq!(rows.len(), 2);
}

#[test]
fn bare_scalar_is_shape_error() {
    let r = parse_json("42");
    assert!(matches!(r, Err(TableError::UnexpectedShape)));
}

#[test]
fn bare_string_is_shape_error() {
    let r = parse_json("\"hello\"");
    assert!(matches!(r, Err(TableError::UnexpectedShape)));
}

#[test]
fn jsonl_non_object_line_is_shape_error() {
    let input = "[1, 2]\n{\"a\": 1}";
    let r = parse_json(input);
    assert!(matches!(r, Err(TableError::UnexpectedShape)));
}

#[test]
fn jsonl_malformed_line_is_invalid_json() {
    let input = "{\"a\": 1}\n{bad";
    let r = parse_json(input);
    assert!(matches!(r, Err(TableError::InvalidJson(_))));
}

#[test]
fn array_keeps_non_object_elements_as_rows() {
    let input = r#"[{"a": 1}, 7]"#;
    let rows = parse_json(input).unwrap();
    assert_eq!(rows.len(), 2);
    assert!(matches!(rows[1], ParsedRow::Other));
}

#[test]
fn empty_text_gives_no_rows() {
    let rows = parse_json("").unwrap();
    assert_eq!(rows.len(), 0);
}

#[test]
fn unicode_whitespace_line_is_blank() {
    let input = "{\"a\": 1}\n\u{3000}\u{a0}\n{\"a\": 2}";
    let rows = parse_json(input).unwrap();
    assert_eq!(rows.len(), 2);
}
