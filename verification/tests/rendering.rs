use griddy::json::ParsedRow;
use griddy::parse::parse_json;
use griddy::glyphs::table_chars;
use griddy::render::{render_bottom_border, render_separator, render_table, render_top_border, try_render_table};

#[test]
fn empty_input() {
    let rows: Vec<ParsedRow> = vec![];
    assert_eq!(render_table(&rows, false, false), "");
}

#[test]
fn single_row() {
    let rows = parse_json(r#"{"name": "Alice", "age": 30}"#).unwrap();
    let expected = "╭───────┬─────╮\n\
                    │ name  │ age │\n\
                    ├───────┼─────┤\n\
                    │ Alice │ 30  │\n\
                    ╰───────┴─────╯\n";
    assert_eq!(render_table(&rows, false, false), expected);
}

#[test]
fn single_row_ascii() {
    let rows = parse_json(r#"{"name": "Alice", "age": 30}"#).unwrap();
    let expected = "+-------+-----+\n\
                    | name  | age |\n\
                    +-------+-----+\n\
                    | Alice | 30  |\n\
                    +-------+-----+\n";
    assert_eq!(render_table(&rows, true, false), expected);
}

#[test]
fn multiple_rows() {
    let rows = parse_json(
        r#"[{"name": "Alice", "age": 30},
            {"name": "Bob", "age": 25},
            {"name": "Charlie", "age": 35}]"#,
    )
    .unwrap();
    let expected = "╭─────────┬─────╮\n\
                    │ name    │ age │\n\
                    ├─────────┼─────┤\n\
                    │ Alice   │ 30  │\n\
                    │ Bob     │ 25  │\n\
                    │ Charlie │ 35  │\n\
                    ╰─────────┴─────╯\n";
    assert_eq!(render_table(&rows, false, false), expected);
}

#[test]
fn multiple_rows_with_stripe() {
    let rows = parse_json(
        r#"[{"name": "Alice", "age": 30},
            {"name": "Bob", "age": 25},
            {"name": "Charlie", "age": 35},
            {"name": "Diana", "age": 28}]"#,
    )
    .unwrap();
    let expected = "╭─────────┬─────╮\n\
                    │ \u{1b}[1mname\u{1b}[0m    │ \u{1b}[1mage\u{1b}[0m │\n\
                    ├─────────┼─────┤\n\
                    │ Alice   │ 30  │\n\
                    \u{1b}[2m│ Bob     │ 25  │\u{1b}[0m\n\
                    │ Charlie │ 35  │\n\
                    \u{1b}[2m│ Diana   │ 28  │\u{1b}[0m\n\
                    ╰─────────┴─────╯\n";
    assert_eq!(render_table(&rows, false, true), expected);
}

#[test]
fn sparse_data() {
    let rows = parse_json(r#"[{"a": 1}, {"b": 2}, {"a": 3, "b": 4}]"#).unwrap();
    let expected = "╭───┬───╮\n\
                    │ a │ b │\n\
                    ├───┼───┤\n\
                    │ 1 │   │\n\
                    │   │ 2 │\n\
                    │ 3 │ 4 │\n\
                    ╰───┴───╯\n";
    assert_eq!(render_table(&rows, false, false), expected);
}

#[test]
fn nested_values() {
    let rows = parse_json(r#"[{"data": [1, 2, 3], "meta": {"x": 1}}]"#).unwrap();
    let expected = "╭───────────┬──────────╮\n\
                    │ data      │ meta     │\n\
                    ├───────────┼──────────┤\n\
                    │ [3 items] │ {1 keys} │\n\
                    ╰───────────┴──────────╯\n";
    assert_eq!(render_table(&rows, false, false), expected);
}

#[test]
fn column_order_is_first_seen() {
    let rows = parse_json(r#"[{"b": 1}, {"a": 2}]"#).unwrap();
    let expected = "╭───┬───╮\n\
                    │ b │ a │\n\
                    ├───┼───┤\n\
                    │ 1 │   │\n\
                    │   │ 2 │\n\
                    ╰───┴───╯\n";
    assert_eq!(render_table(&rows, false, false), expected);
}

#[test]
fn line_count_is_rows_plus_four() {
    let rows = parse_json(r#"[{"a": 1}, {"a": 2}, {"a": 3}]"#).unwrap();
    let out = render_table(&rows, false, false);
    assert_eq!(out.matches('\n').count(), 3 + 4);
}

#[test]
fn wide_characters_pad_by_display_width() {
    let rows = parse_json(r#"[{"名前": "テスト"}]"#).unwrap();
    let expected = "╭────────╮\n\
                    │ 名前   │\n\
                    ├────────┤\n\
                    │ テスト │\n\
                    ╰────────╯\n";
    assert_eq!(render_table(&rows, false, false), expected);
}

#[test]
fn stripe_dims_odd_rows_only() {
    let rows = parse_json(
        r#"[{"a": 1}, {"a": 2}, {"a": 3}, {"a": 4}]"#,
    )
    .unwrap();
    let out = render_table(&rows, false, true);
    let lines: Vec<&str> = out.lines().collect();
    assert_eq!(lines.len(), 8);
    assert!(!lines[3].starts_with("\u{1b}[2m"));
    assert!(lines[4].starts_with("\u{1b}[2m"));
    assert!(lines[4].ends_with("\u{1b}[0m"));
    assert!(!lines[5].starts_with("\u{1b}[2m"));
    assert!(lines[6].starts_with("\u{1b}[2m"));
}

#[test]
fn header_bold_independent_of_stripe_parity() {
    let rows = parse_json(r#"[{"a": 1}]"#).unwrap();
    let out = render_table(&rows, false, true);
    let lines: Vec<&str> = out.lines().collect();
    assert!(lines[1].contains("\u{1b}[1ma\u{1b}[0m"));
    assert!(!lines[1].starts_with("\u{1b}[2m"));
}

#[test]
fn empty_object_renders_nothing() {
    let rows = parse_json("{}").unwrap();
    assert_eq!(rows.len(), 1);
    assert_eq!(render_table(&rows, false, false), "");
}

#[test]
fn float_number_text_preserved_through_pipeline() {
    let rows = parse_json(r#"[{"x": 3.14}]"#).unwrap();
    let out = render_table(&rows, false, false);
    assert!(out.contains(" 3.14 "));
}

#[test]
fn try_render_matches_render() {
    let rows = parse_json(r#"[{"a": 1}, {"b": 2}]"#).unwrap();
    let direct = render_table(&rows, true, false);
    let checked = try_render_table(&rows, true, false).unwrap();
    assert_eq!(direct, checked);
}

#[test]
fn non_object_array_element_renders_empty_row() {
    let rows = parse_json(r#"[{"a": 1}, 7]"#).unwrap();
    let out = render_table(&rows, false, false);
    let lines: Vec<&str> = out.lines().collect();
    assert_eq!(lines[4], "│");
}

#[test]
fn empty_array_renders_empty() {
    let rows = parse_json("[]").unwrap();
    assert_eq!(rows.len(), 0);
    assert_eq!(render_table(&rows, false, false), "");
}

#[test]
fn borders_allot_width_plus_two() {
    let chars = table_chars(true);
    let widths: Vec<usize> = vec![3, 1];
    assert_eq!(render_top_border(&widths, &chars), "+-----+---+\n");
    assert_eq!(render_separator(&widths, &chars), "+-----+---+\n");
    assert_eq!(render_bottom_border(&widths, &chars), "+-----+---+\n");
}

#[test]
fn unicode_border_glyphs() {
    let chars = table_chars(false);
    let widths: Vec<usize> = vec![1, 1];
    assert_eq!(render_top_border(&widths, &chars), "╭───┬───╮\n");
    assert_eq!(render_separator(&widths, &chars), "├───┼───┤\n");
    assert_eq!(render_bottom_border(&widths, &chars), "╰───┴───╯\n");
}
