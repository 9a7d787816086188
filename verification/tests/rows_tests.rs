use csv_converter::{
    convert_csv_to_ndjson,
    CellError,
    CellValue,
    ConvertError,
    CsvParser,
    FieldValue,
    Parser,
    RowConverter,
    Terminator,
    XlsxParser,
};
use csv_converter::json::to_json_line;
use csv_converter::parsers::{make_column_label, progress_due};
use csv_converter::parsers::xlsx::{convert_cell, datatype_to_string};
use csv_converter::text::{
    eq_ignore_ascii_case,
    is_word,
    lower,
    push_decimal,
    push_signed_decimal,
    str_eq,
};

fn strings(items: &[&str]) -> Vec<String> {
    items.iter().map(|s| s.to_string()).collect()
}

fn csv_parser() -> CsvParser {
    CsvParser::new(b',', b'"', None, Terminator::CRLF)
}

fn csv_line(headers: &[&str], fields: &[&str]) -> String {
    let object = csv_parser().convert_row(&strings(headers), &strings(fields), false, &[]);
    to_json_line(&object).unwrap()
}

fn some_text(s: &str) -> Option<CellValue> {
    Some(CellValue::Text(s.to_string()))
}

#[test]
fn test_record_round_trip_keeps_header_order() {
    assert_eq!(csv_line(&["a", "b"], &["1", "x"]), r#"{"a":1,"b":"x"}"#);
    assert_eq!(
        csv_line(&["z", "y", "x", "a"], &["1", "2", "3", "4"]),
        r#"{"z":1,"y":2,"x":3,"a":4}"#
    );
}

#[test]
fn test_short_record_lacks_trailing_keys() {
    assert_eq!(csv_line(&["a", "b", "c"], &["1"]), r#"{"a":1}"#);
    assert_eq!(csv_line(&["a", "b", "c"], &["1", "x"]), r#"{"a":1,"b":"x"}"#);
    assert_eq!(csv_line(&["a", "b", "c"], &[]), r#"{}"#);
    let object = csv_parser().convert_row(&strings(&["a", "b", "c"]), &strings(&["1"]), false, &[]);
    assert_eq!(object.len(), 1);
    assert!(object.contains_key("a"));
    assert!(!object.contains_key("b"));
    assert!(!object.contains_key("c"));
}

#[test]
fn test_long_record_gets_made_up_column_names() {
    assert_eq!(
        csv_line(&["a"], &["1", "x", "true"]),
        r#"{"a":1,"column_1":"x","column_2":true}"#
    );
    assert_eq!(csv_line(&[], &["1"]), r#"{"column_0":1}"#);
}

#[test]
fn test_last_field_of_a_repeated_column_wins_in_the_first_place() {
    assert_eq!(
        csv_line(&["a", "b", "a"], &["1", "2", "3"]),
        r#"{"a":3,"b":2}"#
    );
    assert_eq!(
        csv_line(&["column_1"], &["1", "2"]),
        r#"{"column_1":2}"#
    );
}

#[test]
fn test_values_in_json_text() {
    assert_eq!(
        csv_line(
            &["n", "b", "i", "f", "s", "z", "q"],
            &["", "TRUE", "-100", "19.99", "text", "02134", "say \"hi\""]
        ),
        r#"{"n":null,"b":true,"i":-100,"f":19.99,"s":"text","z":"02134","q":"say \"hi\""}"#
    );
    assert_eq!(csv_line(&["f"], &["0.0"]), r#"{"f":0.0}"#);
    assert_eq!(csv_line(&["f"], &["29.50"]), r#"{"f":29.5}"#);
    assert_eq!(csv_line(&["f"], &["1e3"]), r#"{"f":1000.0}"#);
}

#[test]
fn test_make_column_label() {
    assert_eq!(make_column_label(0), "column_0");
    assert_eq!(make_column_label(7), "column_7");
    assert_eq!(make_column_label(10), "column_10");
    assert_eq!(make_column_label(12345), "column_12345");
    assert_eq!(make_column_label(usize::MAX), format!("column_{}", usize::MAX));
}

#[test]
fn test_decimal_text() {
    for n in [0u64, 1, 9, 10, 11, 99, 100, 101, 1234567890, u64::MAX] {
        let mut out = String::from(">");
        push_decimal(&mut out, n);
        assert_eq!(out, format!(">{}", n));
    }
    for i in [0i64, 1, -1, 9, -9, 10, -10, 42, -100, i64::MAX, i64::MIN, i64::MIN + 1] {
        let mut out = String::from(">");
        push_signed_decimal(&mut out, i);
        assert_eq!(out, format!(">{}", i));
    }
}

#[test]
fn test_text_helpers() {
    assert_eq!(lower(b'A'), b'a');
    assert_eq!(lower(b'Z'), b'z');
    assert_eq!(lower(b'a'), b'a');
    assert_eq!(lower(b'@'), b'@');
    assert_eq!(lower(b'['), b'[');
    assert_eq!(lower(0xc9), 0xc9);
    assert!(eq_ignore_ascii_case(b"TrUe", b"true"));
    assert!(eq_ignore_ascii_case(b"", b""));
    assert!(!eq_ignore_ascii_case(b"tru", b"true"));
    assert!(!eq_ignore_ascii_case(b"trux", b"true"));
    assert!(!eq_ignore_ascii_case(b"@", b"`"));
    assert!(is_word("CSV", "csv"));
    assert!(!is_word("csv ", "csv"));
    assert!(str_eq("abc", "abc"));
    assert!(str_eq("", ""));
    assert!(!str_eq("abc", "abd"));
    assert!(!str_eq("abc", "ab"));
    assert!(!str_eq("abc", "ABC"));
    assert!(str_eq("\u{e9}t\u{e9}", "\u{e9}t\u{e9}"));
}

#[test]
fn test_progress_is_due_every_ten_thousand_records() {
    assert!(progress_due(10000));
    assert!(progress_due(20000));
    assert!(progress_due(0));
    assert!(!progress_due(1));
    assert!(!progress_due(9999));
    assert!(!progress_due(10001));
}

#[test]
fn test_csv_parser_new_keeps_the_dialect() {
    let parser = CsvParser::new(b';', b'\'', Some(b'\\'), Terminator::LF);
    assert_eq!(parser.delimiter, b';');
    assert_eq!(parser.quote, b'\'');
    assert_eq!(parser.escape, Some(b'\\'));
    assert_eq!(parser.terminator, Terminator::LF);
    assert!(!parser.doubles_quotes());
    assert!(csv_parser().doubles_quotes());
}

#[test]
fn test_convert_to_ndjson_gives_one_line_per_data_row() {
    let rows = vec![
        strings(&["name", "age", "active"]),
        strings(&["Alice", "30", "true"]),
        strings(&["Bob", "25"]),
        strings(&[]),
        strings(&["Eve", "", "no", "extra"]),
    ];
    let lines = csv_parser().convert_to_ndjson(&rows, false, &[]).unwrap();
    assert_eq!(
        lines,
        vec![
            r#"{"name":"Alice","age":30,"active":true}"#.to_string(),
            r#"{"name":"Bob","age":25}"#.to_string(),
            r#"{}"#.to_string(),
            r#"{"name":"Eve","age":null,"active":"no","column_3":"extra"}"#.to_string(),
        ]
    );
    assert_eq!(convert_csv_to_ndjson(&rows, false, &[]), Ok(lines));
    let kept = convert_csv_to_ndjson(&rows, true, &[]).unwrap();
    assert_eq!(kept[0], r#"{"name":"Alice","age":"30","active":"true"}"#);
    let listed = convert_csv_to_ndjson(&rows, false, &strings(&["age"])).unwrap();
    assert_eq!(listed[0], r#"{"name":"Alice","age":"30","active":true}"#);
}

#[test]
fn test_convert_to_ndjson_without_data_rows() {
    let none: Vec<Vec<String>> = Vec::new();
    assert_eq!(csv_parser().convert_to_ndjson(&none, false, &[]), Ok(Vec::new()));
    let header_only = vec![strings(&["a", "b"])];
    assert_eq!(
        csv_parser().convert_to_ndjson(&header_only, false, &[]),
        Ok(Vec::new())
    );
    let grid: Vec<Vec<Option<CellValue>>> = Vec::new();
    assert_eq!(XlsxParser::new().convert_to_ndjson(&grid, false, &[]), Ok(Vec::new()));
}

#[test]
fn test_datatype_to_string() {
    assert_eq!(datatype_to_string(&CellValue::Int(42)), "42");
    assert_eq!(datatype_to_string(&CellValue::Int(-7)), "-7");
    assert_eq!(datatype_to_string(&CellValue::Int(0)), "0");
    assert_eq!(datatype_to_string(&CellValue::Int(i64::MIN)), i64::MIN.to_string());
    assert_eq!(datatype_to_string(&CellValue::Int(i64::MAX)), i64::MAX.to_string());
    assert_eq!(datatype_to_string(&CellValue::Float("2.5".to_string())), "2.5");
    assert_eq!(datatype_to_string(&CellValue::Text("abc".to_string())), "abc");
    assert_eq!(datatype_to_string(&CellValue::Bool(true)), "true");
    assert_eq!(datatype_to_string(&CellValue::Bool(false)), "false");
    assert_eq!(datatype_to_string(&CellValue::DateTime("44197".to_string())), "44197");
    assert_eq!(datatype_to_string(&CellValue::Duration("0.5".to_string())), "0.5");
    assert_eq!(
        datatype_to_string(&CellValue::DateTimeIso("2021-01-01T00:00:00".to_string())),
        "2021-01-01T00:00:00"
    );
    assert_eq!(datatype_to_string(&CellValue::DurationIso("PT1H".to_string())), "PT1H");
    assert_eq!(datatype_to_string(&CellValue::Empty), "");
    assert_eq!(datatype_to_string(&CellValue::Error(CellError::Div0)), "ERROR: Div0");
    assert_eq!(datatype_to_string(&CellValue::Error(CellError::NA)), "ERROR: NA");
    assert_eq!(datatype_to_string(&CellValue::Error(CellError::Name)), "ERROR: Name");
    assert_eq!(datatype_to_string(&CellValue::Error(CellError::Null)), "ERROR: Null");
    assert_eq!(datatype_to_string(&CellValue::Error(CellError::Num)), "ERROR: Num");
    assert_eq!(datatype_to_string(&CellValue::Error(CellError::Ref)), "ERROR: Ref");
    assert_eq!(datatype_to_string(&CellValue::Error(CellError::Value)), "ERROR: Value");
    assert_eq!(
        datatype_to_string(&CellValue::Error(CellError::GettingData)),
        "ERROR: GettingData"
    );
    for error in [CellError::Div0, CellError::GettingData, CellError::NA] {
        assert_eq!(
            datatype_to_string(&CellValue::Error(error)),
            format!("ERROR: {:?}", error)
        );
    }
}

#[test]
fn test_convert_cell() {
    assert_eq!(convert_cell(None, "c", false, &[]), FieldValue::Null);
    assert_eq!(convert_cell(Some(&CellValue::Empty), "c", false, &[]), FieldValue::Null);
    assert_eq!(convert_cell(Some(&CellValue::Empty), "c", true, &[]), FieldValue::Null);
    assert_eq!(
        convert_cell(Some(&CellValue::Int(42)), "c", false, &[]),
        FieldValue::Integer(42)
    );
    assert_eq!(
        convert_cell(Some(&CellValue::Float("42".to_string())), "c", false, &[]),
        FieldValue::Integer(42)
    );
    assert_eq!(
        convert_cell(Some(&CellValue::Bool(true)), "c", false, &[]),
        FieldValue::Bool(true)
    );
    assert_eq!(
        convert_cell(Some(&CellValue::Text("02134".to_string())), "c", false, &[]),
        FieldValue::Text("02134".to_string())
    );
    assert_eq!(
        convert_cell(Some(&CellValue::Text(String::new())), "c", false, &[]),
        FieldValue::Null
    );
    assert_eq!(
        convert_cell(Some(&CellValue::Int(42)), "c", true, &[]),
        FieldValue::Text("42".to_string())
    );
    assert_eq!(
        convert_cell(Some(&CellValue::Bool(false)), "c", false, &strings(&["c"])),
        FieldValue::Text("false".to_string())
    );
    assert_eq!(
        convert_cell(Some(&CellValue::Error(CellError::Ref)), "c", false, &[]),
        FieldValue::Text("ERROR: Ref".to_string())
    );
}

#[test]
fn test_sheet_rows_have_every_column() {
    let grid = vec![
        vec![
            some_text("id"),
            some_text("name"),
            None,
            Some(CellValue::Int(7)),
            Some(CellValue::Empty),
        ],
        vec![
            Some(CellValue::Float("42".to_string())),
            some_text("Alice"),
            Some(CellValue::Bool(true)),
            Some(CellValue::Empty),
            Some(CellValue::Float("2.5".to_string())),
        ],
        vec![Some(CellValue::Int(2)), None],
        vec![],
    ];
    let parser = XlsxParser::new();
    assert_eq!(
        parser.header_names(&grid[0]),
        strings(&["id", "name", "column_2", "7", ""])
    );
    let lines = parser.convert_to_ndjson(&grid, false, &[]).unwrap();
    assert_eq!(
        lines,
        vec![
            r#"{"id":42,"name":"Alice","column_2":true,"7":null,"":2.5}"#.to_string(),
            r#"{"id":2,"name":null,"column_2":null,"7":null,"":null}"#.to_string(),
            r#"{"id":null,"name":null,"column_2":null,"7":null,"":null}"#.to_string(),
        ]
    );
}

#[test]
fn test_sheet_row_ignores_cells_beyond_the_columns() {
    let parser = XlsxParser::default();
    let object = parser.convert_row(
        &strings(&["a"]),
        &vec![Some(CellValue::Int(1)), Some(CellValue::Int(2))],
        false,
        &[],
    );
    assert_eq!(to_json_line(&object), Ok(r#"{"a":1}"#.to_string()));
}

#[test]
fn test_select_sheet() {
    let sheets = strings(&["Sheet1", "Data", "Data", "Summary"]);
    assert_eq!(XlsxParser::new().select_sheet(&sheets), Ok(0));
    assert_eq!(XlsxParser::default().select_sheet(&sheets), Ok(0));
    assert_eq!(XlsxParser::new().select_sheet(&[].to_vec()), Err(ConvertError::NoSheets));
    assert_eq!(XlsxParser::with_sheet("Data".to_string()).select_sheet(&sheets), Ok(1));
    assert_eq!(XlsxParser::with_sheet("Summary".to_string()).select_sheet(&sheets), Ok(3));
    assert_eq!(XlsxParser::with_sheet("Sheet1".to_string()).select_sheet(&sheets), Ok(0));
    assert_eq!(
        XlsxParser::with_sheet("data".to_string()).select_sheet(&sheets),
        Err(ConvertError::SheetNotFound)
    );
    assert_eq!(
        XlsxParser::with_sheet("Data".to_string()).select_sheet(&[].to_vec()),
        Err(ConvertError::SheetNotFound)
    );
}

#[test]
fn test_xlsx_parser_constructors() {
    assert_eq!(XlsxParser::new().sheet_name, None);
    assert_eq!(XlsxParser::default().sheet_name, None);
    assert_eq!(
        XlsxParser::with_sheet("Data".to_string()).sheet_name,
        Some("Data".to_string())
    );
}
