use dynquery::catalog::{Column, ColumnType, SqlType};
use dynquery::numtext::{parse_i16, parse_i64, u64_to_dec};
use dynquery::projector::{render_rfc3339, CellValue, Timestamp};
use dynquery::query::DynamicQuery;

fn column(name: &str, col_type: ColumnType, col_size: u16, nullable: bool) -> Column {
    Column {
        name: name.to_string(),
        col_type,
        sql_type: SqlType::Varchar2(10),
        col_size,
        nullable,
    }
}

fn stamp(
    year: u16,
    month: u8,
    day: u8,
    hour: u8,
    minute: u8,
    second: u8,
    tz_minutes: i16,
) -> Timestamp {
    Timestamp { year, month, day, hour, minute, second, tz_minutes }
}

#[test]
fn rfc3339_rendering_pads_and_signs() {
    assert_eq!(render_rfc3339(&stamp(2014, 11, 28, 12, 0, 9, 540)), "2014-11-28T12:00:09+09:00");
    assert_eq!(render_rfc3339(&stamp(987, 1, 2, 3, 4, 5, -330)), "0987-01-02T03:04:05-05:30");
    assert_eq!(render_rfc3339(&stamp(2000, 12, 31, 23, 59, 59, 0)), "2000-12-31T23:59:59+00:00");
}

#[test]
fn nullable_datetime_renders_null_or_quoted_rfc3339() {
    let col = column("hired", ColumnType::DateTime, 8, true);
    assert_eq!(col.try_to_string(&CellValue::Null), "null");
    assert_eq!(
        col.try_to_string(&CellValue::Stamp(stamp(2014, 11, 28, 12, 0, 9, 540))),
        "\"2014-11-28T12:00:09+09:00\""
    );
}

#[test]
fn string_cells_render_quoted_and_absent_text_renders_empty() {
    let col = column("name", ColumnType::String, 20, true);
    assert_eq!(col.try_to_string(&CellValue::Text("Alice".to_string())), "\"Alice\"");
    assert_eq!(col.try_to_string(&CellValue::Null), "\"\"");
}

#[test]
fn numeric_cells_render_unquoted_or_null() {
    let int_col = column("id", ColumnType::Integer, 2, true);
    let num_col = column("rate", ColumnType::Number, 8, true);
    assert_eq!(int_col.try_to_string(&CellValue::Num("42".to_string())), "42");
    assert_eq!(int_col.try_to_string(&CellValue::Null), "null");
    assert_eq!(num_col.try_to_string(&CellValue::Num("3.5".to_string())), "3.5");
    assert_eq!(num_col.try_to_string(&CellValue::Null), "null");
}

#[test]
fn unsupported_cells_always_render_the_placeholder() {
    let col = column("blob", ColumnType::Unsupported, 0, true);
    assert_eq!(col.try_to_string(&CellValue::Null), "\"not-implemented\"");
    assert_eq!(col.try_to_string(&CellValue::Text("secret".to_string())), "\"not-implemented\"");
    assert_eq!(col.try_to_string(&CellValue::Num("7".to_string())), "\"not-implemented\"");
}

fn employee_query() -> DynamicQuery {
    DynamicQuery {
        sql: String::new(),
        fetch_array_size: 1,
        columns: vec![
            column("employee_id", ColumnType::Integer, 2, false),
            column("first_name", ColumnType::String, 20, true),
        ],
        params: Vec::new(),
    }
}

#[test]
fn row_fragment_lists_fields_in_catalog_order() {
    let q = employee_query();
    let row = vec![CellValue::Num("42".to_string()), CellValue::Text("Alice".to_string())];
    assert_eq!(q.gen_result(&row), "{ \"employee_id\":42,\"first_name\":\"Alice\" }");
}

#[test]
fn result_array_joins_fragments_with_commas() {
    let q = employee_query();
    let rows = vec![
        vec![CellValue::Num("1".to_string()), CellValue::Text("A".to_string())],
        vec![CellValue::Num("2".to_string()), CellValue::Null],
    ];
    assert_eq!(
        q.gen_results(&rows),
        "[{ \"employee_id\":1,\"first_name\":\"A\" },{ \"employee_id\":2,\"first_name\":\"\" }]"
    );
    let empty: Vec<Vec<CellValue>> = Vec::new();
    assert_eq!(q.gen_results(&empty), "[]");
}

#[test]
fn decimal_rendering_is_canonical() {
    assert_eq!(u64_to_dec(0), "0");
    assert_eq!(u64_to_dec(7), "7");
    assert_eq!(u64_to_dec(12345), "12345");
    assert_eq!(u64_to_dec(18446744073709551615), "18446744073709551615");
}

#[test]
fn integer_parsing_accepts_exactly_decimal_literals_in_range() {
    assert_eq!(parse_i64("42"), Some(42));
    assert_eq!(parse_i64("-42"), Some(-42));
    assert_eq!(parse_i64("+7"), Some(7));
    assert_eq!(parse_i64("9223372036854775807"), Some(i64::MAX));
    assert_eq!(parse_i64("-9223372036854775808"), Some(i64::MIN));
    assert_eq!(parse_i64("9223372036854775808"), None);
    assert_eq!(parse_i64("-9223372036854775809"), None);
    assert_eq!(parse_i64(""), None);
    assert_eq!(parse_i64("-"), None);
    assert_eq!(parse_i64("1 2"), None);
    assert_eq!(parse_i64("0x10"), None);

    assert_eq!(parse_i16("32767"), Some(i16::MAX));
    assert_eq!(parse_i16("-32768"), Some(i16::MIN));
    assert_eq!(parse_i16("32768"), None);
    assert_eq!(parse_i16("007"), Some(7));
}
