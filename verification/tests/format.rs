use dm8_export::ddl::{format_data_type, format_default};
use dm8_export::data::format_literal;
use dm8_export::literal::{escape_single_quotes, quote_identifier, normalize_iso_timestamp};
use dm8_export::literal::normalize_iso8601_timestamp;
use dm8_export::literal::has_timezone_offset;
use dm8_export::model::Column;

fn column_with_type(data_type: &str) -> Column {
    Column {
        name: "col".to_string(),
        data_type: data_type.to_string(),
        length: None,
        precision: None,
        scale: None,
        char_semantics: None,
        nullable: true,
        comment: None,
        default_value: None,
        identity: false,
        identity_start: None,
        identity_increment: None,
    }
}

#[test]
fn format_default_keeps_user_keyword_for_string_types() {
    let column = column_with_type("VARCHAR");
    assert_eq!(format_default(&column, "USER"), "USER");
}

#[test]
fn format_default_keeps_current_date_expression() {
    let column = column_with_type("DATE");
    assert_eq!(
        format_default(&column, "CURRENT_DATE + 1"),
        "CURRENT_DATE + 1"
    );
}

#[test]
fn format_default_keeps_locals_timestamp_keyword() {
    let column = column_with_type("TIMESTAMP");
    assert_eq!(format_default(&column, "LOCALTIMESTAMP"), "LOCALTIMESTAMP");
}

#[test]
fn format_default_keeps_date_literal_expression() {
    let column = column_with_type("DATE");
    assert_eq!(
        format_default(&column, "DATE '2024-01-01'"),
        "DATE '2024-01-01'"
    );
}

#[test]
fn format_default_keeps_n_quoted_string_literal() {
    let column = column_with_type("VARCHAR");
    assert_eq!(format_default(&column, "N'abc'"), "N'abc'");
}

#[test]
fn format_default_keeps_hex_literal_for_raw() {
    let column = column_with_type("RAW");
    assert_eq!(format_default(&column, "X'0A0B'"), "X'0A0B'");
}

#[test]
fn format_default_wraps_date_only_literal_with_to_date() {
    let column = column_with_type("DATE");
    assert_eq!(
        format_default(&column, "2024-01-01"),
        "TO_DATE('2024-01-01','YYYY-MM-DD')"
    );
}

#[test]
fn format_default_wraps_timestamp_literal_without_fraction() {
    let column = column_with_type("TIMESTAMP");
    assert_eq!(
        format_default(&column, "2024-01-01 12:34:56"),
        "TO_TIMESTAMP('2024-01-01 12:34:56','YYYY-MM-DD HH24:MI:SS')"
    );
}

#[test]
fn format_default_wraps_timestamp_literal_with_fraction() {
    let column = column_with_type("TIMESTAMP");
    assert_eq!(
        format_default(&column, "2024-01-01 12:34:56.123"),
        "TO_TIMESTAMP('2024-01-01 12:34:56.123','YYYY-MM-DD HH24:MI:SS.FF')"
    );
}

#[test]
fn format_literal_passes_numbers_through() {
    assert_eq!(format_literal("NUMBER", "42"), "42");
}

#[test]
fn format_literal_quotes_and_escapes_strings() {
    assert_eq!(format_literal("VARCHAR", "O'Brien"), "'O''Brien'");
}

#[test]
fn format_literal_wraps_dates_in_conversion() {
    assert_eq!(
        format_literal("DATE", "2024-01-01"),
        "TO_DATE('2024-01-01','YYYY-MM-DD')"
    );
}

#[test]
fn format_literal_wraps_timestamps_with_fraction_format() {
    assert_eq!(
        format_literal("TIMESTAMP", "2024-01-01 12:34:56.123"),
        "TO_TIMESTAMP('2024-01-01 12:34:56.123','YYYY-MM-DD HH24:MI:SS.FF')"
    );
}

#[test]
fn format_literal_wraps_binary_hex() {
    assert_eq!(format_literal("RAW", "0x0A0B"), "HEXTORAW('0A0B')");
}

#[test]
fn format_literal_uses_tz_conversion_for_offsets() {
    assert_eq!(
        format_literal("TIMESTAMP", "2024-01-01T12:34:56+0800"),
        "TO_TIMESTAMP_TZ('2024-01-01 12:34:56+08:00','YYYY-MM-DD HH24:MI:SS TZH:TZM')"
    );
}

#[test]
fn escape_single_quotes_doubles_them() {
    assert_eq!(escape_single_quotes("a'b''c"), "a''b''''c");
}

#[test]
fn quote_identifier_quotes_each_segment() {
    assert_eq!(quote_identifier("S1.T1"), "\"S1\".\"T1\"");
    assert_eq!(quote_identifier("A\"B"), "\"A\"\"B\"");
}

#[test]
fn normalize_iso_timestamp_rewrites_t_and_z() {
    assert_eq!(normalize_iso_timestamp("2024-01-01T10:00:00Z"), "2024-01-01 10:00:00+00:00");
}

#[test]
fn normalize_iso8601_widens_short_offsets() {
    assert_eq!(normalize_iso8601_timestamp("2024-01-01 10:00:00+08"), "2024-01-01 10:00:00+08:00");
    assert_eq!(normalize_iso8601_timestamp("2024-01-01 10:00:00-0530"), "2024-01-01 10:00:00-05:30");
    assert_eq!(normalize_iso8601_timestamp("2024-01-01T10:00:00,5"), "2024-01-01 10:00:00.5");
}

#[test]
fn has_timezone_offset_requires_strict_shape() {
    assert!(has_timezone_offset("2024-01-01 10:00:00+08:00"));
    assert!(!has_timezone_offset("2024-01-01 10:00:00"));
    assert!(!has_timezone_offset("2024-01-01"));
}

#[test]
fn format_data_type_attaches_length_and_semantics() {
    let mut c = column_with_type("VARCHAR");
    c.length = Some(50);
    c.char_semantics = Some("C".to_string());
    assert_eq!(format_data_type(&c), "VARCHAR(50 CHAR)");
    c.char_semantics = Some("B".to_string());
    assert_eq!(format_data_type(&c), "VARCHAR(50 BYTE)");
    c.char_semantics = None;
    assert_eq!(format_data_type(&c), "VARCHAR(50)");
}

#[test]
fn format_data_type_handles_precision_and_scale() {
    let mut c = column_with_type("NUMBER");
    c.precision = Some(10);
    c.scale = Some(0);
    assert_eq!(format_data_type(&c), "NUMBER(10,0)");
    c.scale = Some(2);
    assert_eq!(format_data_type(&c), "NUMBER(10,2)");
    c.scale = None;
    assert_eq!(format_data_type(&c), "NUMBER(10)");
}

#[test]
fn format_data_type_keeps_parameterized_and_timestamp() {
    let c = column_with_type("varchar(20)");
    assert_eq!(format_data_type(&c), "VARCHAR(20)");
    let mut t = column_with_type("TIMESTAMP");
    t.scale = Some(3);
    assert_eq!(format_data_type(&t), "TIMESTAMP(3)");
    t.scale = Some(6);
    assert_eq!(format_data_type(&t), "TIMESTAMP");
}
