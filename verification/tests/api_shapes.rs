use dm8_export::api::{
    format_error_chain, format_export_filename, normalize_schema_value, resolve_target_schema,
};
use dm8_export::model::{ApiResponse, ConnectionConfig};

#[test]
fn resolve_target_schema_falls_back_to_source() {
    let target = resolve_target_schema("SYSDBA", None);
    assert_eq!(target, "SYSDBA");
}

#[test]
fn resolve_target_schema_uses_trimmed_value() {
    let target = resolve_target_schema("SYSDBA", Some("  APP  "));
    assert_eq!(target, "APP");
}

#[test]
fn format_export_filename_includes_source_and_target() {
    let name = format_export_filename("SRC", "TGT", "ddl", "20260130_120000_000");
    assert_eq!(name, "exports/SRC_to_TGT_ddl_20260130_120000_000.sql");
}

#[test]
fn format_error_chain_includes_contexts() {
    let messages = vec![
        "top context".to_string(),
        "middle context".to_string(),
        "root cause".to_string(),
    ];
    let rendered = format_error_chain(&messages);
    assert!(rendered.contains("top context"));
    assert!(rendered.contains("middle context"));
    assert!(rendered.contains("root cause"));
    assert_eq!(rendered, "top context: middle context: root cause");
}

#[test]
fn normalize_schema_value_drops_blank_overrides() {
    assert_eq!(normalize_schema_value(Some(" A ")), Some("A".to_string()));
    assert_eq!(normalize_schema_value(Some("   ")), None);
    assert_eq!(normalize_schema_value(None), None);
}

fn config(host: &str, port: u16, user: &str, pass: &str) -> ConnectionConfig {
    ConnectionConfig {
        host: host.to_string(),
        port,
        username: user.to_string(),
        password: pass.to_string(),
        schema: "SYSDBA".to_string(),
        export_schema: None,
    }
}

#[test]
fn validate_reports_the_first_missing_field() {
    assert_eq!(config(" ", 1, "u", "p").validate().unwrap_err(), "DM8 host is required");
    assert_eq!(config("h", 0, "u", "p").validate().unwrap_err(), "DM8 port must be greater than zero");
    assert_eq!(config("h", 1, "  ", "p").validate().unwrap_err(), "DM8 username is required");
    assert_eq!(config("h", 1, "u", "").validate().unwrap_err(), "DM8 password is required");
    assert!(config("h", 1, "u", "p").validate().is_ok());
}

#[test]
fn connection_string_lays_out_odbc_fields() {
    let c = config("localhost", 5236, "SYSDBA", "SECRET-REDACTED");
    assert_eq!(
        c.connection_string("{DM8 ODBC DRIVER}"),
        "DRIVER={DM8 ODBC DRIVER};SERVER=localhost;PORT=5236;UID=SYSDBA;PWD=SECRET-REDACTED"
    );
}

#[test]
fn api_response_wraps_success_and_error() {
    let ok: ApiResponse<u32> = ApiResponse::success(7);
    assert!(ok.success);
    assert_eq!(ok.data, Some(7));
    assert!(ok.error.is_none());
    let err: ApiResponse<u32> = ApiResponse::error("boom".to_string());
    assert!(!err.success);
    assert!(err.data.is_none());
    assert_eq!(err.error.as_deref(), Some("boom"));
}
