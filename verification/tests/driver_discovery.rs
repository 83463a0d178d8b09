use dm8_export::driver::parse_odbcinst_for_dm8;

#[test]
fn parses_dm8_section_driver_value() {
    let ini = r#"
[DM8 ODBC DRIVER]
Description = DM8 Driver
Driver = /opt/dm/libdodbc.so
"#;
    let parsed = parse_odbcinst_for_dm8(ini);
    assert_eq!(parsed.unwrap(), "/opt/dm/libdodbc.so");
}

#[test]
fn ignores_driver_keys_of_other_sections() {
    let ini = "[Other Driver]\nDriver = /opt/other.so\n[dm8 odbc driver]\ndriver64 = /opt/dm/libdodbc.so\n";
    assert_eq!(parse_odbcinst_for_dm8(ini).unwrap(), "/opt/dm/libdodbc.so");
    let none = "[Other Driver]\nDriver = /opt/other.so\n";
    assert!(parse_odbcinst_for_dm8(none).is_none());
}
