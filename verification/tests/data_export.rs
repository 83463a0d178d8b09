use dm8_export::data::{
    export_schema_data, export_table_section, table_data_query, TableDataInput,
};
use dm8_export::model::{Column, Sequence, TableDetails};

fn plain_column(name: &str, data_type: &str, identity: bool) -> Column {
    Column {
        name: name.to_string(),
        data_type: data_type.to_string(),
        length: None,
        precision: None,
        scale: None,
        char_semantics: None,
        nullable: true,
        comment: None,
        default_value: None,
        identity,
        identity_start: None,
        identity_increment: None,
    }
}

fn details_with_columns(name: &str, columns: Vec<Column>) -> TableDetails {
    TableDetails {
        name: name.to_string(),
        comment: None,
        columns,
        primary_keys: Vec::new(),
        indexes: Vec::new(),
        unique_constraints: Vec::new(),
        foreign_keys: Vec::new(),
        check_constraints: Vec::new(),
        triggers: Vec::new(),
    }
}

#[test]
fn identity_table_batches_into_three_inserts() {
    let columns = vec![plain_column("ID", "BIGINT", true), plain_column("NAME", "VARCHAR", false)];
    let mut rows: Vec<Vec<Option<String>>> = Vec::new();
    for i in 0..2500 {
        rows.push(vec![Some(i.to_string()), Some(format!("name{}", i))]);
    }
    let input = TableDataInput {
        table: "T".to_string(),
        details: details_with_columns("T", columns),
        rows,
        row_count: Some(2500),
    };
    let (text, count) = export_table_section("TGT", &input, 1000);
    assert_eq!(count, 2500);
    assert_eq!(text.matches("INSERT INTO").count(), 3);
    let truncate_pos = text.find("TRUNCATE TABLE \"TGT\".\"T\";").expect("truncate present");
    let on_pos = text.find("SET IDENTITY_INSERT \"TGT\".\"T\" ON;").expect("identity on");
    let first_insert = text.find("INSERT INTO").expect("insert present");
    let off_pos = text.find("SET IDENTITY_INSERT \"TGT\".\"T\" OFF;").expect("identity off");
    assert!(truncate_pos < on_pos && on_pos < first_insert && first_insert < off_pos);
}

#[test]
fn non_identity_table_has_no_identity_bracketing() {
    let columns = vec![plain_column("A", "INT", false)];
    let input = TableDataInput {
        table: "U".to_string(),
        details: details_with_columns("U", columns),
        rows: vec![vec![Some("1".to_string())], vec![None]],
        row_count: None,
    };
    let (text, count) = export_table_section("TGT", &input, 1000);
    assert_eq!(count, 2);
    assert!(!text.contains("IDENTITY_INSERT"));
    assert!(text.contains("(rows unknown)"));
    assert!(text.contains("(1),\n(NULL);"));
}

#[test]
fn table_data_query_lists_columns_explicitly() {
    let details = details_with_columns(
        "T",
        vec![plain_column("A", "INT", false), plain_column("B", "VARCHAR", false)],
    );
    assert_eq!(
        table_data_query("src", "t", &details),
        "SELECT \"A\", \"B\" FROM \"SRC\".\"T\""
    );
}

#[test]
fn schema_data_script_resets_sequences_and_counts_rows() {
    let columns = vec![plain_column("A", "INT", false)];
    let inputs = vec![TableDataInput {
        table: "T1".to_string(),
        details: details_with_columns("T1", columns),
        rows: vec![vec![Some("7".to_string())]],
        row_count: Some(1),
    }];
    let sequences = vec![Sequence {
        name: "SEQ_T".to_string(),
        min_value: None,
        max_value: None,
        increment_by: 1,
        cache_size: None,
        cycle: false,
        order: false,
        start_with: Some(55),
    }];
    let (text, total) = export_schema_data("tgt", &inputs, &sequences, 1000, true, "2026-01-30 12:00:00");
    assert_eq!(total, 1);
    assert!(text.starts_with("-- DM8 Data Export\n-- Tables: 1\n-- Rows (estimated): 1\n"));
    assert!(text.contains("ALTER SEQUENCE \"TGT\".\"SEQ_T\" CURRENT VALUE 55;"));
    assert!(text.contains("TRUNCATE TABLE \"TGT\".\"T1\";"));
    assert!(text.contains("-- Generated at: 2026-01-30 12:00:00"));
}
