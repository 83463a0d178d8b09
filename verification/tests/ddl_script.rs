use dm8_export::ddl::{export_schema_ddl, TriggerTerminator};
use dm8_export::model::{Column, Sequence, TableDetails, TriggerDefinition};

fn one_table() -> TableDetails {
    TableDetails {
        name: "T".to_string(),
        comment: None,
        columns: vec![Column {
            name: "ID".to_string(),
            data_type: "BIGINT".to_string(),
            length: None,
            precision: None,
            scale: None,
            char_semantics: None,
            nullable: false,
            comment: None,
            default_value: None,
            identity: false,
            identity_start: None,
            identity_increment: None,
        }],
        primary_keys: vec!["ID".to_string()],
        indexes: Vec::new(),
        unique_constraints: Vec::new(),
        foreign_keys: Vec::new(),
        check_constraints: Vec::new(),
        triggers: vec![TriggerDefinition {
            name: "TRG_T".to_string(),
            table_name: "T".to_string(),
            timing: "BEFORE".to_string(),
            events: vec!["INSERT".to_string()],
            each_row: true,
            body: "BEGIN\n:NEW.ID := 1;\nEND".to_string(),
        }],
    }
}

#[test]
fn ddl_generation_is_idempotent() {
    let tables = vec![one_table()];
    let sequences = vec![Sequence {
        name: "SEQ_T".to_string(),
        min_value: Some(1),
        max_value: None,
        increment_by: 1,
        cache_size: None,
        cycle: false,
        order: false,
        start_with: Some(1),
    }];
    let first = export_schema_ddl(
        "src", "tgt", &tables, &sequences, true, TriggerTerminator::Script,
        "2026-01-30 12:00:00", "out.triggers.sql",
    );
    let second = export_schema_ddl(
        "src", "tgt", &tables, &sequences, true, TriggerTerminator::Script,
        "2026-01-30 12:00:00", "out.triggers.sql",
    );
    assert_eq!(first.0, second.0);
    assert_eq!(first.1, second.1);
    assert!(first.1.is_none());
}

#[test]
fn ddl_script_orders_sections() {
    let tables = vec![one_table()];
    let (text, trigger_file) = export_schema_ddl(
        "src", "tgt", &tables, &Vec::new(), true, TriggerTerminator::DataGrip,
        "2026-01-30 12:00:00", "out.triggers.sql",
    );
    assert!(trigger_file.is_none());
    let drop_pos = text.find("DROP TABLE IF EXISTS \"TGT\".\"T\";").expect("drop present");
    let create_pos = text.find("CREATE TABLE \"TGT\".\"T\"").expect("create present");
    let pk_pos = text.find("ADD CONSTRAINT \"PK_T\" PRIMARY KEY").expect("pk present");
    let trg_pos = text.find("CREATE OR REPLACE TRIGGER \"TGT\".\"TRG_T\"").expect("trigger present");
    assert!(drop_pos < create_pos && create_pos < pk_pos && pk_pos < trg_pos);
}

#[test]
fn separate_trigger_file_mode_moves_triggers_out() {
    let tables = vec![one_table()];
    let (main, trigger_file) = export_schema_ddl(
        "src", "tgt", &tables, &Vec::new(), false, TriggerTerminator::DataGripScript,
        "2026-01-30 12:00:00", "out.triggers.sql",
    );
    let tf = trigger_file.expect("triggers go to a separate file");
    assert!(!main.contains("CREATE OR REPLACE TRIGGER"));
    assert!(main.contains("out.triggers.sql"));
    assert!(tf.contains("CREATE OR REPLACE TRIGGER \"TGT\".\"TRG_T\""));
    assert!(tf.trim_end().ends_with('/'));
}
