use dm8_export::ddl::{
    apply_trigger_terminator, extract_when_clause, generate_triggers, normalize_trigger_body,
    normalize_trigger_references, TriggerTerminator,
};
use dm8_export::model::TriggerDefinition;

#[test]
fn generate_triggers_uses_full_body_when_body_contains_create() {
    let body = "CREATE OR REPLACE TRIGGER TRG_BPM_CATEGORY_ID\nBEFORE INSERT ON BPM_CATEGORY\nBEGIN\nNULL;\nEND;";
    let triggers = vec![TriggerDefinition {
        name: "TRG_BPM_CATEGORY_ID".to_string(),
        table_name: "BPM_CATEGORY".to_string(),
        timing: "BEFORE".to_string(),
        events: vec!["INSERT".to_string()],
        each_row: true,
        body: body.to_string(),
    }];

    let statements = generate_triggers("PLATFORM_V3", &triggers, TriggerTerminator::DataGrip);
    assert_eq!(statements.len(), 1);
    let stmt = &statements[0].to_uppercase();
    let count = stmt.matches("CREATE OR REPLACE TRIGGER").count();
    assert_eq!(count, 1);
}

#[test]
fn normalize_trigger_body_adds_missing_semicolons() {
    let body = "CREATE OR REPLACE TRIGGER TRG_TEST\nBEFORE INSERT ON T\nFOR EACH ROW\nBEGIN\nSELECT SEQ.NEXTVAL INTO :NEW.ID FROM DUAL\n:NEW.UPDATE_TIME := SYSDATE\nEND";
    let normalized = normalize_trigger_body(body);
    assert!(normalized.contains("FROM DUAL;"));
    assert!(normalized.contains("SYSDATE;"));
    assert!(normalized.trim_end().ends_with(';'));
}

#[test]
fn normalize_trigger_body_handles_multiline_select() {
    let body = "BEGIN\nSELECT SEQ.NEXTVAL INTO :NEW.ID FROM DUAL\n:NEW.UPDATE_TIME := SYSDATE\nEND";
    let normalized = normalize_trigger_body(body);

    assert!(normalized.contains("FROM DUAL;"), "Single-line SELECT...INTO...FROM should have semicolon");
    assert!(normalized.contains("SYSDATE;"), "Assignment should have semicolon");
    assert!(normalized.trim_end().ends_with(';'), "END should have semicolon");
}

#[test]
fn extract_when_clause_separates_when_from_body() {
    let body = "WHEN (NEW.ID IS NULL)\nBEGIN\nSELECT SEQ.NEXTVAL INTO :NEW.ID FROM DUAL;\nEND";
    let (when_clause, body_without_when) = extract_when_clause(body);
    assert_eq!(when_clause, "NEW.ID IS NULL");
    assert!(body_without_when.contains("BEGIN"));
    assert!(!body_without_when.to_uppercase().contains("WHEN"));
}

#[test]
fn extract_when_clause_handles_nested_parentheses() {
    let body = "WHEN (FUNC(NEW.ID, NEW.NAME) IS NULL)\nBEGIN\nNULL;\nEND";
    let (when_clause, body_without_when) = extract_when_clause(body);
    assert_eq!(when_clause, "FUNC(NEW.ID, NEW.NAME) IS NULL");
    assert!(body_without_when.contains("BEGIN"));
}

#[test]
fn extract_when_clause_handles_multiline_when() {
    let body = "WHEN (\n  NEW.ID IS NULL\n  AND NEW.STATUS = 'ACTIVE'\n)\nBEGIN\nNULL;\nEND";
    let (when_clause, body_without_when) = extract_when_clause(body);
    assert!(when_clause.contains("NEW.ID IS NULL"));
    assert!(when_clause.contains("AND NEW.STATUS = 'ACTIVE'"));
    assert!(body_without_when.contains("BEGIN"));
}

#[test]
fn generate_triggers_places_when_after_for_each_row() {
    let triggers = vec![TriggerDefinition {
        name: "TRG_TEST_ID".to_string(),
        table_name: "TEST_TABLE".to_string(),
        timing: "BEFORE".to_string(),
        events: vec!["INSERT".to_string()],
        each_row: true,
        body: "WHEN (NEW.ID IS NULL)\nBEGIN\nSELECT SEQ.NEXTVAL INTO :NEW.ID FROM DUAL;\nEND".to_string(),
    }];

    let statements = generate_triggers("PLATFORM", &triggers, TriggerTerminator::DataGrip);
    assert_eq!(statements.len(), 1);
    let stmt = &statements[0];

    let for_each_row_pos = stmt.find("FOR EACH ROW").expect("Should contain FOR EACH ROW");
    let when_pos = stmt.find("WHEN (").expect("Should contain WHEN clause");
    assert!(for_each_row_pos < when_pos, "FOR EACH ROW should come before WHEN");

    assert!(stmt.contains("WHEN (:NEW.ID IS NULL)"));

    assert!(stmt.contains("REFERENCING OLD AS OLD NEW AS NEW"));

    assert!(stmt.trim_end().ends_with(';'), "Trigger should end with ';'");
}

#[test]
fn generate_triggers_handles_declare_block() {
    let triggers = vec![TriggerDefinition {
        name: "TRG_WITH_VAR".to_string(),
        table_name: "TEST_TABLE".to_string(),
        timing: "BEFORE".to_string(),
        events: vec!["INSERT".to_string()],
        each_row: true,
        body: "DECLARE\n  v_count NUMBER;\nBEGIN\n  SELECT COUNT(*) INTO v_count FROM DUAL;\nEND".to_string(),
    }];

    let statements = generate_triggers("PLATFORM", &triggers, TriggerTerminator::DataGrip);
    assert_eq!(statements.len(), 1);
    let stmt = &statements[0];

    assert!(stmt.contains("DECLARE"));
    let declare_count = stmt.matches("DECLARE").count();
    assert_eq!(declare_count, 1, "Should have exactly one DECLARE keyword, got: {}", stmt);

    let begin_count = stmt.matches("BEGIN").count();
    assert_eq!(begin_count, 1, "Should have exactly one BEGIN keyword, got: {}", stmt);
}

#[test]
fn generate_triggers_skips_when_for_statement_level_trigger() {
    let triggers = vec![TriggerDefinition {
        name: "TRG_STATEMENT_LEVEL".to_string(),
        table_name: "TEST_TABLE".to_string(),
        timing: "AFTER".to_string(),
        events: vec!["INSERT".to_string()],
        each_row: false,
        body: "WHEN (1=1)\nBEGIN\nNULL;\nEND".to_string(),
    }];

    let statements = generate_triggers("PLATFORM", &triggers, TriggerTerminator::DataGrip);
    assert_eq!(statements.len(), 1);
    let stmt = &statements[0];

    assert!(!stmt.contains("FOR EACH ROW"));
}

#[test]
fn generate_triggers_normalizes_new_references_in_body() {
    let triggers = vec![TriggerDefinition {
        name: "TRG_NEW_REF".to_string(),
        table_name: "TEST_TABLE".to_string(),
        timing: "BEFORE".to_string(),
        events: vec!["UPDATE".to_string()],
        each_row: true,
        body: "BEGIN\nNEW.UPDATE_TIME := OLD.UPDATE_TIME\nEND".to_string(),
    }];

    let statements = generate_triggers("PLATFORM", &triggers, TriggerTerminator::DataGrip);
    assert_eq!(statements.len(), 1);
    let stmt = &statements[0];
    assert!(stmt.contains(":NEW.UPDATE_TIME"));
    assert!(stmt.contains(":OLD.UPDATE_TIME"));
}

#[test]
fn generate_triggers_datagrip_has_no_slash_terminator() {
    let triggers = vec![TriggerDefinition {
        name: "TRG_TEST_ID".to_string(),
        table_name: "TEST_TABLE".to_string(),
        timing: "BEFORE".to_string(),
        events: vec!["INSERT".to_string()],
        each_row: true,
        body: "BEGIN\n:NEW.ID := 1;\nEND".to_string(),
    }];

    let statements = generate_triggers("PLATFORM", &triggers, TriggerTerminator::DataGrip);
    assert_eq!(statements.len(), 1);
    let stmt = &statements[0];
    assert!(stmt.trim_end().ends_with(';'));
    assert!(!stmt.contains("\n/"));
}

#[test]
fn generate_triggers_script_adds_slash_terminator() {
    let triggers = vec![TriggerDefinition {
        name: "TRG_TEST_ID".to_string(),
        table_name: "TEST_TABLE".to_string(),
        timing: "BEFORE".to_string(),
        events: vec!["INSERT".to_string()],
        each_row: true,
        body: "BEGIN\n:NEW.ID := 1;\nEND".to_string(),
    }];

    let statements = generate_triggers("PLATFORM", &triggers, TriggerTerminator::Script);
    assert_eq!(statements.len(), 1);
    let stmt = &statements[0];
    assert!(stmt.contains("\n/"), "Expected script mode to include '/' terminator");
    assert!(stmt.trim_end().ends_with('/'));
}

#[test]
fn generate_triggers_datagrip_script_uses_script_format() {
    let triggers = vec![TriggerDefinition {
        name: "TRG_TEST_ID".to_string(),
        table_name: "TEST_TABLE".to_string(),
        timing: "BEFORE".to_string(),
        events: vec!["INSERT".to_string()],
        each_row: true,
        body: "BEGIN\n:NEW.ID := 1;\nEND".to_string(),
    }];

    let statements = generate_triggers("PLATFORM", &triggers, TriggerTerminator::DataGripScript);
    assert_eq!(statements.len(), 1);
    let stmt = &statements[0];
    assert!(stmt.contains("\n/"), "Expected script mode to include '/' terminator");
    assert!(stmt.trim_end().ends_with('/'));
}

#[test]
fn normalize_trigger_references_skips_prefixed_names() {
    assert_eq!(normalize_trigger_references("new.A := :OLD.B + RENEW.C"), ":NEW.A := :OLD.B + RENEW.C");
}

#[test]
fn apply_trigger_terminator_is_idempotent_on_terminated_text() {
    let mut stmt = "BEGIN\nNULL;\nEND;".to_string();
    apply_trigger_terminator(&mut stmt, TriggerTerminator::DataGrip);
    assert_eq!(stmt, "BEGIN\nNULL;\nEND;");
    apply_trigger_terminator(&mut stmt, TriggerTerminator::Script);
    assert_eq!(stmt, "BEGIN\nNULL;\nEND;\n/");
}
