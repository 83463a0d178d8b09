use dm8_export::catalog::{
    apply_identity_info, assemble_indexes, assemble_table_details, column_from_row,
    group_unique_rows, is_trigger_metadata_missing, is_update_rule_missing, needs_live_count,
    referenced_table_name, sequence_from_row, table_from_row, tables_query, triggers_query,
    trigger_fallback_level, trigger_from_row, TriggerLevelCache, row_count_query,
};

#[test]
fn trigger_metadata_missing_detects_missing_trigger_type_column() {
    let err = vec![
        "State: 42S22, Native error: -2111, Message: \u{7b2c}1 \u{884c}\u{9644}\u{8fd1}\u{51fa}\u{73b0}\u{9519}\u{8bef}: \u{65e0}\u{6548}\u{7684}\u{5217}\u{540d}[TRIGGER_TYPE]"
            .to_string(),
    ];
    assert!(is_trigger_metadata_missing(&err));
}

#[test]
fn trigger_metadata_missing_ignores_other_errors() {
    let err = vec!["some other error".to_string()];
    assert!(!is_trigger_metadata_missing(&err));
}

#[test]
fn trigger_fallback_level_handles_missing_trigger_type() {
    let err = vec![
        "State: 42S22, Native error: -2111, Message: \u{7b2c}1 \u{884c}\u{9644}\u{8fd1}\u{51fa}\u{73b0}\u{9519}\u{8bef}: \u{65e0}\u{6548}\u{7684}\u{5217}\u{540d}[TRIGGER_TYPE]"
            .to_string(),
    ];
    assert_eq!(trigger_fallback_level(0, &err), Some(1));
}

#[test]
fn trigger_fallback_level_handles_missing_when_clause() {
    let err = vec![
        "State: 42S22, Native error: -2111, Message: \u{7b2c}1 \u{884c}\u{9644}\u{8fd1}\u{51fa}\u{73b0}\u{9519}\u{8bef}: \u{65e0}\u{6548}\u{7684}\u{5217}\u{540d}[WHEN_CLAUSE]"
            .to_string(),
    ];
    assert_eq!(trigger_fallback_level(1, &err), Some(2));
}

#[test]
fn trigger_fallback_level_is_fatal_at_last_level() {
    let err = vec!["anything [WHEN_CLAUSE]".to_string()];
    assert_eq!(trigger_fallback_level(2, &err), None);
    let body = vec!["missing [TRIGGER_BODY]".to_string()];
    assert_eq!(trigger_fallback_level(0, &body), None);
}

#[test]
fn trigger_level_cache_only_moves_forward() {
    let mut cache = TriggerLevelCache::new();
    assert_eq!(cache.current(), 0);
    assert!(cache.try_advance(0, 1));
    assert_eq!(cache.current(), 1);
    assert!(!cache.try_advance(0, 2), "a loser re-reads instead of overwriting");
    assert_eq!(cache.current(), 1);
    assert!(cache.try_advance(1, 2));
    assert_eq!(cache.current(), 2);
}

#[test]
fn column_from_row_parses_and_classifies() {
    let c = column_from_row(
        "ID".to_string(),
        "NUMBER".to_string(),
        Some("22".to_string()),
        Some("10".to_string()),
        Some("0".to_string()),
        None,
        Some("y".to_string()),
        Some("0".to_string()),
        Some("YES".to_string()),
        Some("key".to_string()),
    );
    assert_eq!(c.length, Some(22));
    assert_eq!(c.precision, Some(10));
    assert_eq!(c.scale, Some(0));
    assert!(c.nullable);
    assert!(c.identity);
    assert_eq!(c.comment.as_deref(), Some("key"));
    assert_eq!(c.identity_start, None);
}

#[test]
fn apply_identity_info_fills_only_first_identity_column() {
    let mut cols = vec![
        column_from_row("A".to_string(), "INT".to_string(), None, None, None, None, None, None, None, None),
        column_from_row("B".to_string(), "INT".to_string(), None, None, None, None, None, None, Some("YES".to_string()), None),
        column_from_row("C".to_string(), "INT".to_string(), None, None, None, None, None, None, Some("YES".to_string()), None),
    ];
    apply_identity_info(&mut cols, 100, 5);
    assert_eq!(cols[0].identity_start, None);
    assert_eq!(cols[1].identity_start, Some(100));
    assert_eq!(cols[1].identity_increment, Some(5));
    assert_eq!(cols[2].identity_start, None, "only one identity column is ever populated");
}

#[test]
fn table_from_row_keeps_parsable_counts_only() {
    let t = table_from_row("T".to_string(), None, Some("120".to_string()));
    assert_eq!(t.row_count, Some(120));
    assert!(!needs_live_count(&t));
    let z = table_from_row("T".to_string(), None, Some("0".to_string()));
    assert!(needs_live_count(&z));
    let bad = table_from_row("T".to_string(), None, Some("n/a".to_string()));
    assert_eq!(bad.row_count, None);
    assert!(needs_live_count(&bad));
}

#[test]
fn sequence_from_row_defaults_increment_to_one() {
    let s = sequence_from_row(
        "SEQ".to_string(),
        Some("1".to_string()),
        None,
        None,
        Some("20".to_string()),
        Some("Y".to_string()),
        Some("N".to_string()),
        Some("42".to_string()),
    );
    assert_eq!(s.increment_by, 1);
    assert_eq!(s.min_value, Some(1));
    assert_eq!(s.cache_size, Some(20));
    assert!(s.cycle);
    assert!(!s.order);
    assert_eq!(s.start_with, Some(42));
}

#[test]
fn trigger_from_row_splits_events_and_classifies() {
    let t = trigger_from_row(
        "T",
        "TRG".to_string(),
        Some("INSTEAD OF EACH ROW".to_string()),
        Some("INSERT OR UPDATE OR DELETE".to_string()),
        None,
        Some("new.id is null".to_string()),
        Some("  BEGIN NULL; END  ".to_string()),
        None,
    );
    assert_eq!(t.events, vec!["INSERT", "UPDATE", "DELETE"]);
    assert_eq!(t.timing, "INSTEAD OF");
    assert!(t.each_row);
    assert_eq!(t.table_name, "T");
    assert_eq!(t.body, "WHEN (new.id is null)\nBEGIN NULL; END");
}

#[test]
fn trigger_from_row_defaults_empty_events_to_insert() {
    let t = trigger_from_row("T", "TRG".to_string(), None, Some(" , ".to_string()), None, None, None, None);
    assert_eq!(t.events, vec!["INSERT"]);
    assert_eq!(t.timing, "BEFORE");
    assert!(!t.each_row);
}

#[test]
fn group_unique_rows_groups_consecutive_names() {
    let names = vec!["U1".to_string(), "U1".to_string(), "U2".to_string()];
    let cols = vec!["A".to_string(), "B".to_string(), "C".to_string()];
    let ucs = group_unique_rows(&names, &cols);
    assert_eq!(ucs.len(), 2);
    assert_eq!(ucs[0].name, "U1");
    assert_eq!(ucs[0].columns, vec!["A", "B"]);
    assert_eq!(ucs[1].columns, vec!["C"]);
}

#[test]
fn assemble_indexes_drops_unresolved_and_keeps_order() {
    let names = vec!["IDX_B".to_string(), "IDX_A".to_string(), "IDX_EMPTY".to_string()];
    let flags = vec![Some("UNIQUE".to_string()), Some("NONUNIQUE".to_string()), None];
    let col_index_names = vec!["IDX_A".to_string(), "IDX_B".to_string(), "IDX_A".to_string()];
    let col_names = vec!["C1".to_string(), "C2".to_string(), "C3".to_string()];
    let idx = assemble_indexes(&names, &flags, &col_index_names, &col_names);
    assert_eq!(idx.len(), 2);
    assert_eq!(idx[0].name, "IDX_B");
    assert!(idx[0].unique);
    assert_eq!(idx[0].columns, vec!["C2"]);
    assert_eq!(idx[1].name, "IDX_A");
    assert!(!idx[1].unique);
    assert_eq!(idx[1].columns, vec!["C1", "C3"]);
}

#[test]
fn assemble_table_details_rejects_missing_table() {
    let r = assemble_table_details(
        "S",
        "T".to_string(),
        None,
        Vec::new(),
        Vec::new(),
        Vec::new(),
        Vec::new(),
        Vec::new(),
        Vec::new(),
        Vec::new(),
    );
    assert_eq!(r.unwrap_err(), "Table 'T' does not exist in schema 'S'");
}

#[test]
fn queries_escape_embedded_quotes() {
    let q = tables_query("O'BRIEN");
    assert!(q.contains("WHERE t.OWNER = 'O''BRIEN'"));
    let rc = row_count_query("S\"X", "T");
    assert_eq!(rc, "SELECT COUNT(*) AS CNT FROM \"S\"\"X\".\"T\"");
}

#[test]
fn triggers_query_degrades_by_level() {
    let full = triggers_query("S", "T", 0);
    assert!(full.contains("TRIGGER_TYPE, TRIGGERING_EVENT"));
    let no_type = triggers_query("S", "T", 1);
    assert!(no_type.contains("NULL AS TRIGGER_TYPE"));
    assert!(no_type.contains("WHEN_CLAUSE"));
    let no_when = triggers_query("S", "T", 2);
    assert!(no_when.contains("NULL AS WHEN_CLAUSE"));
}

#[test]
fn update_rule_fallback_detection() {
    assert!(is_update_rule_missing("column [UPDATE_RULE] does not exist"));
    assert!(is_update_rule_missing("native error -2207"));
    assert!(!is_update_rule_missing("other failure"));
    assert_eq!(referenced_table_name("S", "PARENT"), "S.PARENT");
}
