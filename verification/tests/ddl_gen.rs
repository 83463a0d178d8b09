use dm8_export::ddl::{
    generate_check_constraints, generate_create_table, generate_foreign_keys, generate_indexes,
    generate_primary_key, generate_sequences, generate_unique_constraints,
};
use dm8_export::model::{
    CheckConstraint, Column, ForeignKey, Index, Sequence, TableDetails, TriggerDefinition,
    UniqueConstraint,
};

fn base_table_details(name: &str, indexes: Vec<Index>) -> TableDetails {
    TableDetails {
        name: name.to_string(),
        comment: None,
        columns: Vec::new(),
        primary_keys: Vec::new(),
        indexes,
        unique_constraints: Vec::<UniqueConstraint>::new(),
        foreign_keys: Vec::<ForeignKey>::new(),
        check_constraints: Vec::<CheckConstraint>::new(),
        triggers: Vec::<TriggerDefinition>::new(),
    }
}

fn simple_column(name: &str, data_type: &str) -> Column {
    Column {
        name: name.to_string(),
        data_type: data_type.to_string(),
        length: None,
        precision: None,
        scale: None,
        char_semantics: None,
        nullable: true,
        comment: None,
        default_value: None,
        identity: false,
        identity_start: None,
        identity_increment: None,
    }
}

#[test]
fn generate_indexes_does_not_qualify_index_name_with_schema() {
    let table = base_table_details(
        "PLATFORM_V3.QRTZ_BLOB_TRIGGERS",
        vec![Index {
            name: "INDEX33561145".to_string(),
            columns: vec![
                "SCHED_NAME".to_string(),
                "TRIGGER_NAME".to_string(),
                "TRIGGER_GROUP".to_string(),
            ],
            unique: false,
        }],
    );

    let statements = generate_indexes(&table);
    assert_eq!(statements.len(), 1);
    let stmt = &statements[0];
    assert!(stmt.contains("CREATE INDEX \"IDX_QRTZ_BLOB_TRIGGERS_SCHED_NAME_TRIGGER_NAME_TRIGGER_GROUP\""));
    assert!(!stmt.contains("\"PLATFORM_V3\".\"IDX_QRTZ_BLOB_TRIGGERS_SCHED_NAME_TRIGGER_NAME_TRIGGER_GROUP\""));
}

#[test]
fn generate_indexes_skips_non_unique_index_on_pk_columns() {
    let mut table = base_table_details(
        "PLATFORM.QRTZ_SIMPLE_TRIGGERS",
        vec![Index {
            name: "INDEX33561156".to_string(),
            columns: vec![
                "SCHED_NAME".to_string(),
                "TRIGGER_NAME".to_string(),
                "TRIGGER_GROUP".to_string(),
            ],
            unique: false,
        }],
    );
    table.primary_keys = vec![
        "SCHED_NAME".to_string(),
        "TRIGGER_NAME".to_string(),
        "TRIGGER_GROUP".to_string(),
    ];

    let statements = generate_indexes(&table);
    assert_eq!(statements.len(), 0, "Should skip index that covers same columns as PK");
}

#[test]
fn generate_indexes_skips_duplicate_column_list() {
    let table = base_table_details(
        "PLATFORM_V3.DUP_INDEX",
        vec![
            Index {
                name: "IDX_ONE".to_string(),
                columns: vec!["A".to_string(), "B".to_string()],
                unique: false,
            },
            Index {
                name: "IDX_TWO".to_string(),
                columns: vec!["A".to_string(), "B".to_string()],
                unique: false,
            },
        ],
    );

    let statements = generate_indexes(&table);
    assert_eq!(statements.len(), 1, "Should skip duplicate index columns");
}

#[test]
fn generate_indexes_skips_index_matching_unique_constraint_columns() {
    let mut table = base_table_details(
        "PLATFORM_V3.UNIQ_TEST",
        vec![Index {
            name: "IDX_UNIQ".to_string(),
            columns: vec!["CODE".to_string(), "TYPE".to_string()],
            unique: false,
        }],
    );
    table.unique_constraints = vec![UniqueConstraint {
        name: "UK_UNIQ_TEST".to_string(),
        columns: vec!["CODE".to_string(), "TYPE".to_string()],
    }];

    let statements = generate_indexes(&table);
    assert_eq!(statements.len(), 0, "Should skip index that matches unique constraint columns");
}

#[test]
fn generate_foreign_keys_omits_no_action_rule() {
    let mut table = base_table_details("PLATFORM_V3.QRTZ_TRIGGERS", Vec::new());
    table.foreign_keys = vec![ForeignKey {
        name: "FK_TEST".to_string(),
        columns: vec!["SCHED_NAME".to_string()],
        referenced_table: "PLATFORM_V3.QRTZ_JOB_DETAILS".to_string(),
        referenced_columns: vec!["SCHED_NAME".to_string()],
        delete_rule: Some("NO ACTION".to_string()),
        update_rule: Some("NO ACTION".to_string()),
    }];

    let statements = generate_foreign_keys(&table);
    assert_eq!(statements.len(), 1);
    let stmt = &statements[0].to_uppercase();
    assert!(!stmt.contains("ON DELETE NO ACTION"));
    assert!(!stmt.contains("ON UPDATE NO ACTION"));
}

#[test]
fn generate_foreign_keys_emits_cascade_rules() {
    let mut table = base_table_details("S.CHILD", Vec::new());
    table.foreign_keys = vec![ForeignKey {
        name: "FK_CHILD".to_string(),
        columns: vec!["PARENT_ID".to_string()],
        referenced_table: "S.PARENT".to_string(),
        referenced_columns: vec!["ID".to_string()],
        delete_rule: Some("CASCADE".to_string()),
        update_rule: None,
    }];
    let statements = generate_foreign_keys(&table);
    assert_eq!(
        statements[0],
        "ALTER TABLE \"S\".\"CHILD\" ADD CONSTRAINT \"FK_CHILD\" FOREIGN KEY (\"PARENT_ID\") REFERENCES \"S\".\"PARENT\" (\"ID\") ON DELETE CASCADE;"
    );
}

#[test]
fn generate_primary_key_uses_base_table_name() {
    let mut table = base_table_details("S.T", Vec::new());
    table.primary_keys = vec!["ID".to_string(), "KIND".to_string()];
    let stmt = generate_primary_key(&table).unwrap();
    assert_eq!(
        stmt,
        "ALTER TABLE \"S\".\"T\" ADD CONSTRAINT \"PK_T\" PRIMARY KEY (\"ID\", \"KIND\");"
    );
    let empty = base_table_details("S.T", Vec::new());
    assert!(generate_primary_key(&empty).is_none());
}

#[test]
fn generate_unique_and_check_constraints_render_statements() {
    let mut table = base_table_details("S.T", Vec::new());
    table.unique_constraints = vec![UniqueConstraint {
        name: "UK_T".to_string(),
        columns: vec!["A".to_string(), "B".to_string()],
    }];
    table.check_constraints = vec![CheckConstraint {
        name: "CK_T".to_string(),
        condition: "A > 0".to_string(),
    }];
    assert_eq!(
        generate_unique_constraints(&table)[0],
        "ALTER TABLE \"S\".\"T\" ADD CONSTRAINT \"UK_T\" UNIQUE (\"A\", \"B\");"
    );
    assert_eq!(
        generate_check_constraints(&table)[0],
        "ALTER TABLE \"S\".\"T\" ADD CONSTRAINT \"CK_T\" CHECK (A > 0);"
    );
}

#[test]
fn generate_sequences_renders_all_clauses() {
    let seqs = vec![Sequence {
        name: "SEQ_A".to_string(),
        min_value: Some(1),
        max_value: Some(9999),
        increment_by: 2,
        cache_size: Some(0),
        cycle: true,
        order: false,
        start_with: Some(10),
    }];
    let stmts = generate_sequences("S", &seqs);
    assert_eq!(
        stmts[0],
        "CREATE SEQUENCE \"S\".\"SEQ_A\" START WITH 10 MINVALUE 1 MAXVALUE 9999 INCREMENT BY 2 NOCACHE CYCLE NOORDER;"
    );
}

#[test]
fn generate_create_table_renders_columns_and_comments() {
    let mut table = base_table_details("S.T", Vec::new());
    let mut id = simple_column("ID", "BIGINT");
    id.nullable = false;
    id.identity = true;
    id.identity_start = Some(5);
    id.identity_increment = Some(2);
    let mut name = simple_column("NAME", "VARCHAR");
    name.length = Some(20);
    name.default_value = Some(" 'x' ".to_string());
    name.comment = Some("the name".to_string());
    table.columns = vec![id, name];
    table.comment = Some("a table".to_string());
    let ddl = generate_create_table(&table);
    let expected = "CREATE TABLE \"S\".\"T\" (\n    \"ID\" BIGINT IDENTITY(5, 2) NOT NULL,\n    \"NAME\" VARCHAR(20) DEFAULT 'x' NULL\n);\nCOMMENT ON TABLE \"S\".\"T\" IS 'a table';\nCOMMENT ON COLUMN \"S\".\"T\".\"NAME\" IS 'the name';";
    assert_eq!(ddl, expected);
}
