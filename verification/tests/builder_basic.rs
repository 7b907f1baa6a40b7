use rorm_cli::builder::{build_operation, migration_statements, Param, Statement};
use rorm_cli::engine::apply_migration_statements;
use rorm_cli::model::{ColumnType, Dialect, Field, FieldAnnotation, Migration, Operation};

fn users_model() -> Operation {
    Operation::CreateModel {
        name: "users".to_string(),
        fields: vec![
            Field {
                name: "id".to_string(),
                db_type: ColumnType::Int64,
                annotations: vec![FieldAnnotation::PrimaryKey, FieldAnnotation::AutoIncrement],
            },
            Field {
                name: "name".to_string(),
                db_type: ColumnType::VarChar,
                annotations: vec![FieldAnnotation::MaxLength(255), FieldAnnotation::NotNull],
            },
        ],
    }
}

#[test]
fn create_model_builds_on_every_dialect() {
    for dialect in [Dialect::SQLite, Dialect::MySQL, Dialect::Postgres] {
        let op = users_model();
        let stmts = build_operation(dialect, &op).expect("create model should build");
        assert!(!stmts.is_empty());
        assert!(stmts[0].text.contains("users"));
        assert!(stmts[0].text.contains("IF NOT EXISTS"));
    }
}

#[test]
fn builder_is_deterministic() {
    for dialect in [Dialect::SQLite, Dialect::MySQL, Dialect::Postgres] {
        let op = users_model();
        let a = build_operation(dialect, &op).expect("should build");
        let b = build_operation(dialect, &op).expect("should build");
        assert_eq!(a, b);
        let texts_a: Vec<&str> = a.iter().map(|s: &Statement| s.text.as_str()).collect();
        let texts_b: Vec<&str> = b.iter().map(|s: &Statement| s.text.as_str()).collect();
        assert_eq!(texts_a, texts_b);
    }
}

#[test]
fn raw_sql_picks_the_dialect_text() {
    let op = Operation::RawSQL {
        sqlite: "SELECT 1;".to_string(),
        mysql: "SELECT 2;".to_string(),
        postgres: "SELECT 3;".to_string(),
    };
    let sqlite = build_operation(Dialect::SQLite, &op).unwrap();
    let mysql = build_operation(Dialect::MySQL, &op).unwrap();
    let postgres = build_operation(Dialect::Postgres, &op).unwrap();
    assert_eq!(sqlite[0].text, "SELECT 1;");
    assert_eq!(mysql[0].text, "SELECT 2;");
    assert_eq!(postgres[0].text, "SELECT 3;");
    assert!(sqlite[0].params.is_empty());
}

#[test]
fn migration_statements_concatenates_operations() {
    let m = Migration {
        id: 1,
        name: "initial".to_string(),
        predecessors: vec![],
        operations: vec![
            users_model(),
            Operation::DeleteModel {
                name: "legacy".to_string(),
            },
        ],
    };
    let stmts = migration_statements(Dialect::SQLite, &m).expect("should build");
    assert!(stmts.len() >= 2);
    let last = &stmts[stmts.len() - 1];
    assert!(last.text.contains("DROP TABLE"));
    assert!(last.text.contains("legacy"));
    assert!(last.params.is_empty());
    let no_params: Vec<&Param> = stmts.iter().flat_map(|s| s.params.iter()).collect();
    assert!(no_params.is_empty());
}

#[test]
fn drop_table_text_is_exact() {
    let op = Operation::DeleteModel {
        name: "legacy".to_string(),
    };
    let sqlite = build_operation(Dialect::SQLite, &op).unwrap();
    let mysql = build_operation(Dialect::MySQL, &op).unwrap();
    let postgres = build_operation(Dialect::Postgres, &op).unwrap();
    assert_eq!(sqlite[0].text, "DROP TABLE \"legacy\";");
    assert_eq!(mysql[0].text, "DROP TABLE legacy;");
    assert_eq!(postgres[0].text, "DROP TABLE \"legacy\";");
}

#[test]
fn tracking_insert_text_is_exact() {
    let m = Migration {
        id: 7,
        name: "marker".to_string(),
        predecessors: vec![],
        operations: vec![Operation::RawSQL {
            sqlite: "SELECT 1;".to_string(),
            mysql: "SELECT 1;".to_string(),
            postgres: "SELECT 1;".to_string(),
        }],
    };
    let (_, sqlite) = apply_migration_statements(Dialect::SQLite, &m, "t").unwrap();
    let (_, mysql) = apply_migration_statements(Dialect::MySQL, &m, "t").unwrap();
    let (_, postgres) = apply_migration_statements(Dialect::Postgres, &m, "t").unwrap();
    assert_eq!(
        sqlite.text,
        "INSERT OR ROLLBACK INTO \"t\" (\"migration_id\") VALUES (?);"
    );
    assert_eq!(mysql.text, "INSERT INTO `t` (`migration_id`) VALUES (?);");
    assert_eq!(postgres.text, "INSERT INTO \"t\" (\"migration_id\") VALUES ($1);");
    assert!(matches!(sqlite.params[..], [Param::I32(7)]));
}
