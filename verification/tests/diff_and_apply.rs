use rorm_cli::diff::{diff_schemas, make_migration, replay_store, ModelDef};
use rorm_cli::engine::apply_migration_statements;
use rorm_cli::model::{ColumnType, Dialect, Field, FieldAnnotation, Migration, Operation};
use rorm_cli::store::MigrationStore;

fn field(name: &str) -> Field {
    Field {
        name: name.to_string(),
        db_type: ColumnType::Int32,
        annotations: vec![],
    }
}

fn model(name: &str, fields: Vec<Field>) -> ModelDef {
    ModelDef {
        name: name.to_string(),
        fields,
    }
}

#[test]
fn replay_reconstructs_the_schema() {
    let store = MigrationStore::from_migrations(vec![
        Migration {
            id: 1,
            name: "init".to_string(),
            predecessors: vec![],
            operations: vec![Operation::CreateModel {
                name: "user".to_string(),
                fields: vec![field("id"), field("age")],
            }],
        },
        Migration {
            id: 2,
            name: "rename".to_string(),
            predecessors: vec![1],
            operations: vec![Operation::RenameField {
                table_name: "user".to_string(),
                old: "age".to_string(),
                new: "years".to_string(),
            }],
        },
    ])
    .expect("store should build");
    let schema = replay_store(&store);
    assert_eq!(schema.len(), 1);
    assert_eq!(schema[0].name, "user");
    let names: Vec<&str> = schema[0].fields.iter().map(|f| f.name.as_str()).collect();
    assert_eq!(names, vec!["id", "years"]);
}

#[test]
fn diff_emits_the_delta() {
    let old = vec![model("kept", vec![field("id"), field("gone")]), model("dropped", vec![])];
    let new = vec![model("kept", vec![field("id"), field("fresh")]), model("added", vec![field("id")])];
    let ops = diff_schemas(&old, &new);
    assert_eq!(ops.len(), 4);
    assert!(matches!(&ops[0], Operation::DeleteModel { name } if name == "dropped"));
    assert!(matches!(&ops[1], Operation::CreateModel { name, .. } if name == "added"));
    assert!(matches!(
        &ops[2],
        Operation::DeleteField { model, name } if model == "kept" && name == "gone"
    ));
    assert!(matches!(
        &ops[3],
        Operation::CreateField { model, field } if model == "kept" && field.name == "fresh"
    ));
}

#[test]
fn identical_schemas_make_no_migration() {
    let store = MigrationStore::from_migrations(vec![]).expect("an empty store is fine");
    let snapshot: Vec<ModelDef> = vec![];
    assert!(make_migration(&store, &snapshot, "nothing".to_string()).is_none());
}

#[test]
fn a_new_model_makes_the_first_migration() {
    let store = MigrationStore::from_migrations(vec![]).expect("an empty store is fine");
    let snapshot = vec![model(
        "user",
        vec![Field {
            name: "id".to_string(),
            db_type: ColumnType::Int64,
            annotations: vec![FieldAnnotation::PrimaryKey, FieldAnnotation::AutoIncrement],
        }],
    )];
    let m = make_migration(&store, &snapshot, "initial".to_string()).expect("a delta exists");
    assert_eq!(m.id, 1);
    assert_eq!(m.name, "initial");
    assert!(m.predecessors.is_empty());
    assert_eq!(m.operations.len(), 1);
    assert!(matches!(&m.operations[0], Operation::CreateModel { name, .. } if name == "user"));
}

#[test]
fn apply_statements_end_with_the_tracking_insert() {
    let m = Migration {
        id: 4,
        name: "fourth".to_string(),
        predecessors: vec![3],
        operations: vec![Operation::CreateModel {
            name: "thing".to_string(),
            fields: vec![field("id")],
        }],
    };
    let (stmts, insert) =
        apply_migration_statements(Dialect::Postgres, &m, "_rorm__last_migration")
            .expect("should build");
    assert!(!stmts.is_empty());
    assert!(insert.text.contains("INSERT"));
    assert!(insert.text.contains("_rorm__last_migration"));
    assert_eq!(insert.params.len(), 1);
    assert!(matches!(insert.params[0], rorm_cli::builder::Param::I32(4)));
}

#[test]
fn a_build_error_names_no_statements() {
    let m = Migration {
        id: 1,
        name: "broken".to_string(),
        predecessors: vec![],
        operations: vec![Operation::CreateModel {
            name: "empty".to_string(),
            fields: vec![],
        }],
    };
    let err = apply_migration_statements(Dialect::SQLite, &m, "_rorm__last_migration")
        .expect_err("a model without columns cannot be built");
    assert_eq!(err.message, "cannot create a model without fields");
}

#[test]
fn a_changed_field_type_is_replaced() {
    let old = vec![model(
        "m",
        vec![Field {
            name: "f".to_string(),
            db_type: ColumnType::Int32,
            annotations: vec![],
        }],
    )];
    let new = vec![model(
        "m",
        vec![
            Field {
                name: "f".to_string(),
                db_type: ColumnType::Int64,
                annotations: vec![],
            },
            field("g"),
        ],
    )];
    let ops = diff_schemas(&old, &new);
    assert_eq!(ops.len(), 3);
    assert!(matches!(&ops[0], Operation::DeleteField { model, name } if model == "m" && name == "f"));
    assert!(matches!(
        &ops[1],
        Operation::CreateField { model, field } if model == "m" && field.name == "f"
            && field.db_type == ColumnType::Int64
    ));
    assert!(matches!(&ops[2], Operation::CreateField { model, field } if model == "m" && field.name == "g"));
}

#[test]
fn changed_annotations_alone_are_replaced() {
    let bare = Field {
        name: "f".to_string(),
        db_type: ColumnType::Int32,
        annotations: vec![],
    };
    let constrained = Field {
        name: "f".to_string(),
        db_type: ColumnType::Int32,
        annotations: vec![FieldAnnotation::NotNull],
    };
    let ops = diff_schemas(&vec![model("m", vec![bare])], &vec![model("m", vec![constrained])]);
    assert_eq!(ops.len(), 2);
    assert!(matches!(&ops[0], Operation::DeleteField { model, name } if model == "m" && name == "f"));
    assert!(matches!(
        &ops[1],
        Operation::CreateField { model, field } if model == "m"
            && field.annotations == vec![FieldAnnotation::NotNull]
    ));
}

#[test]
fn a_type_change_alone_makes_a_migration() {
    let store = MigrationStore::from_migrations(vec![Migration {
        id: 1,
        name: "init".to_string(),
        predecessors: vec![],
        operations: vec![Operation::CreateModel {
            name: "m".to_string(),
            fields: vec![Field {
                name: "f".to_string(),
                db_type: ColumnType::Int32,
                annotations: vec![],
            }],
        }],
    }])
    .expect("store should build");
    let snapshot = vec![model(
        "m",
        vec![Field {
            name: "f".to_string(),
            db_type: ColumnType::Int64,
            annotations: vec![],
        }],
    )];
    let m = make_migration(&store, &snapshot, "widen".to_string())
        .expect("a changed type is a change");
    assert_eq!(m.operations.len(), 2);
    assert!(matches!(&m.operations[0], Operation::DeleteField { .. }));
    assert!(matches!(&m.operations[1], Operation::CreateField { .. }));
}
