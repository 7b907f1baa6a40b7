use rorm_cli::merge::merge;
use rorm_cli::model::{ColumnType, Field, FieldAnnotation, Migration, Operation};
use rorm_cli::squash::{squash, squash_operations, SquashRangeError};
use rorm_cli::store::MigrationStore;

fn field(name: &str) -> Field {
    Field {
        name: name.to_string(),
        db_type: ColumnType::Int64,
        annotations: vec![FieldAnnotation::NotNull],
    }
}

fn mig(id: u16, name: &str, predecessors: Vec<u16>, operations: Vec<Operation>) -> Migration {
    Migration {
        id,
        name: name.to_string(),
        predecessors,
        operations,
    }
}

#[test]
fn squash_cancels_create_and_delete_field() {
    let store = MigrationStore::from_migrations(vec![
        mig(
            1,
            "add_f",
            vec![],
            vec![Operation::CreateField {
                model: "m".to_string(),
                field: field("f"),
            }],
        ),
        mig(
            2,
            "drop_f",
            vec![1],
            vec![Operation::DeleteField {
                model: "m".to_string(),
                name: "f".to_string(),
            }],
        ),
    ])
    .expect("store should build");
    let out = squash(&store, 1, 2, "squashed".to_string()).expect("range is valid");
    assert_eq!(out.removed, vec![1, 2]);
    let migs = out.store.migrations();
    assert_eq!(migs.len(), 1);
    assert_eq!(migs[0].id, 2);
    assert_eq!(migs[0].name, "squashed");
    assert!(migs[0].operations.is_empty());
}

#[test]
fn squash_folds_field_into_created_model() {
    let store = MigrationStore::from_migrations(vec![
        mig(
            1,
            "create_m",
            vec![],
            vec![Operation::CreateModel {
                name: "m".to_string(),
                fields: vec![field("a")],
            }],
        ),
        mig(
            2,
            "add_b",
            vec![1],
            vec![Operation::CreateField {
                model: "m".to_string(),
                field: field("b"),
            }],
        ),
    ])
    .expect("store should build");
    let out = squash(&store, 1, 2, "squashed".to_string()).expect("range is valid");
    let migs = out.store.migrations();
    assert_eq!(migs.len(), 1);
    assert_eq!(migs[0].operations.len(), 1);
    match &migs[0].operations[0] {
        Operation::CreateModel { name, fields } => {
            assert_eq!(name, "m");
            let names: Vec<&str> = fields.iter().map(|f| f.name.as_str()).collect();
            assert_eq!(names, vec!["a", "b"]);
        }
        other => panic!("expected a CreateModel, got {other:?}"),
    }
}

#[test]
fn squash_rejects_a_backwards_range() {
    let store = MigrationStore::from_migrations(vec![mig(1, "one", vec![], vec![])])
        .expect("store should build");
    let err = squash(&store, 2, 1, "s".to_string()).expect_err("range must be refused");
    assert_eq!(err, SquashRangeError::EmptyRange { first: 2, last: 1 });
}

#[test]
fn squash_rejects_a_missing_endpoint() {
    let store = MigrationStore::from_migrations(vec![mig(1, "one", vec![], vec![])])
        .expect("store should build");
    let err = squash(&store, 1, 9, "s".to_string()).expect_err("range must be refused");
    assert_eq!(err, SquashRangeError::MissingEndpoint { id: 9 });
}

#[test]
fn squash_rejects_an_external_dependent_on_mid_range() {
    let store = MigrationStore::from_migrations(vec![
        mig(1, "one", vec![], vec![]),
        mig(2, "two", vec![1], vec![]),
        mig(3, "three", vec![1], vec![]),
    ])
    .expect("store should build");
    let err = squash(&store, 1, 2, "s".to_string()).expect_err("range must be refused");
    assert_eq!(
        err,
        SquashRangeError::ExternalDependent {
            id: 3,
            predecessor: 1
        }
    );
}

#[test]
fn fold_rules_compose_renames() {
    let ops = vec![
        Operation::RenameModel {
            old: "a".to_string(),
            new: "b".to_string(),
        },
        Operation::RenameModel {
            old: "b".to_string(),
            new: "c".to_string(),
        },
    ];
    let folded = squash_operations(&ops);
    assert_eq!(folded.len(), 1);
    match &folded[0] {
        Operation::RenameModel { old, new } => {
            assert_eq!(old, "a");
            assert_eq!(new, "c");
        }
        other => panic!("expected a RenameModel, got {other:?}"),
    }
}

#[test]
fn merge_with_a_single_head_is_a_noop() {
    let store = MigrationStore::from_migrations(vec![
        mig(1, "one", vec![], vec![]),
        mig(2, "two", vec![1], vec![]),
    ])
    .expect("store should build");
    let out = merge(&store, "merged".to_string()).expect("no conflict");
    assert!(out.is_none());
}

#[test]
fn merge_of_two_heads_builds_on_both() {
    let store = MigrationStore::from_migrations(vec![
        mig(1, "base", vec![], vec![]),
        mig(
            3,
            "left",
            vec![1],
            vec![Operation::CreateModel {
                name: "left_model".to_string(),
                fields: vec![field("a")],
            }],
        ),
        mig(
            5,
            "right",
            vec![1],
            vec![Operation::CreateModel {
                name: "right_model".to_string(),
                fields: vec![field("b")],
            }],
        ),
    ])
    .expect("store should build");
    let merged = merge(&store, "merged".to_string())
        .expect("no conflict")
        .expect("two heads need a merge");
    assert_eq!(merged.id, 6);
    assert_eq!(merged.predecessors, vec![3, 5]);
    assert!(merged.operations.is_empty());
}

#[test]
fn merge_reports_a_conflict_on_the_same_model() {
    let store = MigrationStore::from_migrations(vec![
        mig(1, "base", vec![], vec![]),
        mig(
            3,
            "left",
            vec![1],
            vec![Operation::CreateField {
                model: "shared".to_string(),
                field: field("a"),
            }],
        ),
        mig(
            5,
            "right",
            vec![1],
            vec![Operation::DeleteField {
                model: "shared".to_string(),
                name: "b".to_string(),
            }],
        ),
    ])
    .expect("store should build");
    let err = merge(&store, "merged".to_string()).expect_err("branches conflict");
    assert_eq!(err.model, "shared");
    assert_eq!(err.head_a, 3);
    assert_eq!(err.head_b, 5);
}
