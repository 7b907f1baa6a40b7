use rorm_cli::config::{DatabaseConfig, DatabaseDriver};
use rorm_cli::engine::{last_migration_query, tracking_table_statements, MigrateOptions};
use rorm_cli::model::{Dialect, Migration};
use rorm_cli::store::{MigrationStore, StoreError};

fn mig(id: u16, predecessors: Vec<u16>) -> Migration {
    Migration {
        id,
        name: format!("m{id:04}"),
        predecessors,
        operations: vec![],
    }
}

#[test]
fn store_orders_by_id() {
    let store = MigrationStore::from_migrations(vec![mig(3, vec![]), mig(1, vec![]), mig(2, vec![1])])
        .expect("store should build");
    let ids: Vec<u16> = store.migrations().iter().map(|m| m.id).collect();
    assert_eq!(ids, vec![1, 2, 3]);
    assert_eq!(store.len(), 3);
    assert!(store.contains_id(2));
    assert!(!store.contains_id(9));
    assert_eq!(store.next_free_id(), 4);
}

#[test]
fn store_rejects_duplicate_ids() {
    let err = MigrationStore::from_migrations(vec![mig(1, vec![]), mig(1, vec![])])
        .expect_err("duplicate ids must be refused");
    assert_eq!(err, StoreError::DuplicateId { id: 1 });
}

#[test]
fn store_rejects_forward_predecessors() {
    let err = MigrationStore::from_migrations(vec![mig(1, vec![2])])
        .expect_err("a forward predecessor must be refused");
    assert_eq!(
        err,
        StoreError::PredecessorNotEarlier {
            id: 1,
            predecessor: 2
        }
    );
}

#[test]
fn empty_store_hands_out_the_first_id() {
    let store = MigrationStore::from_migrations(vec![]).expect("an empty store is fine");
    assert_eq!(store.next_free_id(), 1);
}

#[test]
fn sqlite_config_needs_a_filename() {
    let bad = DatabaseConfig {
        driver: DatabaseDriver::SQLite {
            filename: String::new(),
        },
        last_migration_table_name: None,
    };
    assert!(bad.validate().is_err());
    let good = DatabaseConfig {
        driver: DatabaseDriver::SQLite {
            filename: "db.sqlite3".to_string(),
        },
        last_migration_table_name: None,
    };
    assert!(good.validate().is_ok());
}

#[test]
fn tracking_table_name_defaults() {
    let config = DatabaseConfig {
        driver: DatabaseDriver::Postgres {
            name: "db".to_string(),
            host: "localhost".to_string(),
            port: 5432,
            user: "user".to_string(),
            password: "password".to_string(),
        },
        last_migration_table_name: None,
    };
    assert_eq!(config.effective_table_name(), "_rorm__last_migration");
    let config = DatabaseConfig {
        last_migration_table_name: Some("own_table".to_string()),
        ..config
    };
    assert_eq!(config.effective_table_name(), "own_table");
}

#[test]
fn last_migration_query_reads_the_newest_row() {
    assert_eq!(
        last_migration_query("_rorm__last_migration"),
        "SELECT migration_id FROM _rorm__last_migration ORDER BY id DESC LIMIT 1;"
    );
}

#[test]
fn tracking_table_is_created_if_not_exists() {
    for dialect in [Dialect::SQLite, Dialect::MySQL, Dialect::Postgres] {
        let stmts = tracking_table_statements(dialect, "_rorm__last_migration")
            .expect("the tracking table should build");
        assert!(!stmts.is_empty());
        assert!(stmts[0].text.contains("IF NOT EXISTS"));
        assert!(stmts[0].text.contains("_rorm__last_migration"));
        assert!(stmts[0].text.contains("migration_id"));
    }
}

#[test]
fn options_carry_the_run_parameters() {
    let options = MigrateOptions {
        migration_dir: "migrations".to_string(),
        database_config: "database.toml".to_string(),
        log_queries: false,
        apply_until: Some(7),
    };
    assert_eq!(options.migration_dir, "migrations");
    assert_eq!(options.apply_until, Some(7));
}
