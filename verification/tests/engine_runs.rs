use rorm_cli::engine::{plan_run, simulate_run};
use rorm_cli::model::{Migration, Operation};
use rorm_cli::store::MigrationStore;

fn mig(id: u16, name: &str, predecessors: Vec<u16>) -> Migration {
    Migration {
        id,
        name: name.to_string(),
        predecessors,
        operations: vec![Operation::RawSQL {
            sqlite: format!("SELECT {id};"),
            mysql: format!("SELECT {id};"),
            postgres: format!("SELECT {id};"),
        }],
    }
}

fn store_123() -> MigrationStore {
    MigrationStore::from_migrations(vec![
        mig(1, "one", vec![]),
        mig(2, "two", vec![1]),
        mig(3, "three", vec![2]),
    ])
    .expect("store should build")
}

#[test]
fn fresh_database_applies_everything() {
    let store = store_123();
    let plan = plan_run(&store, None, None).expect("plan should resolve");
    assert_eq!(plan, vec![1, 2, 3]);
}

#[test]
fn second_run_is_a_noop() {
    let store = store_123();
    let tracking: Vec<u16> = vec![];
    let first = simulate_run(&store, &tracking, None, None).expect("first run should resolve");
    assert_eq!(first.applied, vec![1, 2, 3]);
    assert_eq!(first.tracking, vec![1, 2, 3]);
    assert_eq!(first.failure, None);
    let second = simulate_run(&store, &first.tracking, None, None).expect("second run should resolve");
    assert_eq!(second.applied, Vec::<u16>::new());
    assert_eq!(second.tracking, vec![1, 2, 3]);
    assert_eq!(second.failure, None);
}

#[test]
fn tracking_is_a_contiguous_prefix() {
    let store = store_123();
    let tracking: Vec<u16> = vec![1];
    let run = simulate_run(&store, &tracking, None, None).expect("run should resolve");
    assert_eq!(run.applied, vec![2, 3]);
    assert_eq!(run.tracking, vec![1, 2, 3]);
}

#[test]
fn unknown_last_row_aborts_before_anything_runs() {
    let store = store_123();
    let tracking: Vec<u16> = vec![1, 7];
    let err = simulate_run(&store, &tracking, None, None).expect_err("run must refuse");
    assert_eq!(err.last_applied, 7);
    let err2 = plan_run(&store, Some(7), None).expect_err("plan must refuse");
    assert_eq!(err2.last_applied, 7);
}

#[test]
fn apply_until_bounds_the_run_and_the_rest_follows() {
    let store = store_123();
    let tracking: Vec<u16> = vec![];
    let bounded = simulate_run(&store, &tracking, Some(2), None).expect("bounded run");
    assert_eq!(bounded.applied, vec![1, 2]);
    assert_eq!(bounded.tracking, vec![1, 2]);
    let rest = simulate_run(&store, &bounded.tracking, None, None).expect("unbounded run");
    assert_eq!(rest.applied, vec![3]);
    assert_eq!(rest.tracking, vec![1, 2, 3]);
}

#[test]
fn failure_keeps_earlier_rows_and_skips_the_failed_one() {
    let store = store_123();
    let tracking: Vec<u16> = vec![];
    let run = simulate_run(&store, &tracking, None, Some(2)).expect("run should resolve");
    assert_eq!(run.applied, vec![1]);
    assert_eq!(run.tracking, vec![1]);
    assert_eq!(run.failure, Some(2));
    assert!(!run.tracking.contains(&2));
    assert!(!run.tracking.contains(&3));
}

#[test]
fn bound_already_reached_is_a_noop() {
    let store = store_123();
    let tracking: Vec<u16> = vec![1, 2];
    let run = simulate_run(&store, &tracking, Some(2), None).expect("run should resolve");
    assert_eq!(run.applied, Vec::<u16>::new());
    assert_eq!(run.failure, None);
}
