use deuterium_orm::adapter::PostgresAdapter;
use deuterium_orm::discovery::{parse_stem, symbol_name, MigrationState};
use deuterium_orm::migration::{Migration, MigrationError};
use deuterium_orm::registry::MigrationRegistry;
use deuterium_orm::runner::{rollback, run, Action, Direction, Event, MigrationRunner};
use deuterium_orm::store::{
    delete_version, ensure_schema_migrations, get_versions_as_hash, get_versions_as_vec, insert_version,
    select_versions,
};
use deuterium_orm::timecode::{full_migration_name, gen_full_name, gen_timecode};

const V1: u64 = 202401010000;
const V2: u64 = 202401020000;

fn registry(versions: &[u64]) -> MigrationRegistry<&'static str> {
    let ms = versions.iter().map(|v| Migration::new(*v, "Unit", "raw")).collect();
    MigrationRegistry::new(ms).unwrap()
}

/// Drives a runner to its end with every step succeeding; returns the actions taken.
fn drive(mut r: MigrationRunner) -> (Vec<Action>, MigrationRunner) {
    let mut actions = vec![];
    loop {
        let a = r.next_action();
        if a == Action::Finished || a == Action::Halted {
            return (actions, r);
        }
        actions.push(a);
        r.on_event(Event::Succeeded);
    }
}

#[test]
fn parse_stem_reads_version_and_symbol() {
    let (v, name) = parse_stem("_202401011200_add_index").unwrap();
    assert_eq!(v, 202401011200);
    assert_eq!(name, "AddIndex");
}

#[test]
fn parse_stem_keeps_other_characters() {
    let (v, name) = parse_stem("_000000000007__x_Y_9z").unwrap();
    assert_eq!(v, 7);
    assert_eq!(name, "_X_Y_9z");
}

#[test]
fn parse_stem_rejects_other_names() {
    assert!(parse_stem("202401011200_add").is_none());
    assert!(parse_stem("_20240101120_").is_none());
    assert!(parse_stem("_2024010112x0_add").is_none());
    assert!(parse_stem("mod").is_none());
}

#[test]
fn symbol_name_upcases_after_underscores() {
    assert_eq!(symbol_name("_create_jedi_table"), "CreateJediTable");
    assert_eq!(symbol_name(""), "");
}

#[test]
fn generate_skips_other_entries() {
    let state = MigrationState { path: "migrations".to_string() };
    let stems = vec!["mod".to_string(), "_202401020000_second".to_string(), "_202401010000_first".to_string()];
    let entries = state.generate(&stems).unwrap();
    assert_eq!(entries.len(), 2);
    assert_eq!(entries[0].stem, "_202401010000_first");
    assert_eq!(entries[0].version, V1);
    assert_eq!(entries[0].name, "First");
    assert_eq!(entries[1].stem, "_202401020000_second");
    assert_eq!(entries[1].version, V2);
    assert_eq!(entries[1].name, "Second");
}

#[test]
fn generate_rejects_duplicate_versions() {
    let state = MigrationState { path: "migrations".to_string() };
    let stems = vec!["_202401010000_a".to_string(), "_202401010000_b".to_string()];
    assert!(matches!(state.generate(&stems), Err(MigrationError::DuplicateMigrationVersion(V1))));
}

#[test]
fn registry_rejects_duplicate_versions() {
    let ms = vec![Migration::new(V1, "A", ()), Migration::new(V1, "B", ())];
    assert!(matches!(MigrationRegistry::new(ms), Err(MigrationError::DuplicateMigrationVersion(V1))));
}

#[test]
fn registry_orders_and_looks_up() {
    let ms = vec![Migration::new(30, "C", 'c'), Migration::new(10, "A", 'a'), Migration::new(20, "B", 'b')];
    let reg = MigrationRegistry::new(ms).unwrap();
    assert_eq!(reg.len(), 3);
    assert_eq!(reg.ascending_versions(), vec![10, 20, 30]);
    assert_eq!(reg.descending_versions(), vec![30, 20, 10]);
    assert_eq!(*reg.get(0).raw(), 'a');
    let b = reg.lookup(20).unwrap();
    assert_eq!(b.name(), "B");
    assert_eq!(*b.version(), 20);
    assert!(reg.lookup(25).is_none());
}

#[test]
fn run_applies_pending_in_ascending_order() {
    let reg = registry(&[V2, V1]);
    let (actions, r) = drive(run(&reg, &vec![]));
    assert_eq!(
        actions,
        vec![
            Action::Apply(V1),
            Action::RecordVersion(V1 as i64),
            Action::Apply(V2),
            Action::RecordVersion(V2 as i64),
        ]
    );
    assert_eq!(r.store(), &vec![V1 as i64, V2 as i64]);
    assert!(r.failure().is_none());
    assert_eq!(r.completed(), 2);
}

#[test]
fn run_twice_does_nothing_the_second_time() {
    let reg = registry(&[V1, V2]);
    let (_, first) = drive(run(&reg, &vec![V1 as i64]));
    let after = first.store().clone();
    assert_eq!(after, vec![V1 as i64, V2 as i64]);
    let second = run(&reg, &after);
    assert!(second.plan().is_empty());
    assert_eq!(second.next_action(), Action::Finished);
    assert_eq!(second.store(), &after);
}

#[test]
fn rollback_one_reverts_the_newest() {
    let reg = registry(&[V1, V2]);
    let rows = vec![V1 as i64, V2 as i64];
    let (actions, r) = drive(rollback(1, &reg, &rows));
    assert_eq!(actions, vec![Action::Revert(V2), Action::RemoveVersion(V2 as i64)]);
    assert_eq!(r.store(), &vec![V1 as i64]);
}

#[test]
fn rollback_goes_newest_first() {
    let reg = registry(&[1, 2, 3, 4]);
    let rows = vec![2, 4, 1, 3];
    let (actions, r) = drive(rollback(3, &reg, &rows));
    assert_eq!(
        actions,
        vec![
            Action::Revert(4),
            Action::RemoveVersion(4),
            Action::Revert(3),
            Action::RemoveVersion(3),
            Action::Revert(2),
            Action::RemoveVersion(2),
        ]
    );
    assert_eq!(r.store(), &vec![1]);
}

#[test]
fn rollback_of_unknown_version_is_orphaned() {
    let reg = registry(&[1, 2]);
    let r = rollback(1, &reg, &vec![1, 2, 9]);
    assert_eq!(r.next_action(), Action::Halted);
    assert!(r.plan().is_empty());
    assert!(matches!(r.failure(), Some(MigrationError::OrphanedMigrationVersion(9))));
    assert_eq!(r.store(), &vec![1, 2, 9]);
    let neg = rollback(1, &reg, &vec![-4]);
    assert!(matches!(neg.failure(), Some(MigrationError::OrphanedMigrationVersion(-4))));
}

#[test]
fn rollback_reverts_newer_versions_before_halting_on_an_orphan() {
    let reg = registry(&[1, 3]);
    let rows = vec![1, 2, 3];
    let (actions, r) = drive(rollback(3, &reg, &rows));
    assert_eq!(actions, vec![Action::Revert(3), Action::RemoveVersion(3)]);
    assert_eq!(r.next_action(), Action::Halted);
    assert!(matches!(r.failure(), Some(MigrationError::OrphanedMigrationVersion(2))));
    assert_eq!(r.store(), &vec![1, 2]);
}

#[test]
fn run_halts_on_the_first_failure() {
    let reg = registry(&[1, 2]);
    let mut r = run(&reg, &vec![]);
    assert_eq!(r.next_action(), Action::Apply(1));
    r.on_event(Event::Succeeded);
    assert_eq!(r.next_action(), Action::RecordVersion(1));
    r.on_event(Event::Succeeded);
    assert_eq!(r.next_action(), Action::Apply(2));
    r.on_event(Event::Failed("syntax error".to_string()));
    assert_eq!(r.next_action(), Action::Halted);
    match r.failure() {
        Some(MigrationError::MigrationExecutionFailed(2, msg)) => assert_eq!(msg, "syntax error"),
        other => panic!("unexpected {:?}", other),
    }
    assert_eq!(r.store(), &vec![1]);
    assert_eq!(r.completed(), 1);
}

#[test]
fn directions_differ() {
    assert_ne!(Direction::Up, Direction::Down);
}

#[test]
fn store_statements() {
    let c = ensure_schema_migrations();
    assert_eq!(c.sql, "CREATE TABLE IF NOT EXISTS schema_migrations (version BIGINT NOT NULL);");
    assert!(c.params.is_empty());
    let s = select_versions();
    assert_eq!(s.sql, "SELECT version FROM schema_migrations ORDER BY version DESC;");
    let i = insert_version(&42);
    assert_eq!(i.sql, "INSERT INTO schema_migrations VALUES ($1);");
    assert_eq!(i.params, vec![42]);
    let d = delete_version(&42);
    assert_eq!(d.sql, "DELETE FROM schema_migrations WHERE version = $1;");
    assert_eq!(d.params, vec![42]);
}

#[test]
fn stored_versions_as_vec_are_newest_first() {
    assert_eq!(get_versions_as_vec(&vec![3, 9, 1, 9]), vec![9, 9, 3, 1]);
    assert!(get_versions_as_vec(&vec![]).is_empty());
}

#[test]
fn stored_versions_as_hash() {
    let m = get_versions_as_hash(&vec![5, 7, 5]);
    assert_eq!(m.len(), 2);
    assert_eq!(m.get(&5), Some(&true));
    assert_eq!(m.get(&6), None);
}

#[test]
fn full_migration_name_joins_parts() {
    assert_eq!(full_migration_name("240101120000", "add_index"), "_240101120000_add_index");
}

#[test]
fn gen_full_name_stamps_twelve_digits() {
    let code = gen_timecode();
    assert_eq!(code.len(), 12);
    assert!(code.chars().all(|c| c.is_ascii_digit()));
    let n = gen_full_name("create_jedi");
    assert!(n.starts_with('_'));
    assert!(n.ends_with("_create_jedi"));
    assert_eq!(n.len(), 1 + 12 + 1 + "create_jedi".len());
    let (_, symbol) = parse_stem(&n).unwrap();
    assert_eq!(symbol, "CreateJedi");
}

#[test]
fn prepare_params_puts_callers_first() {
    let a = [1, 2];
    let b = [3];
    assert_eq!(PostgresAdapter::prepare_params(&a, &b), vec![1, 2, 3]);
    assert!(PostgresAdapter::prepare_params::<u8>(&[], &[]).is_empty());
}
