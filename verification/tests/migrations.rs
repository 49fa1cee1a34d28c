use cling_core::migrate::{
    apply_step, start_migration_run, Ledger, MigrationScript, split_statements,
};

fn script(name: &str, body: &str) -> MigrationScript {
    MigrationScript { filename: name.to_string(), body: body.to_string() }
}

fn sample_scripts() -> Vec<MigrationScript> {
    vec![
        script("002_tags.sql", "CREATE TABLE tags (id TEXT PRIMARY KEY);"),
        script("001_tasks.sql", "CREATE TABLE tasks (id TEXT PRIMARY KEY);"),
        script("003_empty.sql", "   \n  "),
    ]
}

#[test]
fn migration_plan_is_sorted_lexically() {
    let ledger = Ledger::new();
    let run = start_migration_run(sample_scripts(), &ledger);
    assert_eq!(run.queue.len(), 3);
    assert_eq!(run.queue[0].filename, "001_tasks.sql");
    assert_eq!(run.queue[1].filename, "002_tags.sql");
    assert_eq!(run.queue[2].filename, "003_empty.sql");
}

#[test]
fn migration_skips_recorded_scripts() {
    let mut ledger = Ledger::new();
    let mut run = start_migration_run(sample_scripts(), &ledger);
    // Apply just the first script, then restart.
    assert!(run.current_script().is_some());
    apply_step(&mut run, &mut ledger, true, 100);
    let run2 = start_migration_run(sample_scripts(), &ledger);
    assert_eq!(run2.queue.len(), 2);
    assert_eq!(run2.queue[0].filename, "002_tags.sql");
}

#[test]
fn migration_is_idempotent() {
    let mut ledger = Ledger::new();
    let mut run = start_migration_run(sample_scripts(), &ledger);
    while run.current_script().is_some() {
        apply_step(&mut run, &mut ledger, true, 100);
    }
    assert_eq!(run.applied_count(), 3);
    assert_eq!(ledger.records.len(), 3);
    // A second run over the same scripts plans nothing and leaves the
    // ledger exactly as it was.
    let mut run2 = start_migration_run(sample_scripts(), &ledger);
    assert_eq!(run2.queue.len(), 0);
    assert!(run2.current_script().is_none());
    assert_eq!(run2.applied_count(), 0);
    assert_eq!(ledger.records.len(), 3);
}

#[test]
fn failed_script_leaves_no_ledger_record() {
    let mut ledger = Ledger::new();
    let mut run = start_migration_run(sample_scripts(), &ledger);
    apply_step(&mut run, &mut ledger, true, 100);
    assert_eq!(ledger.records.len(), 1);
    // The next script's transaction fails: the ledger is untouched and
    // the run freezes, surfacing the failing filename.
    apply_step(&mut run, &mut ledger, false, 101);
    assert_eq!(ledger.records.len(), 1);
    assert_eq!(ledger.records[0].filename, "001_tasks.sql");
    assert_eq!(run.failed.as_deref(), Some("002_tags.sql"));
    assert!(run.current_script().is_none());
    assert_eq!(run.applied_count(), 1);
}

#[test]
fn ledger_records_each_filename_once() {
    let mut ledger = Ledger::new();
    let mut run = start_migration_run(sample_scripts(), &ledger);
    apply_step(&mut run, &mut ledger, true, 7);
    assert!(ledger.contains(&"001_tasks.sql".to_string()));
    assert!(!ledger.contains(&"002_tags.sql".to_string()));
    assert_eq!(ledger.records[0].executed_at, 7);
}

#[test]
fn statements_split_on_semicolons_and_trim() {
    let stmts = split_statements("CREATE TABLE a (x INT);\n INSERT INTO a VALUES (1) ; \n");
    assert_eq!(stmts.len(), 2);
    assert_eq!(stmts[0], "CREATE TABLE a (x INT)");
    assert_eq!(stmts[1], "INSERT INTO a VALUES (1)");
}

#[test]
fn blank_script_has_no_statements() {
    let stmts = split_statements("  \n\t ;;  \n");
    assert_eq!(stmts.len(), 0);
}
