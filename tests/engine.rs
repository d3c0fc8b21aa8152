use schemato::applier::{after_commit, after_execute, after_read, after_record, pending, ExecStep, ReadStep};
use schemato::bootstrap::{create_database_sql, database_action, schema_action, DatabaseAction, SchemaAction, LOCK_ID};
use schemato::catalog::{build_catalog, parse_version, MigrationFile};
use schemato::config::{push_decimal, SchematoConfig};
use schemato::connect::{ConnectStep, Connector};
use schemato::error::EngineError;
use schemato::ledger::Ledger;
use schemato::run::{settle_version, Progress, StepOutcomes};

fn config() -> SchematoConfig {
    SchematoConfig {
        db_name: "app".to_string(),
        db_host: "db.example".to_string(),
        db_port: 5432,
        db_user: "postgres".to_string(),
        db_pass: Some("secret".to_string()),
        prefix: "/srv/schema".to_string(),
        attempts: 5,
        backoff: 2,
        force: false,
    }
}

fn names(list: &[&str]) -> Vec<String> {
    list.iter().map(|s| s.to_string()).collect()
}

fn entry(version: i32, filename: &str) -> MigrationFile {
    MigrationFile { version, filename: filename.to_string() }
}

fn versions_of(files: &[MigrationFile]) -> Vec<i32> {
    files.iter().map(|m| m.version).collect()
}

#[test]
fn uri_safe_leaves_out_password() {
    assert_eq!(config().uri_safe(), "postgres://postgres@db.example:5432");
}

#[test]
fn uri_safe_small_and_large_ports() {
    let mut c = config();
    c.db_port = 0;
    assert_eq!(c.uri_safe(), "postgres://postgres@db.example:0");
    c.db_port = 65535;
    assert_eq!(c.uri_safe(), "postgres://postgres@db.example:65535");
    c.db_port = 10;
    assert_eq!(c.uri_safe(), "postgres://postgres@db.example:10");
}

#[test]
fn decimal_rendering_appends() {
    let mut s = String::from("n=");
    push_decimal(&mut s, 907);
    assert_eq!(s, "n=907");
}

#[test]
fn file_path_joins_directory_and_name() {
    assert_eq!(config().file_path("0003.sql"), "/srv/schema/0003.sql");
}

#[test]
fn database_for_admin_and_target() {
    assert_eq!(config().database_for(true), "");
    assert_eq!(config().database_for(false), "app");
}

#[test]
fn parse_version_accepts_four_digits() {
    assert_eq!(parse_version("0001.sql"), Some(1));
    assert_eq!(parse_version("0000.sql"), Some(0));
    assert_eq!(parse_version("9999.sql"), Some(9999));
    assert_eq!(parse_version("1234.sql"), Some(1234));
}

#[test]
fn parse_version_rejects_other_names() {
    assert_eq!(parse_version("1.sql"), None);
    assert_eq!(parse_version("00001.sql"), None);
    assert_eq!(parse_version("0001.txt"), None);
    assert_eq!(parse_version("00a1.sql"), None);
    assert_eq!(parse_version("0001_sql"), None);
    assert_eq!(parse_version(""), None);
    assert_eq!(parse_version("README"), None);
}

#[test]
fn catalog_is_ordered_whatever_the_listing_order() {
    let cat = build_catalog(&names(&["0010.sql", "notes.txt", "0002.sql", "0001.sql", "0003.sql.bak"]));
    assert_eq!(versions_of(&cat), vec![1, 2, 10]);
    let files: Vec<&str> = cat.iter().map(|m| m.filename.as_str()).collect();
    assert_eq!(files, vec!["0001.sql", "0002.sql", "0010.sql"]);
}

#[test]
fn catalog_of_nothing_is_empty() {
    assert!(build_catalog(&Vec::new()).is_empty());
    assert!(build_catalog(&names(&["a.sql", "schema.sql"])).is_empty());
}

#[test]
fn ledger_membership() {
    let ledger = Ledger::from_rows(vec![0, 1, 3]);
    assert!(ledger.contains(0));
    assert!(ledger.contains(3));
    assert!(!ledger.contains(2));
    assert!(!Ledger::from_rows(Vec::new()).contains(0));
}

#[test]
fn skip_on_installed_applies_only_missing() {
    let cat = vec![entry(1, "0001.sql"), entry(2, "0002.sql"), entry(3, "0003.sql")];
    let ledger = Ledger::from_rows(vec![0, 1, 3]);
    let todo = pending(&cat, &ledger);
    assert_eq!(versions_of(&todo), vec![2]);
    assert_eq!(todo[0].filename, "0002.sql");
}

#[test]
fn second_run_has_nothing_pending() {
    let cat = build_catalog(&names(&["0002.sql", "0001.sql"]));
    let first = pending(&cat, &Ledger::from_rows(vec![0]));
    assert_eq!(versions_of(&first), vec![1, 2]);
    let mut rows = vec![0];
    rows.extend(versions_of(&first));
    assert!(pending(&cat, &Ledger::from_rows(rows)).is_empty());
}

#[test]
fn pending_keeps_ascending_order() {
    let cat = build_catalog(&names(&["0005.sql", "0003.sql", "0004.sql", "0001.sql"]));
    let todo = pending(&cat, &Ledger::from_rows(vec![0, 4]));
    assert_eq!(versions_of(&todo), vec![1, 3, 5]);
}

#[test]
fn retry_succeeds_after_refusals() {
    let mut c = Connector::new(4, 3);
    let mut warnings = 0;
    for _ in 0..3 {
        assert_eq!(c.attempt_failed(), ConnectStep::Wait(3));
        warnings += 1;
    }
    assert_eq!(warnings, 3);
    assert_eq!(c.attempt_number(), 4);
}

#[test]
fn retry_gives_up_after_budget() {
    let mut c = Connector::new(3, 1);
    let mut waits = 0;
    let mut attempts = 0;
    loop {
        attempts += 1;
        match c.attempt_failed() {
            ConnectStep::Wait(s) => {
                assert_eq!(s, 1);
                waits += 1;
            }
            ConnectStep::GiveUp => break,
        }
    }
    assert_eq!(attempts, 3);
    assert_eq!(waits, 2);
}

#[test]
fn zero_attempts_still_tries_once() {
    let mut c = Connector::new(0, 5);
    assert_eq!(c.attempt_number(), 1);
    assert_eq!(c.attempt_failed(), ConnectStep::GiveUp);
}

#[test]
fn database_count_decides() {
    assert_eq!(database_action(0), Ok(DatabaseAction::Create));
    assert_eq!(database_action(1), Ok(DatabaseAction::Present));
    assert_eq!(database_action(2), Err(EngineError::DatabaseCount(2)));
    assert_eq!(database_action(-1), Err(EngineError::DatabaseCount(-1)));
}

#[test]
fn schema_is_created_only_when_absent() {
    assert_eq!(schema_action(0), SchemaAction::Create);
    assert_eq!(schema_action(1), SchemaAction::Present);
    assert_eq!(schema_action(3), SchemaAction::Present);
}

#[test]
fn create_database_statement() {
    assert_eq!(create_database_sql("app"), "CREATE DATABASE app");
}

#[test]
fn lock_key_is_fixed() {
    assert_eq!(LOCK_ID, 10297114116);
}

#[test]
fn unreadable_file_under_force_and_without() {
    assert_eq!(after_read(true, 7, false), Ok(ReadStep::Skip));
    assert_eq!(after_read(false, 7, false), Err(EngineError::ReadFailed(7)));
    assert_eq!(after_read(false, 7, true), Ok(ReadStep::Execute));
    assert_eq!(after_read(true, 7, true), Ok(ReadStep::Execute));
}

#[test]
fn failed_sql_under_force_and_without() {
    assert_eq!(after_execute(true, 4, false), Ok(ExecStep::RollBack));
    assert_eq!(after_execute(false, 4, false), Err(EngineError::ApplyFailed(4)));
    assert_eq!(after_execute(false, 4, true), Ok(ExecStep::Record));
    assert_eq!(after_execute(true, 4, true), Ok(ExecStep::Record));
}

#[test]
fn record_and_commit_failures_are_always_fatal() {
    assert_eq!(after_record(9, false), Err(EngineError::RecordFailed(9)));
    assert_eq!(after_record(9, true), Ok(()));
    assert_eq!(after_commit(9, false), Err(EngineError::CommitFailed(9)));
    assert_eq!(after_commit(9, true), Ok(()));
}

fn met(read_ok: bool, exec_ok: bool, record_ok: bool, commit_ok: bool) -> StepOutcomes {
    StepOutcomes { read_ok, exec_ok, record_ok, commit_ok }
}

#[test]
fn settle_version_outcomes() {
    assert_eq!(settle_version(false, 3, met(true, true, true, true)), Ok(true));
    assert_eq!(settle_version(true, 3, met(false, false, false, false)), Ok(false));
    assert_eq!(settle_version(false, 3, met(false, false, false, false)), Err(EngineError::ReadFailed(3)));
    assert_eq!(settle_version(true, 3, met(true, false, false, false)), Ok(false));
    assert_eq!(settle_version(false, 3, met(true, false, false, false)), Err(EngineError::ApplyFailed(3)));
    assert_eq!(settle_version(true, 3, met(true, true, false, false)), Err(EngineError::RecordFailed(3)));
    assert_eq!(settle_version(true, 3, met(true, true, true, false)), Err(EngineError::CommitFailed(3)));
}

#[test]
fn forced_run_goes_past_failed_sql() {
    let todo = vec![entry(1, "0001.sql"), entry(2, "0002.sql"), entry(3, "0003.sql")];
    let mut run = Progress::new(true, todo);
    let answers = [met(true, true, true, true), met(true, false, false, false), met(true, true, true, true)];
    let mut seen = Vec::new();
    let mut k = 0;
    while let Some(m) = run.next() {
        seen.push(m.version);
        assert!(run.settle(answers[k]).is_ok());
        k += 1;
    }
    assert_eq!(seen, vec![1, 2, 3]);
    assert_eq!(run.recorded(), &vec![1, 3]);
}

#[test]
fn unforced_run_stops_at_failed_sql() {
    let todo = vec![entry(1, "0001.sql"), entry(2, "0002.sql"), entry(3, "0003.sql")];
    let mut run = Progress::new(false, todo);
    assert_eq!(run.settle(met(true, true, true, true)), Ok(true));
    assert_eq!(run.next().map(|m| m.version), Some(2));
    assert_eq!(run.settle(met(true, false, false, false)), Err(EngineError::ApplyFailed(2)));
    assert!(run.next().is_none());
    assert_eq!(run.recorded(), &vec![1]);
}

#[test]
fn empty_run_has_nothing_next() {
    let run = Progress::new(false, Vec::new());
    assert!(run.next().is_none());
    assert!(run.recorded().is_empty());
}
