use keyboard_recorder::clt::{ClearArgs, QueryArgs};
use keyboard_recorder::commands::{clear, query, recorder};
use keyboard_recorder::db::{
    arrange, backup_database, backup_outcome, backup_path, clear_records, db_path, fetch_records,
    fetch_statement, insert_keys_to_db, lookup_statement, open_database, plan_upsert,
    record_ranks_before, statement_of, BackupOutcome, KeyRecord, ReadStage, StoreError,
    StoreErrorKind, UpsertPlan, DELETE_SQL, FETCH_ALL_SQL, FETCH_BY_ARITY_SQL, INSERT_SQL,
    LOOKUP_SQL, UPDATE_SQL,
};
use keyboard_recorder::key::{Aggregator, ComboSnapshot, KeyEvent};
use rusqlite::types::Value;
use rusqlite::Connection;

fn memory() -> Connection {
    open_database(":memory:").expect("a store in memory opens")
}

fn combo(names: &[&str]) -> ComboSnapshot {
    let tokens: Vec<String> = names.iter().map(|n| n.to_string()).collect();
    ComboSnapshot::from_tokens(&tokens).expect("at least one key")
}

fn record(keys: &str, single: bool, press_times: isize) -> KeyRecord {
    KeyRecord { keys: keys.to_string(), single, press_times }
}

fn put(conn: &Connection, keys: &str, single: bool, press_times: i64) {
    conn.execute(
        "INSERT INTO keyboard (keys, single, press_times) VALUES (?1, ?2, ?3)",
        (keys, single, press_times),
    )
    .expect("the row is written");
}

fn triples(records: &[KeyRecord]) -> Vec<(String, bool, isize)> {
    records.iter().map(|r| (r.keys.clone(), r.single, r.press_times)).collect()
}

fn kind_of<T>(result: Result<T, StoreError>) -> StoreErrorKind {
    match result {
        Ok(_) => panic!("a failure was expected"),
        Err(error) => error.kind,
    }
}

#[test]
fn replaying_a_combo_counts_each_occurrence() {
    let conn = memory();
    let snapshot = combo(&["LShift", "A"]);
    for n in 1..=25isize {
        let written = insert_keys_to_db(&conn, &snapshot).expect("the upsert succeeds");
        assert_eq!(written.keys, "A+LShift");
        assert!(!written.single);
        assert_eq!(written.press_times, n);
        let rows = fetch_records(&conn, None).unwrap();
        assert_eq!(triples(&rows), vec![("A+LShift".to_string(), false, n)]);
    }
}

#[test]
fn first_upsert_writes_count_one_and_the_arity() {
    let conn = memory();
    let written = insert_keys_to_db(&conn, &combo(&["Space"])).unwrap();
    assert_eq!((written.keys.as_str(), written.single, written.press_times), ("Space", true, 1));
    let written = insert_keys_to_db(&conn, &combo(&["B", "A"])).unwrap();
    assert_eq!((written.keys.as_str(), written.single, written.press_times), ("A+B", false, 1));
    let rows = fetch_records(&conn, None).unwrap();
    assert_eq!(
        triples(&rows),
        vec![("A+B".to_string(), false, 1), ("Space".to_string(), true, 1)]
    );
}

#[test]
fn upserts_of_one_combo_leave_the_others_alone() {
    let conn = memory();
    insert_keys_to_db(&conn, &combo(&["A"])).unwrap();
    insert_keys_to_db(&conn, &combo(&["A", "B"])).unwrap();
    insert_keys_to_db(&conn, &combo(&["B", "A"])).unwrap();
    insert_keys_to_db(&conn, &combo(&["A", "B"])).unwrap();
    let rows = fetch_records(&conn, None).unwrap();
    assert_eq!(triples(&rows), vec![("A+B".to_string(), false, 3), ("A".to_string(), true, 1)]);
}

#[test]
fn plan_of_an_upsert() {
    match plan_upsert(None, "A+B".to_string(), false) {
        UpsertPlan::Insert(r) => {
            assert_eq!((r.keys.as_str(), r.single, r.press_times), ("A+B", false, 1))
        }
        _ => panic!("a first row was expected"),
    }
    match plan_upsert(Some(record("A+B", false, 41)), "A+B".to_string(), false) {
        UpsertPlan::Increment(r) => {
            assert_eq!((r.keys.as_str(), r.single, r.press_times), ("A+B", false, 42))
        }
        _ => panic!("a new count was expected"),
    }
    match plan_upsert(Some(record("A", true, isize::MAX - 1)), "A".to_string(), true) {
        UpsertPlan::Increment(r) => assert_eq!(r.press_times, isize::MAX),
        _ => panic!("a new count was expected"),
    }
    assert!(matches!(
        plan_upsert(Some(record("A", true, isize::MAX)), "A".to_string(), true),
        UpsertPlan::Saturated
    ));
}

#[test]
fn query_orders_by_count_then_keys() {
    let conn = memory();
    put(&conn, "C", true, 3);
    put(&conn, "B", false, 5);
    put(&conn, "A", true, 5);
    let rows = fetch_records(&conn, None).unwrap();
    assert_eq!(
        triples(&rows),
        vec![("A".to_string(), true, 5), ("B".to_string(), false, 5), ("C".to_string(), true, 3)]
    );
}

#[test]
fn query_filters_by_arity() {
    let conn = memory();
    put(&conn, "C", true, 3);
    put(&conn, "B+X", false, 5);
    put(&conn, "A", true, 5);
    put(&conn, "A+B+C", false, 9);
    let singles = fetch_records(&conn, Some(true)).unwrap();
    assert_eq!(triples(&singles), vec![("A".to_string(), true, 5), ("C".to_string(), true, 3)]);
    let combos = fetch_records(&conn, Some(false)).unwrap();
    assert_eq!(
        triples(&combos),
        vec![("A+B+C".to_string(), false, 9), ("B+X".to_string(), false, 5)]
    );
    assert_eq!(fetch_records(&conn, None).unwrap().len(), 4);
}

#[test]
fn query_of_an_empty_store() {
    let conn = memory();
    assert!(fetch_records(&conn, None).unwrap().is_empty());
    assert!(fetch_records(&conn, Some(true)).unwrap().is_empty());
    assert!(fetch_records(&conn, Some(false)).unwrap().is_empty());
}

#[test]
fn arrange_orders_and_filters_whatever_it_is_given() {
    let rows = vec![
        record("C", true, 3),
        record("B", false, 5),
        record("Z+Y", false, 1),
        record("A", true, 5),
        record("K", true, 7),
        record("A", true, 3),
        record("AA", true, 5),
    ];
    let all = arrange(&rows, None);
    assert_eq!(
        triples(&all),
        vec![
            ("K".to_string(), true, 7),
            ("A".to_string(), true, 5),
            ("AA".to_string(), true, 5),
            ("B".to_string(), false, 5),
            ("A".to_string(), true, 3),
            ("C".to_string(), true, 3),
            ("Z+Y".to_string(), false, 1),
        ]
    );
    let singles = arrange(&rows, Some(true));
    assert_eq!(singles.len(), 5);
    assert!(singles.iter().all(|r| r.single));
    let combos = arrange(&rows, Some(false));
    assert_eq!(
        triples(&combos),
        vec![("B".to_string(), false, 5), ("Z+Y".to_string(), false, 1)]
    );
    assert!(arrange(&Vec::new(), None).is_empty());
}

#[test]
fn ranking_of_two_rows() {
    assert!(record_ranks_before(&record("B", false, 6), &record("A", true, 5)));
    assert!(!record_ranks_before(&record("A", true, 5), &record("B", false, 6)));
    assert!(record_ranks_before(&record("A", true, 5), &record("B", false, 5)));
    assert!(!record_ranks_before(&record("B", false, 5), &record("A", true, 5)));
    assert!(!record_ranks_before(&record("A", true, 5), &record("A", false, 5)));
}

#[test]
fn clear_removes_every_row_and_keeps_the_table() {
    let conn = memory();
    insert_keys_to_db(&conn, &combo(&["A"])).unwrap();
    insert_keys_to_db(&conn, &combo(&["A", "B"])).unwrap();
    assert_eq!(clear_records(&conn, BackupOutcome::NotRequested).unwrap(), None);
    assert!(fetch_records(&conn, None).unwrap().is_empty());
    let written = insert_keys_to_db(&conn, &combo(&["A"])).unwrap();
    assert_eq!(written.press_times, 1);
}

#[test]
fn clear_reports_the_backup_that_was_written() {
    let conn = memory();
    put(&conn, "A", true, 2);
    let written = clear_records(&conn, BackupOutcome::Written("keyboard.db.backup".to_string()));
    assert_eq!(written.unwrap(), Some("keyboard.db.backup".to_string()));
    assert!(fetch_records(&conn, None).unwrap().is_empty());
    assert_eq!(clear_records(&conn, BackupOutcome::NoStore).unwrap(), None);
}

#[test]
fn failed_backup_leaves_the_rows() {
    let conn = memory();
    put(&conn, "A", true, 2);
    let failed = BackupOutcome::Failed("keyboard.db.backup".to_string(), "disk full".to_string());
    let error = clear_records(&conn, failed).unwrap_err();
    assert_eq!(error.kind, StoreErrorKind::Backup);
    assert_eq!(error.detail, "disk full");
    assert_eq!(error.target, "keyboard.db.backup");
    assert_eq!(error.message(), "Failed to backup database to keyboard.db.backup");
    assert_eq!(triples(&fetch_records(&conn, None).unwrap()), vec![("A".to_string(), true, 2)]);
}

fn store_file(name: &str) -> String {
    let path = format!("/tmp/keyboard_recorder_{}.db", name);
    let conn = open_database(&path).expect("the store file opens");
    clear_records(&conn, BackupOutcome::NotRequested).expect("the store file is cleared");
    put(&conn, "A", true, 2);
    put(&conn, "A+B", false, 1);
    path
}

fn rows_in(path: &str) -> usize {
    let conn = open_database(path).expect("the store file opens");
    fetch_records(&conn, None).unwrap().len()
}

#[test]
fn clear_with_backup_and_no_store_is_no_failure() {
    assert_eq!(backup_database("keyboard.db", true, false), None);
    assert!(matches!(backup_outcome("keyboard.db", true, false, None), BackupOutcome::NoStore));
    let path = store_file("no_store");
    let report = clear::run(ClearArgs { backup: true }, &path, false, None).unwrap();
    assert_eq!(report, "Records cleared. Backup skipped because no database file was present.");
    assert_eq!(rows_in(&path), 0);
}

#[test]
fn clear_command_reports() {
    let path = store_file("reports");
    assert_eq!(
        clear::run(ClearArgs { backup: false }, &path, true, None).unwrap(),
        "Records cleared."
    );
    assert_eq!(rows_in(&path), 0);
    assert_eq!(clear::run(ClearArgs::default(), &path, false, None).unwrap(), "Records cleared.");
    assert_eq!(
        clear::run(ClearArgs { backup: false }, &path, true, Some("ignored".to_string())).unwrap(),
        "Records cleared."
    );
    assert_eq!(
        clear::run(ClearArgs { backup: true }, &path, true, None).unwrap(),
        format!("Records cleared. Backup stored as {}.backup.", path)
    );
    assert_eq!(
        clear::report(true, &Some("x.backup".to_string())),
        "Records cleared. Backup stored as x.backup."
    );
    assert_eq!(
        clear::report(true, &None),
        "Records cleared. Backup skipped because no database file was present."
    );
    assert_eq!(clear::report(false, &Some("x.backup".to_string())), "Records cleared.");
    assert_eq!(clear::report(false, &None), "Records cleared.");
}

#[test]
fn clear_command_with_a_failed_backup_removes_nothing() {
    let path = store_file("failed_backup");
    let failed = clear::run(ClearArgs { backup: true }, &path, true, Some("denied".to_string()));
    let error = failed.err().expect("the clear fails");
    assert_eq!(error.kind, StoreErrorKind::Backup);
    assert_eq!(error.detail, "denied");
    assert_eq!(error.target, format!("{}.backup", path));
    assert_eq!(error.message(), format!("Failed to backup database to {}.backup", path));
    assert_eq!(rows_in(&path), 2);
}

#[test]
fn clear_command_on_a_store_that_does_not_open() {
    let failed = clear::run(ClearArgs::default(), "/no/such/directory/keyboard.db", false, None);
    assert_eq!(kind_of(failed), StoreErrorKind::Connect);
    let failed = clear::run(ClearArgs::default(), "/proc/version", true, None);
    assert_eq!(kind_of(failed), StoreErrorKind::CreateTable);
}

#[test]
fn backup_plans() {
    assert_eq!(db_path(), "keyboard.db");
    assert_eq!(backup_path("keyboard.db"), "keyboard.db.backup");
    assert_eq!(backup_path(""), ".backup");
    assert_eq!(
        backup_database("keyboard.db", true, true),
        Some("keyboard.db.backup".to_string())
    );
    assert_eq!(backup_database("keyboard.db", false, true), None);
    assert_eq!(backup_database("keyboard.db", false, false), None);
    assert!(matches!(
        backup_outcome("keyboard.db", false, true, None),
        BackupOutcome::NotRequested
    ));
    assert!(matches!(
        backup_outcome("keyboard.db", false, true, Some("x".to_string())),
        BackupOutcome::NotRequested
    ));
    match backup_outcome("data/keys.db", true, true, None) {
        BackupOutcome::Written(path) => assert_eq!(path, "data/keys.db.backup"),
        _ => panic!("a written backup was expected"),
    }
    match backup_outcome("keyboard.db", true, true, Some("disk full".to_string())) {
        BackupOutcome::Failed(target, words) => {
            assert_eq!(target, "keyboard.db.backup");
            assert_eq!(words, "disk full");
        }
        _ => panic!("a failed backup was expected"),
    }
}

#[test]
fn store_that_does_not_open() {
    let result = open_database("/no/such/directory/keyboard.db");
    let error = result.err().expect("the store cannot open");
    assert_eq!(error.kind, StoreErrorKind::Connect);
    assert_eq!(error.message(), "Cannot connect to database.");
    assert!(!error.detail.is_empty());
    assert!(error.target.is_empty());
}

#[test]
fn table_that_cannot_be_created() {
    let result = open_database("/proc/version");
    let error = result.err().expect("the table cannot be created");
    assert_eq!(error.kind, StoreErrorKind::CreateTable);
    assert_eq!(error.message(), "Cannot create table in database.");
    assert!(!error.detail.is_empty());
}

#[test]
fn failures_of_a_store_without_its_table() {
    let conn = Connection::open_in_memory().unwrap();
    let error = insert_keys_to_db(&conn, &combo(&["A"])).unwrap_err();
    assert_eq!(error.kind, StoreErrorKind::Lookup(ReadStage::Prepare));
    assert_eq!(
        error.message(),
        "Failed to query keys from database: Cannot prepare query statement."
    );
    assert!(error.detail.contains("no such table"));
    let error = fetch_records(&conn, None).unwrap_err();
    assert_eq!(error.kind, StoreErrorKind::Fetch(ReadStage::Prepare));
    assert_eq!(error.message(), "Cannot prepare fetch statement.");
    assert!(error.detail.contains("no such table"));
    assert_eq!(
        kind_of(fetch_records(&conn, Some(true))),
        StoreErrorKind::Fetch(ReadStage::Prepare)
    );
    let error = clear_records(&conn, BackupOutcome::NotRequested).unwrap_err();
    assert_eq!(error.kind, StoreErrorKind::Clear);
    assert_eq!(error.message(), "Cannot clear records from database.");
}

#[test]
fn failures_of_the_writes() {
    let conn = Connection::open_in_memory().unwrap();
    conn.execute(
        "CREATE TABLE keyboard (id INTEGER PRIMARY KEY, keys TEXT NOT NULL, single BOOLEAN NOT NULL, press_times INTEGER NOT NULL CHECK (press_times BETWEEN 2 AND 3))",
        (),
    )
    .unwrap();
    let error = insert_keys_to_db(&conn, &combo(&["A"])).unwrap_err();
    assert_eq!(error.kind, StoreErrorKind::Insert);
    assert!(!error.detail.is_empty());
    assert_eq!(
        error.message(),
        format!("Failed to insert keys into database: {}", error.detail)
    );
    put(&conn, "A", true, 3);
    let error = insert_keys_to_db(&conn, &combo(&["A"])).unwrap_err();
    assert_eq!(error.kind, StoreErrorKind::Update);
    assert_eq!(error.message(), format!("Failed to update keys in database: {}", error.detail));
    assert!(error.detail.contains("CHECK"));
    put(&conn, "B", true, 2);
    assert_eq!(insert_keys_to_db(&conn, &combo(&["B"])).unwrap().press_times, 3);
}

#[test]
fn count_that_cannot_grow() {
    let conn = memory();
    put(&conn, "A", true, isize::MAX as i64);
    let error = insert_keys_to_db(&conn, &combo(&["A"])).unwrap_err();
    assert_eq!(error.kind, StoreErrorKind::Saturated);
    assert_eq!(error.message(), "Failed to update keys in database: the count cannot grow");
    let rows = fetch_records(&conn, None).unwrap();
    assert_eq!(triples(&rows), vec![("A".to_string(), true, isize::MAX)]);
}

#[test]
fn opening_twice_keeps_the_rows() {
    let conn = memory();
    insert_keys_to_db(&conn, &combo(&["A"])).unwrap();
    conn.execute(keyboard_recorder::db::CREATE_SQL, ()).unwrap();
    assert_eq!(fetch_records(&conn, None).unwrap().len(), 1);
}

#[test]
fn recorder_counts_one_gesture_once() {
    let conn = memory();
    let mut agg = Aggregator::new();
    let events = vec![
        KeyEvent::Down("A".to_string()),
        KeyEvent::Down("B".to_string()),
        KeyEvent::Up("A".to_string()),
        KeyEvent::Up("B".to_string()),
    ];
    let mut upserts = 0;
    for event in events {
        let report = recorder::run(&mut agg, &conn, event);
        assert!(!report.terminate);
        if let Some(result) = report.upsert {
            assert_eq!(result.unwrap().keys, "A+B");
            upserts += 1;
        }
    }
    assert_eq!(upserts, 1);
    let rows = fetch_records(&conn, None).unwrap();
    assert_eq!(triples(&rows), vec![("A+B".to_string(), false, 1)]);
}

#[test]
fn recorder_counts_nothing_while_keys_only_go_down() {
    let conn = memory();
    let mut agg = Aggregator::new();
    for name in ["A", "B", "C", "A"] {
        let report = recorder::run(&mut agg, &conn, KeyEvent::Down(name.to_string()));
        assert!(report.upsert.is_none());
        assert!(!report.terminate);
    }
    assert!(fetch_records(&conn, None).unwrap().is_empty());
}

#[test]
fn recorder_stops_after_the_terminator_was_counted() {
    let conn = memory();
    let mut agg = Aggregator::new();
    let down = recorder::run(&mut agg, &conn, KeyEvent::Down("Escape".to_string()));
    assert!(!down.terminate);
    let up = recorder::run(&mut agg, &conn, KeyEvent::Up("Escape".to_string()));
    assert!(up.terminate);
    assert_eq!(up.upsert.unwrap().unwrap().press_times, 1);
    let rows = fetch_records(&conn, None).unwrap();
    assert_eq!(triples(&rows), vec![("Escape".to_string(), true, 1)]);
    assert_eq!(agg.held_count(), 0);
}

#[test]
fn recorder_goes_on_after_a_store_failure() {
    let conn = Connection::open_in_memory().unwrap();
    let mut agg = Aggregator::new();
    recorder::run(&mut agg, &conn, KeyEvent::Down("A".to_string()));
    let report = recorder::run(&mut agg, &conn, KeyEvent::Up("A".to_string()));
    assert_eq!(kind_of(report.upsert.unwrap()), StoreErrorKind::Lookup(ReadStage::Prepare));
    assert!(!report.terminate);
    assert_eq!(agg.held_count(), 0);
    assert!(!agg.last_event_was_press());
}

fn loose_table() -> Connection {
    let conn = Connection::open_in_memory().unwrap();
    conn.execute("CREATE TABLE keyboard (keys, single, press_times)", ()).unwrap();
    conn
}

#[test]
fn failures_of_reading_a_column() {
    let conn = loose_table();
    conn.execute("INSERT INTO keyboard VALUES (5, 1, 1)", ()).unwrap();
    let error = fetch_records(&conn, None).unwrap_err();
    assert_eq!(error.kind, StoreErrorKind::Fetch(ReadStage::Keys));
    assert_eq!(error.message(), "Cannot read keys column.");

    let conn = loose_table();
    conn.execute("INSERT INTO keyboard VALUES ('A', 'yes', 1)", ()).unwrap();
    let error = fetch_records(&conn, None).unwrap_err();
    assert_eq!(error.kind, StoreErrorKind::Fetch(ReadStage::Single));
    assert_eq!(error.message(), "Cannot read single column.");
    let error = insert_keys_to_db(&conn, &combo(&["A"])).unwrap_err();
    assert_eq!(error.kind, StoreErrorKind::Lookup(ReadStage::Single));
    assert_eq!(error.message(), "Failed to query keys from database: Cannot get single from row.");

    let conn = loose_table();
    conn.execute("INSERT INTO keyboard VALUES ('A', 1, 'many')", ()).unwrap();
    let error = fetch_records(&conn, Some(true)).unwrap_err();
    assert_eq!(error.kind, StoreErrorKind::Fetch(ReadStage::PressTimes));
    assert_eq!(error.message(), "Cannot read press_times column.");
    let error = insert_keys_to_db(&conn, &combo(&["A"])).unwrap_err();
    assert_eq!(error.kind, StoreErrorKind::Lookup(ReadStage::PressTimes));
    assert_eq!(
        error.message(),
        "Failed to query keys from database: Cannot get press_times from row."
    );
}

#[test]
fn failure_of_the_next_row() {
    let conn = Connection::open_in_memory().unwrap();
    conn.execute(
        "CREATE VIEW keyboard AS SELECT 'A' AS keys, 1 AS single, abs(-9223372036854775807 - 1) AS press_times",
        (),
    )
    .unwrap();
    let error = fetch_records(&conn, None).unwrap_err();
    assert_eq!(error.kind, StoreErrorKind::Fetch(ReadStage::NextRow));
    assert_eq!(error.message(), "Cannot fetch row for record.");
    let error = insert_keys_to_db(&conn, &combo(&["A"])).unwrap_err();
    assert_eq!(error.kind, StoreErrorKind::Lookup(ReadStage::NextRow));
    assert_eq!(
        error.message(),
        "Failed to query keys from database: Cannot fetch row from query result."
    );
}

#[test]
fn lookup_reads_the_first_row_only() {
    let conn = loose_table();
    conn.execute("INSERT INTO keyboard VALUES ('A', 1, 4)", ()).unwrap();
    conn.execute("INSERT INTO keyboard VALUES ('A', 'yes', 'many')", ()).unwrap();
    let written = insert_keys_to_db(&conn, &combo(&["A"])).unwrap();
    assert_eq!(written.press_times, 5);
}

#[test]
fn words_of_each_failure() {
    let of = |kind: StoreErrorKind| {
        StoreError { kind, detail: "engine".to_string(), target: "k.db.backup".to_string() }
            .message()
    };
    assert_eq!(of(StoreErrorKind::Connect), "Cannot connect to database.");
    assert_eq!(of(StoreErrorKind::CreateTable), "Cannot create table in database.");
    assert_eq!(of(StoreErrorKind::Insert), "Failed to insert keys into database: engine");
    assert_eq!(of(StoreErrorKind::Update), "Failed to update keys in database: engine");
    assert_eq!(of(StoreErrorKind::Backup), "Failed to backup database to k.db.backup");
    assert_eq!(of(StoreErrorKind::Clear), "Cannot clear records from database.");
    let stages = [
        (ReadStage::Prepare, "Cannot prepare query statement.", "Cannot prepare fetch statement."),
        (ReadStage::Execute, "Cannot execute query statement.", "Cannot execute fetch statement."),
        (ReadStage::NextRow, "Cannot fetch row from query result.", "Cannot fetch row for record."),
        (ReadStage::Keys, "Cannot get keys from row.", "Cannot read keys column."),
        (ReadStage::Single, "Cannot get single from row.", "Cannot read single column."),
        (
            ReadStage::PressTimes,
            "Cannot get press_times from row.",
            "Cannot read press_times column.",
        ),
    ];
    for (stage, lookup, fetch) in stages {
        assert_eq!(
            of(StoreErrorKind::Lookup(stage)),
            format!("Failed to query keys from database: {}", lookup)
        );
        assert_eq!(of(StoreErrorKind::Fetch(stage)), fetch);
    }
}

#[test]
fn statement_and_values_of_each_plan() {
    let (sql, values) = statement_of(&UpsertPlan::Insert(record("A+B", false, 1))).unwrap();
    assert_eq!(sql, INSERT_SQL);
    assert_eq!(
        values,
        vec![Value::Text("A+B".to_string()), Value::Integer(0), Value::Integer(1)]
    );
    let (sql, values) = statement_of(&UpsertPlan::Insert(record("A", true, 1))).unwrap();
    assert_eq!(sql, INSERT_SQL);
    assert_eq!(values, vec![Value::Text("A".to_string()), Value::Integer(1), Value::Integer(1)]);
    let (sql, values) = statement_of(&UpsertPlan::Increment(record("A+B", false, 42))).unwrap();
    assert_eq!(sql, UPDATE_SQL);
    assert_eq!(values, vec![Value::Integer(42), Value::Text("A+B".to_string())]);
    assert!(statement_of(&UpsertPlan::Saturated).is_none());
}

#[test]
fn statement_and_values_of_a_lookup_and_of_a_fetch() {
    let (sql, values) = lookup_statement(&"A+B".to_string());
    assert_eq!(sql, LOOKUP_SQL);
    assert_eq!(values, vec![Value::Text("A+B".to_string())]);
    let (sql, values) = fetch_statement(None);
    assert_eq!(sql, FETCH_ALL_SQL);
    assert!(values.is_empty());
    let (sql, values) = fetch_statement(Some(true));
    assert_eq!(sql, FETCH_BY_ARITY_SQL);
    assert_eq!(values, vec![Value::Integer(1)]);
    let (sql, values) = fetch_statement(Some(false));
    assert_eq!(sql, FETCH_BY_ARITY_SQL);
    assert_eq!(values, vec![Value::Integer(0)]);
}

#[test]
fn statements_are_those_of_the_table() {
    assert_eq!(LOOKUP_SQL, "SELECT keys, single, press_times FROM keyboard WHERE keys = ?1");
    assert_eq!(INSERT_SQL, "INSERT INTO keyboard (keys, single, press_times) VALUES (?1, ?2, ?3)");
    assert_eq!(UPDATE_SQL, "UPDATE keyboard SET press_times = ?1 WHERE keys = ?2");
    assert_eq!(
        FETCH_ALL_SQL,
        "SELECT keys, single, press_times FROM keyboard ORDER BY press_times DESC, keys ASC"
    );
    assert_eq!(
        FETCH_BY_ARITY_SQL,
        "SELECT keys, single, press_times FROM keyboard WHERE single = ?1 ORDER BY press_times DESC, keys ASC"
    );
    assert_eq!(DELETE_SQL, "DELETE FROM keyboard");
}

#[test]
fn query_of_a_store_that_is_absent_opens_nothing() {
    let lines =
        query::run(QueryArgs::default(), "/no/such/directory/keyboard.db", false).unwrap();
    assert_eq!(lines, vec!["No key records found.".to_string()]);
    let failed = query::run(QueryArgs::default(), "/no/such/directory/keyboard.db", true);
    assert_eq!(kind_of(failed), StoreErrorKind::Connect);
    let failed = query::run(QueryArgs::default(), "/proc/version", true);
    assert_eq!(kind_of(failed), StoreErrorKind::CreateTable);
}
