//! The counter store: one row per combo, with the number of times it occurred.

use vstd::prelude::*;
use crate::held::{canonical_text, lemma_strictly_ordered_unique, strictly_ordered};
use crate::key::ComboSnapshot;
use crate::lex::{lemma_asymmetric, lemma_irreflexive, lemma_total, lemma_transitive, precedes, token_lt};

verus! {

/// `rusqlite::Connection`, a connection to the store. Nothing of what it holds
/// is visible to the proofs.
#[verifier::external_type_specification]
#[verifier::external_body]
pub struct ExConnection(rusqlite::Connection);

/// `rusqlite::types::Value`, a value that is bound to a parameter of a
/// statement, with its variants.
#[verifier::external_type_specification]
pub struct ExSqlValue(rusqlite::types::Value);

/// `rusqlite::Error`, a failure that the engine reports. Nothing of what it
/// holds is visible to the proofs.
#[verifier::external_type_specification]
#[verifier::external_body]
pub struct ExSqlError(rusqlite::Error);

/// `rusqlite::Statement`, a prepared statement. Nothing of what it holds is
/// visible to the proofs.
#[verifier::external_type_specification]
#[verifier::external_body]
pub struct ExStatement<'conn>(rusqlite::Statement<'conn>);

/// `rusqlite::Rows`, the rows that a statement yields, one after the other.
/// Nothing of what it holds is visible to the proofs.
#[verifier::external_type_specification]
#[verifier::external_body]
pub struct ExRows<'stmt>(rusqlite::Rows<'stmt>);

/// `rusqlite::Row`, one row that a statement yielded. Nothing of what it holds
/// is visible to the proofs.
#[verifier::external_type_specification]
#[verifier::external_body]
pub struct ExRow<'stmt>(rusqlite::Row<'stmt>);

/// The statement that creates the table where it is absent.
pub const CREATE_SQL: &'static str =
    "CREATE TABLE IF NOT EXISTS keyboard (id INTEGER PRIMARY KEY, keys TEXT NOT NULL, single BOOLEAN NOT NULL, press_times INTEGER NOT NULL)";

/// The statement that reads the rows of one combo.
pub const LOOKUP_SQL: &'static str =
    "SELECT keys, single, press_times FROM keyboard WHERE keys = ?1";

/// The statement that writes the first row of a combo.
pub const INSERT_SQL: &'static str =
    "INSERT INTO keyboard (keys, single, press_times) VALUES (?1, ?2, ?3)";

/// The statement that writes a combo's new count.
pub const UPDATE_SQL: &'static str = "UPDATE keyboard SET press_times = ?1 WHERE keys = ?2";

/// The statement that reads every row, most frequent first.
pub const FETCH_ALL_SQL: &'static str =
    "SELECT keys, single, press_times FROM keyboard ORDER BY press_times DESC, keys ASC";

/// The statement that reads the rows of one arity, most frequent first.
pub const FETCH_BY_ARITY_SQL: &'static str =
    "SELECT keys, single, press_times FROM keyboard WHERE single = ?1 ORDER BY press_times DESC, keys ASC";

/// The statement that removes every row and keeps the table.
pub const DELETE_SQL: &'static str = "DELETE FROM keyboard";

/// The step of reading rows at which a failure came.
#[derive(Clone, Copy, Debug, PartialEq, Eq, Structural)]
pub enum ReadStage {
    /// The statement could not be prepared.
    Prepare,
    /// The statement could not be run.
    Execute,
    /// The next row could not be had.
    NextRow,
    /// The keys of a row could not be read.
    Keys,
    /// The arity flag of a row could not be read.
    Single,
    /// The count of a row could not be read.
    PressTimes,
}

/// The step of the store's work at which a failure came.
#[derive(Clone, Copy, Debug, PartialEq, Eq, Structural)]
pub enum StoreErrorKind {
    /// The store could not be opened.
    Connect,
    /// The table could not be created.
    CreateTable,
    /// The row of a combo could not be read.
    Lookup(ReadStage),
    /// The first row of a combo could not be written.
    Insert,
    /// The new count of a combo could not be written.
    Update,
    /// The count of a combo is the largest that the store can hold.
    Saturated,
    /// The rows could not be read.
    Fetch(ReadStage),
    /// The store could not be copied to its backup.
    Backup,
    /// The rows could not be removed.
    Clear,
}

/// A failure of the store: the step, and what was said of it.
#[derive(Debug)]
pub struct StoreError {
    /// The step at which the failure came.
    pub kind: StoreErrorKind,
    /// The words of whoever failed, the engine or the copy; empty where neither
    /// was involved.
    pub detail: String,
    /// The path that a failed backup was to be written to; empty for the other
    /// steps.
    pub target: String,
}

/// What is said where the row of a combo cannot be read.
pub open spec fn lookup_stage_text(stage: ReadStage) -> Seq<char> {
    match stage {
        ReadStage::Prepare => "Cannot prepare query statement."@,
        ReadStage::Execute => "Cannot execute query statement."@,
        ReadStage::NextRow => "Cannot fetch row from query result."@,
        ReadStage::Keys => "Cannot get keys from row."@,
        ReadStage::Single => "Cannot get single from row."@,
        ReadStage::PressTimes => "Cannot get press_times from row."@,
    }
}

/// What is said where the rows cannot be read.
pub open spec fn fetch_stage_text(stage: ReadStage) -> Seq<char> {
    match stage {
        ReadStage::Prepare => "Cannot prepare fetch statement."@,
        ReadStage::Execute => "Cannot execute fetch statement."@,
        ReadStage::NextRow => "Cannot fetch row for record."@,
        ReadStage::Keys => "Cannot read keys column."@,
        ReadStage::Single => "Cannot read single column."@,
        ReadStage::PressTimes => "Cannot read press_times column."@,
    }
}

/// The words of a failure. A failed write says what the engine said, a failed
/// lookup says at which step it failed, a failed backup says where it was to go.
pub open spec fn failure_text(kind: StoreErrorKind, detail: Seq<char>, target: Seq<char>) -> Seq<
    char,
> {
    match kind {
        StoreErrorKind::Connect => "Cannot connect to database."@,
        StoreErrorKind::CreateTable => "Cannot create table in database."@,
        StoreErrorKind::Lookup(stage) => "Failed to query keys from database: "@
            + lookup_stage_text(stage),
        StoreErrorKind::Insert => "Failed to insert keys into database: "@ + detail,
        StoreErrorKind::Update => "Failed to update keys in database: "@ + detail,
        StoreErrorKind::Saturated =>
            "Failed to update keys in database: the count cannot grow"@,
        StoreErrorKind::Fetch(stage) => fetch_stage_text(stage),
        StoreErrorKind::Backup => "Failed to backup database to "@ + target,
        StoreErrorKind::Clear => "Cannot clear records from database."@,
    }
}

/// What is said where the row of a combo cannot be read.
fn lookup_stage_words(stage: ReadStage) -> (r: &'static str)
    ensures
        r@ == lookup_stage_text(stage),
{
    match stage {
        ReadStage::Prepare => "Cannot prepare query statement.",
        ReadStage::Execute => "Cannot execute query statement.",
        ReadStage::NextRow => "Cannot fetch row from query result.",
        ReadStage::Keys => "Cannot get keys from row.",
        ReadStage::Single => "Cannot get single from row.",
        ReadStage::PressTimes => "Cannot get press_times from row.",
    }
}

/// What is said where the rows cannot be read.
fn fetch_stage_words(stage: ReadStage) -> (r: &'static str)
    ensures
        r@ == fetch_stage_text(stage),
{
    match stage {
        ReadStage::Prepare => "Cannot prepare fetch statement.",
        ReadStage::Execute => "Cannot execute fetch statement.",
        ReadStage::NextRow => "Cannot fetch row for record.",
        ReadStage::Keys => "Cannot read keys column.",
        ReadStage::Single => "Cannot read single column.",
        ReadStage::PressTimes => "Cannot read press_times column.",
    }
}

/// `head`, then `tail`.
fn joined(head: &str, tail: &str) -> (r: String)
    ensures
        r@ == head@ + tail@,
{
    let mut r = String::from_str(head);
    r.append(tail);
    r
}

impl StoreError {
    /// The words of the failure.
    pub fn message(&self) -> (r: String)
        ensures
            r@ == failure_text(self.kind, self.detail@, self.target@),
    {
        match self.kind {
            StoreErrorKind::Connect => String::from_str("Cannot connect to database."),
            StoreErrorKind::CreateTable => String::from_str("Cannot create table in database."),
            StoreErrorKind::Lookup(stage) => joined(
                "Failed to query keys from database: ",
                lookup_stage_words(stage),
            ),
            StoreErrorKind::Insert => joined(
                "Failed to insert keys into database: ",
                self.detail.as_str(),
            ),
            StoreErrorKind::Update => joined(
                "Failed to update keys in database: ",
                self.detail.as_str(),
            ),
            StoreErrorKind::Saturated => String::from_str(
                "Failed to update keys in database: the count cannot grow",
            ),
            StoreErrorKind::Fetch(stage) => String::from_str(fetch_stage_words(stage)),
            StoreErrorKind::Backup => joined("Failed to backup database to ", self.target.as_str()),
            StoreErrorKind::Clear => String::from_str("Cannot clear records from database."),
        }
    }
}

/// One row of the table, as the contracts speak of it.
pub ghost struct Record {
    /// The canonical combo string.
    pub keys: Seq<char>,
    /// Whether the combo is a single key.
    pub single: bool,
    /// How often the combo occurred.
    pub press_times: int,
}

/// One row of the table.
#[derive(Debug, Clone)]
pub struct KeyRecord {
    /// The canonical combo string.
    pub keys: String,
    /// Whether the combo is a single key.
    pub single: bool,
    /// How often the combo occurred.
    pub press_times: isize,
}

impl View for KeyRecord {
    type V = Record;

    open spec fn view(&self) -> Record {
        Record { keys: self.keys@, single: self.single, press_times: self.press_times as int }
    }
}

/// The rows of `v` as the contracts speak of them.
pub open spec fn rows_of(v: Seq<KeyRecord>) -> Seq<Record> {
    Seq::new(v.len(), |i: int| v[i]@)
}

/// What an upsert writes.
pub ghost enum Plan {
    /// A new row.
    Insert(Record),
    /// A new count in the rows of the combo.
    Increment(Record),
    /// Nothing: the count cannot grow.
    Saturated,
}

/// What the upsert of a combo writes, given the row that the store has of it.
pub open spec fn upsert_plan(found: Option<Record>, keys: Seq<char>, single: bool) -> Plan {
    match found {
        None => Plan::Insert(Record { keys: keys, single: single, press_times: 1 }),
        Some(row) => if row.press_times < isize::MAX {
            Plan::Increment(
                Record { keys: keys, single: row.single, press_times: row.press_times + 1 },
            )
        } else {
            Plan::Saturated
        },
    }
}

/// What the upsert of the combo with the key set `combo` writes, given the row
/// that the store has of it.
pub open spec fn combo_plan(found: Option<Record>, combo: Set<Seq<char>>) -> Plan {
    upsert_plan(found, canonical_text(combo), combo.len() == 1)
}

/// The row that stands in the store once `plan` is carried out, if it writes one.
pub open spec fn written(plan: Plan) -> Option<Record> {
    match plan {
        Plan::Insert(row) => Some(row),
        Plan::Increment(row) => Some(row),
        Plan::Saturated => None,
    }
}

/// What an upsert writes.
pub enum UpsertPlan {
    /// A new row.
    Insert(KeyRecord),
    /// A new count in the rows of the combo.
    Increment(KeyRecord),
    /// Nothing: the count cannot grow.
    Saturated,
}

impl View for UpsertPlan {
    type V = Plan;

    open spec fn view(&self) -> Plan {
        match self {
            UpsertPlan::Insert(record) => Plan::Insert(record@),
            UpsertPlan::Increment(record) => Plan::Increment(record@),
            UpsertPlan::Saturated => Plan::Saturated,
        }
    }
}

/// The row that `found` holds, as the contracts speak of it.
pub open spec fn found_row(found: Option<KeyRecord>) -> Option<Record> {
    match found {
        Some(record) => Some(record@),
        None => None,
    }
}

/// Decides what the upsert of a combo writes: the first row with count 1 where the
/// store has none, else the found count plus one, unless it cannot grow.
pub fn plan_upsert(found: Option<KeyRecord>, keys: String, single: bool) -> (plan: UpsertPlan)
    ensures
        plan@ == upsert_plan(found_row(found), keys@, single),
{
    match found {
        None => UpsertPlan::Insert(KeyRecord { keys: keys, single: single, press_times: 1 }),
        Some(record) => {
            if record.press_times < isize::MAX {
                UpsertPlan::Increment(
                    KeyRecord {
                        keys: keys,
                        single: record.single,
                        press_times: record.press_times + 1,
                    },
                )
            } else {
                UpsertPlan::Saturated
            }
        },
    }
}

/// Calls `rusqlite::Connection::open` on `path`. Nothing is claimed of the
/// result: whether the store opens depends on the file system.
#[verifier::external_body]
fn open_connection(path: &str) -> (r: Result<rusqlite::Connection, rusqlite::Error>) {
    rusqlite::Connection::open(path)
}

/// Calls `rusqlite::Connection::execute` on the statement, with the values
/// bound to its parameters in order. Nothing is claimed of the result: what the
/// statement does depends on what the store holds.
#[verifier::external_body]
fn execute(conn: &rusqlite::Connection, sql: &str, values: &Vec<rusqlite::types::Value>) -> (r:
    Result<usize, rusqlite::Error>) {
    conn.execute(sql, rusqlite::params_from_iter(values.iter()))
}

/// Calls `rusqlite::Connection::prepare` on the statement. Nothing is claimed
/// of the result.
#[verifier::external_body]
fn prepare<'c>(conn: &'c rusqlite::Connection, sql: &str) -> (r: Result<
    rusqlite::Statement<'c>,
    rusqlite::Error,
>) {
    conn.prepare(sql)
}

/// Calls `rusqlite::Statement::query` with the values bound to the parameters
/// in order. Nothing is claimed of the result.
#[verifier::external_body]
fn query<'s, 'c>(stmt: &'s mut rusqlite::Statement<'c>, values: &Vec<rusqlite::types::Value>) -> (r:
    Result<rusqlite::Rows<'s>, rusqlite::Error>) {
    stmt.query(rusqlite::params_from_iter(values.iter()))
}

/// Calls `rusqlite::Rows::next`: the next row, or none where the rows are at
/// their end. Nothing is claimed of the result.
#[verifier::external_body]
fn next_row<'r, 's>(rows: &'r mut rusqlite::Rows<'s>) -> (r: Result<
    Option<&'r rusqlite::Row<'s>>,
    rusqlite::Error,
>) {
    rows.next()
}

/// Calls `rusqlite::Row::get` for a text at the column `index`. Nothing is
/// claimed of the result; a column that is absent or holds no text is an `Err`.
#[verifier::external_body]
fn column_text(row: &rusqlite::Row<'_>, index: usize) -> (r: Result<String, rusqlite::Error>) {
    row.get(index)
}

/// Calls `rusqlite::Row::get` for a flag at the column `index`. Nothing is
/// claimed of the result; a column that is absent or holds no integer is an `Err`.
#[verifier::external_body]
fn column_flag(row: &rusqlite::Row<'_>, index: usize) -> (r: Result<bool, rusqlite::Error>) {
    row.get(index)
}

/// Calls `rusqlite::Row::get` for a count at the column `index`. Nothing is
/// claimed of the result; a column that is absent, holds no integer or holds one
/// that does not fit is an `Err`.
#[verifier::external_body]
fn column_count(row: &rusqlite::Row<'_>, index: usize) -> (r: Result<isize, rusqlite::Error>) {
    row.get(index)
}

/// The value that the store holds for a flag: 1 for true, 0 for false.
fn flag_value(flag: bool) -> (r: rusqlite::types::Value)
    ensures
        r == rusqlite::types::Value::Integer(
            if flag {
                1i64
            } else {
                0i64
            },
        ),
{
    if flag {
        rusqlite::types::Value::Integer(1)
    } else {
        rusqlite::types::Value::Integer(0)
    }
}

/// The value that the store holds for a count.
fn count_value(press_times: isize) -> (r: rusqlite::types::Value)
    ensures
        r == rusqlite::types::Value::Integer(press_times as i64),
{
    rusqlite::types::Value::Integer(press_times as i64)
}

/// The value that the store holds for a text.
fn text_value(text: &String) -> (r: rusqlite::types::Value)
    ensures
        r == rusqlite::types::Value::Text(*text),
{
    rusqlite::types::Value::Text(text.clone())
}

/// The words of a `rusqlite::Error`, by its `Display`. Nothing is claimed of them.
#[verifier::external_body]
fn describe(error: &rusqlite::Error) -> (r: String) {
    error.to_string()
}

/// The failure of the step `kind` that the engine reported as `error`.
fn engine_failure(kind: StoreErrorKind, error: &rusqlite::Error) -> (r: StoreError)
    ensures
        r.kind == kind,
        r.target@ == Seq::<char>::empty(),
{
    StoreError { kind: kind, detail: describe(error), target: String::new() }
}

/// The three columns of `row` as a record, or the step at which reading them
/// failed and the engine's words.
fn read_record(row: &rusqlite::Row<'_>) -> (r: Result<KeyRecord, (ReadStage, String)>)
    ensures
        r is Err ==> r->Err_0.0 == ReadStage::Keys || r->Err_0.0 == ReadStage::Single || r->Err_0.0
            == ReadStage::PressTimes,
{
    let keys = match column_text(row, 0) {
        Err(error) => {
            return Err((ReadStage::Keys, describe(&error)));
        },
        Ok(keys) => keys,
    };
    let single = match column_flag(row, 1) {
        Err(error) => {
            return Err((ReadStage::Single, describe(&error)));
        },
        Ok(single) => single,
    };
    let press_times = match column_count(row, 2) {
        Err(error) => {
            return Err((ReadStage::PressTimes, describe(&error)));
        },
        Ok(press_times) => press_times,
    };
    Ok(KeyRecord { keys: keys, single: single, press_times: press_times })
}

/// Runs the statement with the values bound to its parameters and reads the
/// rows that it yields, `limit` at most, each as a record. A failure names the
/// step at which it came and holds the engine's words.
fn read_rows(
    conn: &rusqlite::Connection,
    sql: &str,
    values: &Vec<rusqlite::types::Value>,
    limit: usize,
) -> (r: Result<Vec<KeyRecord>, (ReadStage, String)>)
    ensures
        r is Ok ==> r->Ok_0@.len() <= limit,
{
    let mut stmt = match prepare(conn, sql) {
        Err(error) => {
            return Err((ReadStage::Prepare, describe(&error)));
        },
        Ok(stmt) => stmt,
    };
    let mut rows = match query(&mut stmt, values) {
        Err(error) => {
            return Err((ReadStage::Execute, describe(&error)));
        },
        Ok(rows) => rows,
    };
    let mut out: Vec<KeyRecord> = Vec::new();
    while out.len() < limit
        invariant
            out@.len() <= limit,
        decreases limit - out@.len(),
    {
        match next_row(&mut rows) {
            Err(error) => {
                return Err((ReadStage::NextRow, describe(&error)));
            },
            Ok(None) => {
                return Ok(out);
            },
            Ok(Some(row)) => {
                match read_record(row) {
                    Err(failure) => {
                        return Err(failure);
                    },
                    Ok(record) => {
                        out.push(record);
                    },
                }
            },
        }
    }
    Ok(out)
}

/// The values that the insert statement takes for a row: keys, flag, count.
pub open spec fn insert_values(record: KeyRecord) -> Seq<rusqlite::types::Value> {
    seq![
        rusqlite::types::Value::Text(record.keys),
        rusqlite::types::Value::Integer(
            if record.single {
                1i64
            } else {
                0i64
            },
        ),
        rusqlite::types::Value::Integer(record.press_times as i64),
    ]
}

/// The values that the update statement takes for a row: count, keys.
pub open spec fn update_values(record: KeyRecord) -> Seq<rusqlite::types::Value> {
    seq![
        rusqlite::types::Value::Integer(record.press_times as i64),
        rusqlite::types::Value::Text(record.keys),
    ]
}

/// The statement that reads the row of the combo `keys`, and its value: the keys.
pub fn lookup_statement(keys: &String) -> (r: (&'static str, Vec<rusqlite::types::Value>))
    ensures
        r.0@ == LOOKUP_SQL@,
        r.1@ == seq![rusqlite::types::Value::Text(*keys)],
{
    let mut values: Vec<rusqlite::types::Value> = Vec::new();
    values.push(text_value(keys));
    assert(values@ =~= seq![rusqlite::types::Value::Text(*keys)]);
    (LOOKUP_SQL, values)
}

/// The statement that carries out `plan`, and its values: the insert statement
/// with keys, flag and count for a new row, the update statement with count and
/// keys for a new count, none where nothing is written.
pub fn statement_of(plan: &UpsertPlan) -> (r: Option<(&'static str, Vec<rusqlite::types::Value>)>)
    ensures
        match *plan {
            UpsertPlan::Insert(record) => r is Some && r->Some_0.0@ == INSERT_SQL@ && r->Some_0.1@
                == insert_values(record),
            UpsertPlan::Increment(record) => r is Some && r->Some_0.0@ == UPDATE_SQL@
                && r->Some_0.1@ == update_values(record),
            UpsertPlan::Saturated => r is None,
        },
{
    match plan {
        UpsertPlan::Insert(record) => {
            let mut values: Vec<rusqlite::types::Value> = Vec::new();
            values.push(text_value(&record.keys));
            values.push(flag_value(record.single));
            values.push(count_value(record.press_times));
            assert(values@ =~= insert_values(*record));
            Some((INSERT_SQL, values))
        },
        UpsertPlan::Increment(record) => {
            let mut values: Vec<rusqlite::types::Value> = Vec::new();
            values.push(count_value(record.press_times));
            values.push(text_value(&record.keys));
            assert(values@ =~= update_values(*record));
            Some((UPDATE_SQL, values))
        },
        UpsertPlan::Saturated => None,
    }
}

/// The statement that reads the rows for a report, and its values: every row
/// where there is no arity filter, else the rows whose flag is the filter's.
pub fn fetch_statement(filter_single: Option<bool>) -> (r: (
    &'static str,
    Vec<rusqlite::types::Value>,
))
    ensures
        match filter_single {
            None => r.0@ == FETCH_ALL_SQL@ && r.1@ == Seq::<rusqlite::types::Value>::empty(),
            Some(single) => r.0@ == FETCH_BY_ARITY_SQL@ && r.1@ == seq![
                rusqlite::types::Value::Integer(
                    if single {
                        1i64
                    } else {
                        0i64
                    },
                ),
            ],
        },
{
    let mut values: Vec<rusqlite::types::Value> = Vec::new();
    match filter_single {
        None => (FETCH_ALL_SQL, values),
        Some(single) => {
            values.push(flag_value(single));
            assert(values@ =~= seq![
                rusqlite::types::Value::Integer(
                    if single {
                        1i64
                    } else {
                        0i64
                    },
                ),
            ]);
            (FETCH_BY_ARITY_SQL, values)
        },
    }
}

/// The path of the store: `keyboard.db`.
pub fn db_path() -> (r: String)
    ensures
        r@ == "keyboard.db"@,
{
    String::from_str("keyboard.db")
}

/// Opens the store at `path` and creates its table where it is absent.
/// Fails with `Connect` where the store does not open and with `CreateTable`
/// where the table cannot be created.
pub fn open_database(path: &str) -> (r: Result<rusqlite::Connection, StoreError>)
    ensures
        r is Err ==> r->Err_0.kind == StoreErrorKind::Connect || r->Err_0.kind
            == StoreErrorKind::CreateTable,
{
    match open_connection(path) {
        Err(error) => Err(engine_failure(StoreErrorKind::Connect, &error)),
        Ok(conn) => match execute(&conn, CREATE_SQL, &Vec::new()) {
            Err(error) => Err(engine_failure(StoreErrorKind::CreateTable, &error)),
            Ok(_) => Ok(conn),
        },
    }
}

/// Opens the store at its usual path, `db_path()`.
pub fn init_database() -> (r: Result<rusqlite::Connection, StoreError>)
    ensures
        r is Err ==> r->Err_0.kind == StoreErrorKind::Connect || r->Err_0.kind
            == StoreErrorKind::CreateTable,
{
    let path = db_path();
    open_database(path.as_str())
}

/// The row that a lookup of `keys` finds in `table`: the first one with these keys.
pub open spec fn lookup(table: Seq<Record>, keys: Seq<char>) -> Option<Record>
    decreases table.len(),
{
    if table.len() == 0 {
        None
    } else {
        match lookup(table.drop_last(), keys) {
            Some(row) => Some(row),
            None => if table.last().keys == keys {
                Some(table.last())
            } else {
                None
            },
        }
    }
}

/// The number of rows of `table` with these keys.
pub open spec fn occurrences(table: Seq<Record>, keys: Seq<char>) -> nat
    decreases table.len(),
{
    if table.len() == 0 {
        0
    } else {
        occurrences(table.drop_last(), keys) + (if table.last().keys == keys {
            1nat
        } else {
            0nat
        })
    }
}

/// `table` with the count `press_times` in every row that has these keys.
pub open spec fn recounted(table: Seq<Record>, keys: Seq<char>, press_times: int) -> Seq<Record> {
    Seq::new(
        table.len(),
        |i: int|
            if table[i].keys == keys {
                Record { keys: keys, single: table[i].single, press_times: press_times }
            } else {
                table[i]
            },
    )
}

/// The table once `plan` is carried out on `table`.
pub open spec fn carried_out(table: Seq<Record>, plan: Plan) -> Seq<Record> {
    match plan {
        Plan::Insert(row) => table.push(row),
        Plan::Increment(row) => recounted(table, row.keys, row.press_times),
        Plan::Saturated => table,
    }
}

/// The table after one upsert of the combo with the key set `combo`.
pub open spec fn upserted(table: Seq<Record>, combo: Set<Seq<char>>) -> Seq<Record> {
    carried_out(table, combo_plan(lookup(table, canonical_text(combo)), combo))
}

/// The table after `n` upserts of the combo with the key set `combo`.
pub open spec fn replayed(table: Seq<Record>, combo: Set<Seq<char>>, n: nat) -> Seq<Record>
    decreases n,
{
    if n == 0 {
        table
    } else {
        upserted(replayed(table, combo, (n - 1) as nat), combo)
    }
}

/// No two rows of `table` have the same keys.
pub open spec fn unique_keys(table: Seq<Record>) -> bool {
    forall|keys: Seq<char>| #[trigger] occurrences(table, keys) <= 1
}

/// Every count of `table` is at least 1.
pub open spec fn counts_positive(table: Seq<Record>) -> bool {
    forall|i: int| 0 <= i < table.len() ==> (#[trigger] table[i]).press_times >= 1
}

/// A lookup finds a row of the table with the keys asked for, and finds none
/// exactly where no row has them.
pub proof fn lemma_lookup(table: Seq<Record>, keys: Seq<char>)
    ensures
        lookup(table, keys) is None <==> occurrences(table, keys) == 0,
        lookup(table, keys) is Some ==> lookup(table, keys).unwrap().keys == keys
            && table.contains(lookup(table, keys).unwrap()),
    decreases table.len(),
{
    if table.len() > 0 {
        let head = table.drop_last();
        lemma_lookup(head, keys);
        if lookup(head, keys) is Some {
            let row = lookup(head, keys).unwrap();
            let i = choose|i: int| 0 <= i < head.len() && head[i] == row;
            assert(table[i] == row);
        } else if table.last().keys == keys {
            assert(table[table.len() - 1] == table.last());
        }
    }
}

proof fn lemma_recounted(table: Seq<Record>, keys: Seq<char>, press_times: int, other: Seq<char>)
    ensures
        occurrences(recounted(table, keys, press_times), other) == occurrences(table, other),
        other != keys ==> lookup(recounted(table, keys, press_times), other) == lookup(
            table,
            other,
        ),
        lookup(recounted(table, keys, press_times), keys) == (match lookup(table, keys) {
            Some(row) => Some(Record { keys: keys, single: row.single, press_times: press_times }),
            None => None,
        }),
    decreases table.len(),
{
    let after = recounted(table, keys, press_times);
    if table.len() > 0 {
        let head = table.drop_last();
        lemma_recounted(head, keys, press_times, other);
        assert(after.drop_last() =~= recounted(head, keys, press_times));
        assert(after.last() == after[table.len() - 1]);
    }
}

proof fn lemma_pushed(table: Seq<Record>, row: Record, other: Seq<char>)
    ensures
        occurrences(table.push(row), other) == occurrences(table, other) + (if row.keys == other {
            1nat
        } else {
            0nat
        }),
        lookup(table.push(row), other) == (match lookup(table, other) {
            Some(found) => Some(found),
            None => if row.keys == other {
                Some(row)
            } else {
                None
            },
        }),
{
    assert(table.push(row).drop_last() =~= table);
    assert(table.push(row).last() == row);
}

/// The first upsert of a combo adds its row, with count 1 and the combo's arity.
pub proof fn lemma_upsert_first(table: Seq<Record>, combo: Set<Seq<char>>)
    requires
        occurrences(table, canonical_text(combo)) == 0,
    ensures
        upserted(table, combo) == table.push(
            Record { keys: canonical_text(combo), single: combo.len() == 1, press_times: 1 },
        ),
        occurrences(upserted(table, combo), canonical_text(combo)) == 1,
        lookup(upserted(table, combo), canonical_text(combo)) == Some(
            Record { keys: canonical_text(combo), single: combo.len() == 1, press_times: 1 },
        ),
{
    let keys = canonical_text(combo);
    let row = Record { keys: keys, single: combo.len() == 1, press_times: 1 };
    lemma_lookup(table, keys);
    lemma_pushed(table, row, keys);
}

/// A later upsert of a combo adds one to its count and adds no row.
pub proof fn lemma_upsert_again(table: Seq<Record>, combo: Set<Seq<char>>)
    requires
        lookup(table, canonical_text(combo)) is Some,
        lookup(table, canonical_text(combo)).unwrap().press_times < isize::MAX,
    ensures
        upserted(table, combo).len() == table.len(),
        occurrences(upserted(table, combo), canonical_text(combo)) == occurrences(
            table,
            canonical_text(combo),
        ),
        lookup(upserted(table, combo), canonical_text(combo)) == Some(
            Record {
                keys: canonical_text(combo),
                single: lookup(table, canonical_text(combo)).unwrap().single,
                press_times: lookup(table, canonical_text(combo)).unwrap().press_times + 1,
            },
        ),
{
    let keys = canonical_text(combo);
    let found = lookup(table, keys).unwrap();
    lemma_recounted(table, keys, found.press_times + 1, keys);
}

/// An upsert leaves the rows of every other combo as they were.
pub proof fn lemma_upsert_keeps_others(table: Seq<Record>, combo: Set<Seq<char>>, other: Seq<char>)
    requires
        other != canonical_text(combo),
    ensures
        lookup(upserted(table, combo), other) == lookup(table, other),
        occurrences(upserted(table, combo), other) == occurrences(table, other),
{
    let keys = canonical_text(combo);
    match combo_plan(lookup(table, keys), combo) {
        Plan::Insert(row) => {
            lemma_pushed(table, row, other);
        },
        Plan::Increment(row) => {
            lemma_recounted(table, keys, row.press_times, other);
        },
        Plan::Saturated => {},
    }
}

/// An upsert keeps the keys of the table unique.
pub proof fn lemma_upsert_keeps_unique(table: Seq<Record>, combo: Set<Seq<char>>)
    requires
        unique_keys(table),
    ensures
        unique_keys(upserted(table, combo)),
{
    let keys = canonical_text(combo);
    assert forall|other: Seq<char>| #[trigger] occurrences(upserted(table, combo), other)
        <= 1 by {
        assert(occurrences(table, other) <= 1);
        if other != keys {
            lemma_upsert_keeps_others(table, combo, other);
        } else {
            lemma_lookup(table, keys);
            match combo_plan(lookup(table, keys), combo) {
                Plan::Insert(row) => {
                    lemma_pushed(table, row, keys);
                },
                Plan::Increment(row) => {
                    lemma_recounted(table, keys, row.press_times, keys);
                },
                Plan::Saturated => {},
            }
        }
    }
}

/// Where the keys are unique, a lookup finds the one row that has the keys.
pub proof fn lemma_unique_row(table: Seq<Record>, keys: Seq<char>, i: int)
    requires
        occurrences(table, keys) <= 1,
        0 <= i < table.len(),
        table[i].keys == keys,
    ensures
        lookup(table, keys) == Some(table[i]),
    decreases table.len(),
{
    let head = table.drop_last();
    lemma_lookup(head, keys);
    if i < table.len() - 1 {
        assert(head[i] == table[i]);
        lemma_unique_row(head, keys, i);
    }
}

/// Where the keys are unique, an upsert never lowers a count, and keeps every
/// count at 1 or more.
pub proof fn lemma_upsert_counts_grow(table: Seq<Record>, combo: Set<Seq<char>>)
    requires
        unique_keys(table),
        counts_positive(table),
    ensures
        counts_positive(upserted(table, combo)),
        upserted(table, combo).len() >= table.len(),
        forall|i: int|
            0 <= i < table.len() ==> (#[trigger] upserted(table, combo)[i]).press_times
                >= table[i].press_times,
{
    let keys = canonical_text(combo);
    let after = upserted(table, combo);
    lemma_lookup(table, keys);
    match combo_plan(lookup(table, keys), combo) {
        Plan::Insert(row) => {},
        Plan::Increment(row) => {
            let found = lookup(table, keys).unwrap();
            assert forall|i: int| 0 <= i < table.len() implies (#[trigger] after[i]).press_times
                >= table[i].press_times && after[i].press_times >= 1 by {
                assert(table[i].press_times >= 1);
                if table[i].keys == keys {
                    assert(occurrences(table, keys) <= 1);
                    lemma_unique_row(table, keys, i);
                }
            }
        },
        Plan::Saturated => {},
    }
    assert forall|i: int| 0 <= i < after.len() implies (#[trigger] after[i]).press_times >= 1 by {
        if i < table.len() {
            assert(table[i].press_times >= 1);
        }
    }
}

/// Replaying one combo `n` times on a table that has no row of it leaves exactly
/// one row of it, with the count `n`.
pub proof fn lemma_replay_counts(table: Seq<Record>, combo: Set<Seq<char>>, n: nat)
    requires
        occurrences(table, canonical_text(combo)) == 0,
        1 <= n <= isize::MAX,
    ensures
        occurrences(replayed(table, combo, n), canonical_text(combo)) == 1,
        lookup(replayed(table, combo, n), canonical_text(combo)) == Some(
            Record { keys: canonical_text(combo), single: combo.len() == 1, press_times: n as int },
        ),
    decreases n,
{
    if n == 1 {
        assert(replayed(table, combo, 0) == table);
        lemma_upsert_first(table, combo);
    } else {
        lemma_replay_counts(table, combo, (n - 1) as nat);
        lemma_upsert_again(replayed(table, combo, (n - 1) as nat), combo);
    }
}

/// A copy of `record`.
fn copy_record(record: &KeyRecord) -> (r: KeyRecord)
    ensures
        r@ == record@,
{
    KeyRecord {
        keys: record.keys.clone(),
        single: record.single,
        press_times: record.press_times,
    }
}

/// Counts one occurrence of the combo `snapshot`: reads the row of its
/// canonical string, then writes what `plan_upsert` decides on it. The caller
/// holds the store for the whole call, so that no other upsert comes between
/// the reading and the writing.
///
/// On success returns the row as written. Fails with `Lookup` where the row
/// cannot be read, naming the step; with `Insert` or `Update` where the engine
/// fails to write; and with `Saturated` where the count cannot grow. The store
/// is then as the engine left it.
pub fn insert_keys_to_db(conn: &rusqlite::Connection, snapshot: &ComboSnapshot) -> (r: Result<
    KeyRecord,
    StoreError,
>)
    requires
        snapshot.wf(),
    ensures
        match r {
            Ok(record) => exists|found: Option<Record>| #[trigger]
                written(combo_plan(found, snapshot@)) == Some(record@),
            Err(error) => {
                ||| error.kind is Lookup
                ||| error.kind == StoreErrorKind::Insert
                ||| error.kind == StoreErrorKind::Update
                ||| error.kind == StoreErrorKind::Saturated
            },
        },
{
    let keys = snapshot.keys();
    let single = snapshot.single();
    let (lookup_sql, wanted) = lookup_statement(&keys);
    let mut rows = match read_rows(conn, lookup_sql, &wanted, 1) {
        Err((stage, words)) => {
            return Err(
                StoreError {
                    kind: StoreErrorKind::Lookup(stage),
                    detail: words,
                    target: String::new(),
                },
            );
        },
        Ok(rows) => rows,
    };
    let found = rows.pop();
    let ghost seen = found_row(found);
    let plan = plan_upsert(found, keys, single);
    let written_by = match statement_of(&plan) {
        None => {
            return Err(
                StoreError {
                    kind: StoreErrorKind::Saturated,
                    detail: String::new(),
                    target: String::new(),
                },
            );
        },
        Some((sql, values)) => execute(conn, sql, &values),
    };
    match plan {
        UpsertPlan::Insert(record) => match written_by {
            Err(error) => Err(engine_failure(StoreErrorKind::Insert, &error)),
            Ok(_) => {
                assert(written(combo_plan(seen, snapshot@)) == Some(record@));
                Ok(record)
            },
        },
        UpsertPlan::Increment(record) => match written_by {
            Err(error) => Err(engine_failure(StoreErrorKind::Update, &error)),
            Ok(_) => {
                assert(written(combo_plan(seen, snapshot@)) == Some(record@));
                Ok(record)
            },
        },
        UpsertPlan::Saturated => Err(
            StoreError {
                kind: StoreErrorKind::Saturated,
                detail: String::new(),
                target: String::new(),
            },
        ),
    }
}

/// `a` stands before `b` in a report: the larger count first, and of two equal
/// counts the combo string that comes first.
pub open spec fn ranks_before(a: Record, b: Record) -> bool {
    a.press_times > b.press_times || (a.press_times == b.press_times && precedes(a.keys, b.keys))
}

/// The rows stand in the order of a report: none ranks before one that stands
/// ahead of it.
pub open spec fn report_order(rows: Seq<Record>) -> bool {
    forall|i: int, j: int| 0 <= i < j < rows.len() ==> !ranks_before(#[trigger] rows[j], #[trigger] rows[i])
}

/// Whether a row passes the arity filter: every row where there is none, else
/// the rows whose `single` is the filter's.
pub open spec fn passes(filter_single: Option<bool>, row: Record) -> bool {
    match filter_single {
        None => true,
        Some(single) => row.single == single,
    }
}

/// The rows of `rows` that pass the filter, in the order of `rows`.
pub open spec fn filtered(rows: Seq<Record>, filter_single: Option<bool>) -> Seq<Record> {
    rows.filter(|row: Record| passes(filter_single, row))
}

/// Whether `a` stands before `b` in a report.
pub fn record_ranks_before(a: &KeyRecord, b: &KeyRecord) -> (r: bool)
    ensures
        r == ranks_before(a@, b@),
{
    a.press_times > b.press_times || (a.press_times == b.press_times && token_lt(
        a.keys.as_str(),
        b.keys.as_str(),
    ))
}

/// A row that ranks before `x` ranks before whatever `x` does not rank behind.
pub proof fn lemma_ranks_through(r: Record, x: Record, y: Record)
    requires
        ranks_before(r, x),
        !ranks_before(y, x),
    ensures
        ranks_before(r, y),
        !ranks_before(y, r),
{
    if r.press_times == x.press_times && x.press_times == y.press_times {
        if x.keys != y.keys {
            lemma_total(x.keys, y.keys);
            lemma_transitive(r.keys, x.keys, y.keys);
        }
        lemma_asymmetric(r.keys, y.keys);
    }
}

/// Each row ranks before every later one.
pub open spec fn strictly_ranked(rows: Seq<Record>) -> bool {
    forall|i: int, j: int| 0 <= i < j < rows.len() ==> ranks_before(#[trigger] rows[i], #[trigger] rows[j])
}

/// No two rows at different places have the same keys.
pub open spec fn distinct_keys(rows: Seq<Record>) -> bool {
    forall|i: int, j: int|
        0 <= i < rows.len() && 0 <= j < rows.len() && i != j ==> (#[trigger] rows[i]).keys
            != (#[trigger] rows[j]).keys
}

/// Of two rows none ranks before itself, and they never rank before each other.
pub proof fn lemma_ranks_asymmetric(a: Record, b: Record)
    requires
        ranks_before(a, b),
    ensures
        !ranks_before(b, a),
        a != b,
{
    lemma_irreflexive(a.keys);
    if a.press_times == b.press_times {
        lemma_asymmetric(a.keys, b.keys);
    }
}

/// Rows in the order of a report whose keys are distinct rank strictly.
pub proof fn lemma_report_order_strict(rows: Seq<Record>)
    requires
        report_order(rows),
        distinct_keys(rows),
    ensures
        strictly_ranked(rows),
{
    assert forall|i: int, j: int| 0 <= i < j < rows.len() implies ranks_before(
        #[trigger] rows[i],
        #[trigger] rows[j],
    ) by {
        assert(!ranks_before(rows[j], rows[i]));
        assert(rows[i].keys != rows[j].keys);
        lemma_total(rows[i].keys, rows[j].keys);
    }
}

proof fn lemma_ranked_unique(p: Seq<Record>, q: Seq<Record>)
    requires
        strictly_ranked(p),
        strictly_ranked(q),
        forall|x: Record| p.contains(x) <==> q.contains(x),
    ensures
        p == q,
{
    let before = |x: Record, y: Record| ranks_before(x, y);
    assert forall|x: Record, y: Record| #[trigger] before(x, y) implies !before(y, x) by {
        lemma_ranks_asymmetric(x, y);
    }
    assert(strictly_ordered(p, before)) by {
        assert forall|i: int, j: int| 0 <= i < j < p.len() implies before(
            #[trigger] p[i],
            #[trigger] p[j],
        ) by {
            assert(ranks_before(p[i], p[j]));
        }
    }
    assert(strictly_ordered(q, before)) by {
        assert forall|i: int, j: int| 0 <= i < j < q.len() implies before(
            #[trigger] q[i],
            #[trigger] q[j],
        ) by {
            assert(ranks_before(q[i], q[j]));
        }
    }
    lemma_strictly_ordered_unique(p, q, before);
}

/// The order of a report is fixed by the rows: two lists of the same rows, both
/// in the order of a report and with distinct keys, are the same list.
pub proof fn lemma_report_order_unique(p: Seq<Record>, q: Seq<Record>)
    requires
        report_order(p),
        report_order(q),
        distinct_keys(p),
        p.to_multiset() == q.to_multiset(),
    ensures
        p == q,
{
    p.to_multiset_ensures();
    q.to_multiset_ensures();
    assert forall|x: Record| p.contains(x) <==> q.contains(x) by {
        assert(p.contains(x) <==> p.to_multiset().count(x) > 0);
        assert(q.contains(x) <==> q.to_multiset().count(x) > 0);
    }
    assert(distinct_keys(q)) by {
        assert forall|i: int, j: int|
            0 <= i < q.len() && 0 <= j < q.len() && i != j implies (#[trigger] q[i]).keys != (
        #[trigger] q[j]).keys by {
            assert(q.contains(q[i]));
            assert(q.contains(q[j]));
            let a = choose|a: int| 0 <= a < p.len() && p[a] == q[i];
            let b = choose|b: int| 0 <= b < p.len() && p[b] == q[j];
            if a == b {
                // the same row twice in q, once in p
                lemma_distinct_rows_once(p, a);
                assert(q[i] == q[j]);
                lemma_twice_counts(q, i, j);
            }
        }
    }
    lemma_report_order_strict(p);
    lemma_report_order_strict(q);
    lemma_ranked_unique(p, q);
}

/// A row of a list with distinct keys occurs once in it.
proof fn lemma_distinct_rows_once(p: Seq<Record>, a: int)
    requires
        distinct_keys(p),
        0 <= a < p.len(),
    ensures
        p.to_multiset().count(p[a]) == 1,
{
    assert(p.no_duplicates()) by {
        assert forall|i: int, j: int| 0 <= i < p.len() && 0 <= j < p.len() && i != j implies p[i]
            != p[j] by {
            assert(p[i].keys != p[j].keys);
        }
    }
    p.lemma_multiset_has_no_duplicates();
    p.to_multiset_ensures();
    assert(p.contains(p[a]));
}

/// A row that stands at two places of a list occurs at least twice in it.
proof fn lemma_twice_counts(q: Seq<Record>, i: int, j: int)
    requires
        0 <= i < q.len(),
        0 <= j < q.len(),
        i != j,
        q[i] == q[j],
    ensures
        q.to_multiset().count(q[i]) >= 2,
{
    let (lo, hi) = if i < j {
        (i, j)
    } else {
        (j, i)
    };
    let rest = q.remove(hi);
    vstd::seq_lib::to_multiset_remove(q, hi);
    rest.to_multiset_ensures();
    q.to_multiset_ensures();
    assert(rest[lo] == q[lo]);
    assert(rest.contains(q[i]));
    assert(rest.to_multiset().count(q[i]) >= 1);
    assert(q.to_multiset().count(q[hi]) >= 1) by {
        assert(q.contains(q[hi]));
    }
}

/// Putting a row into a list adds it to the list's rows, whatever the place.
pub proof fn lemma_insert_multiset(rows: Seq<Record>, at: int, row: Record)
    requires
        0 <= at <= rows.len(),
    ensures
        rows.insert(at, row).to_multiset() == rows.to_multiset().insert(row),
{
    let longer = rows.insert(at, row);
    assert(longer.remove(at) =~= rows);
    vstd::seq_lib::to_multiset_remove(longer, at);
    longer.to_multiset_ensures();
    assert(longer[at] == row);
    assert(longer.contains(row));
    assert(longer.to_multiset().count(row) > 0);
    assert(longer.to_multiset() =~= rows.to_multiset().insert(row));
}

/// Puts rows into the order of a report and keeps those that pass the arity
/// filter: the larger count first, and of two equal counts the combo string that
/// comes first.
pub fn arrange(rows: &Vec<KeyRecord>, filter_single: Option<bool>) -> (out: Vec<KeyRecord>)
    ensures
        report_order(rows_of(out@)),
        rows_of(out@).to_multiset() == filtered(rows_of(rows@), filter_single).to_multiset(),
        forall|i: int| 0 <= i < out@.len() ==> passes(filter_single, #[trigger] out@[i]@),
{
    let mut out: Vec<KeyRecord> = Vec::new();
    let mut i: usize = 0;
    let ghost all = rows_of(rows@);
    let ghost pass = |row: Record| passes(filter_single, row);
    proof {
        assert(all.take(0) =~= Seq::<Record>::empty());
        assert(all.take(0).filter(pass) =~= Seq::<Record>::empty()) by {
            reveal(Seq::filter);
        }
        assert(rows_of(out@) =~= Seq::<Record>::empty());
    }
    while i < rows.len()
        invariant
            i <= rows@.len(),
            all == rows_of(rows@),
            pass == (|row: Record| passes(filter_single, row)),
            report_order(rows_of(out@)),
            rows_of(out@).to_multiset() == all.take(i as int).filter(pass).to_multiset(),
            forall|k: int| 0 <= k < out@.len() ==> passes(filter_single, #[trigger] out@[k]@),
        decreases rows@.len() - i,
    {
        let record = &rows[i];
        let keep = match filter_single {
            None => true,
            Some(single) => record.single == single,
        };
        proof {
            assert(all.take(i as int + 1) =~= all.take(i as int).push(record@));
            all.take(i as int).lemma_filter_push(record@, pass);
        }
        if keep {
            let ghost before = rows_of(out@);
            let mut at: usize = 0;
            while at < out.len() && !record_ranks_before(record, &out[at])
                invariant
                    at <= out@.len(),
                    before == rows_of(out@),
                    report_order(before),
                    forall|k: int| 0 <= k < at ==> !ranks_before(record@, #[trigger] before[k]),
                decreases out@.len() - at,
            {
                at = at + 1;
            }
            out.insert(at, copy_record(record));
            proof {
                let after = rows_of(out@);
                assert(after =~= before.insert(at as int, record@));
                lemma_insert_multiset(before, at as int, record@);
                vstd::seq_lib::to_multiset_build(all.take(i as int).filter(pass), record@);
                assert forall|a: int, b: int| 0 <= a < b < after.len() implies !ranks_before(
                    #[trigger] after[b],
                    #[trigger] after[a],
                ) by {
                    if b < at {
                        assert(after[a] == before[a] && after[b] == before[b]);
                    } else if b == at {
                        assert(after[a] == before[a]);
                    } else if a == at {
                        assert(after[b] == before[b - 1]);
                        lemma_irreflexive(before[at as int].keys);
                        if b - 1 > at {
                            assert(!ranks_before(before[b - 1], before[at as int]));
                        }
                        lemma_ranks_through(record@, before[at as int], before[b - 1]);
                    } else if a < at {
                        assert(after[a] == before[a] && after[b] == before[b - 1]);
                    } else {
                        assert(after[a] == before[a - 1] && after[b] == before[b - 1]);
                    }
                }
                assert forall|k: int| 0 <= k < out@.len() implies passes(
                    filter_single,
                    #[trigger] out@[k]@,
                ) by {
                    assert(after[k] == out@[k]@);
                    if k < at {
                        assert(after[k] == before[k]);
                    } else if k > at {
                        assert(after[k] == before[k - 1]);
                    }
                }
            }
        }
        i = i + 1;
    }
    proof {
        assert(all.take(i as int) =~= all);
    }
    out
}

/// Reads the rows of the store for a report: those that pass the arity filter,
/// the larger count first, and of two equal counts the combo string that comes
/// first. Fails with `Fetch` where the rows cannot be read, naming the step.
pub fn fetch_records(conn: &rusqlite::Connection, filter_single: Option<bool>) -> (r: Result<
    Vec<KeyRecord>,
    StoreError,
>)
    ensures
        match r {
            Ok(records) => {
                &&& report_order(rows_of(records@))
                &&& forall|i: int|
                    0 <= i < records@.len() ==> passes(filter_single, #[trigger] records@[i]@)
            },
            Err(error) => error.kind is Fetch,
        },
{
    let (sql, wanted) = fetch_statement(filter_single);
    match read_rows(conn, sql, &wanted, usize::MAX) {
        Err((stage, words)) => Err(
            StoreError { kind: StoreErrorKind::Fetch(stage), detail: words, target: String::new() },
        ),
        Ok(rows) => Ok(arrange(&rows, filter_single)),
    }
}

/// What became of the backup that goes before a clear.
pub enum BackupOutcome {
    /// None was asked for.
    NotRequested,
    /// One was asked for, and there was no store to copy.
    NoStore,
    /// The store was copied to this path.
    Written(String),
    /// The store could not be copied to the first path; the second words say why.
    Failed(String, String),
}

/// The path of the backup of the store at `path`: the same, with `.backup` behind it.
pub fn backup_path(path: &str) -> (r: String)
    ensures
        r@ == path@ + ".backup"@,
{
    let mut r = String::from_str(path);
    r.append(".backup");
    r
}

/// Where to copy the store at `path` before a clear: to its backup path where a
/// backup is asked for and the store is present, else nowhere.
pub fn backup_database(path: &str, requested: bool, store_present: bool) -> (r: Option<String>)
    ensures
        r.is_some() <==> requested && store_present,
        r.is_some() ==> r.unwrap()@ == path@ + ".backup"@,
{
    if requested && store_present {
        Some(backup_path(path))
    } else {
        None
    }
}

/// What became of the backup of the store at `path`, given whether one was
/// asked for, whether the store was present, and the words of the failure if the
/// copy failed.
pub fn backup_outcome(
    path: &str,
    requested: bool,
    store_present: bool,
    copy_failure: Option<String>,
) -> (r: BackupOutcome)
    ensures
        !requested ==> r is NotRequested,
        requested && !store_present ==> r is NoStore,
        requested && store_present && copy_failure is None ==> r is Written && r->Written_0@
            == path@ + ".backup"@,
        requested && store_present && copy_failure is Some ==> r is Failed && r->Failed_0@
            == path@ + ".backup"@ && r->Failed_1 == copy_failure.unwrap(),
{
    if !requested {
        BackupOutcome::NotRequested
    } else if !store_present {
        BackupOutcome::NoStore
    } else {
        match copy_failure {
            Some(words) => BackupOutcome::Failed(backup_path(path), words),
            None => BackupOutcome::Written(backup_path(path)),
        }
    }
}

/// Removes every row of the store, unless the backup that goes before failed:
/// then nothing is removed and the failure is `Backup`. On success returns the
/// path of the backup that was written, if one was. Fails with `Clear` where the
/// engine fails.
pub fn clear_records(conn: &rusqlite::Connection, backup: BackupOutcome) -> (r: Result<
    Option<String>,
    StoreError,
>)
    ensures
        backup is Failed ==> r is Err && r->Err_0.kind == StoreErrorKind::Backup && r->Err_0.target
            == backup->Failed_0 && r->Err_0.detail == backup->Failed_1,
        !(backup is Failed) && r is Err ==> r->Err_0.kind == StoreErrorKind::Clear,
        r is Ok ==> r->Ok_0 == (match backup {
            BackupOutcome::Written(path) => Some(path),
            _ => None,
        }),
{
    let written = match backup {
        BackupOutcome::Failed(target, words) => {
            return Err(StoreError { kind: StoreErrorKind::Backup, detail: words, target: target });
        },
        BackupOutcome::Written(path) => Some(path),
        BackupOutcome::NoStore => None,
        BackupOutcome::NotRequested => None,
    };
    match execute(conn, DELETE_SQL, &Vec::new()) {
        Err(error) => Err(engine_failure(StoreErrorKind::Clear, &error)),
        Ok(_) => Ok(written),
    }
}

} // verus!
