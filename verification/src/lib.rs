//! Counts key combinations.
//!
//! The aggregator (`key`, over the held keys of `held`) turns key-down and
//! key-up events into combo snapshots: one for each hold-and-release gesture.
//! The counter store (`db`) keeps one row for each combo, with the number of
//! times it occurred, and reports the rows most frequent first. `commands`
//! holds what each command of the recorder decides, `clt` its arguments,
//! `logging` the log entries, `lex` the order on key tokens and `text` numbers
//! as text.
//!
//! The store is an SQLite database behind `rusqlite`. What the engine does with
//! a statement is not proved here: the contracts of `db` say what is decided
//! on the rows that the engine hands over, and the laws of `db` speak of the
//! table as a list of rows.

pub mod lex;
pub mod text;
pub mod held;
pub mod key;
pub mod db;
pub mod clt;
pub mod logging;
pub mod commands;
