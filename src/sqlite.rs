//! The calls into rusqlite that the store makes. Nothing is promised of what
//! the database holds: it lives on disk and may be shared with other
//! processes, so the store checks what comes back.
use vstd::prelude::*;

verus! {

#[verifier::external_type_specification]
#[verifier::external_body]
pub struct ExConnection(rusqlite::Connection);

#[verifier::external_type_specification]
#[verifier::external_body]
pub struct ExError(rusqlite::Error);

/// Relies on rusqlite::Connection::open: opens, or creates, the database file.
#[verifier::external_body]
pub(crate) fn open_connection(path: &str) -> (r: Result<rusqlite::Connection, rusqlite::Error>) {
    rusqlite::Connection::open(path)
}

/// Relies on rusqlite::Connection::execute_batch: runs the statements in `sql`.
#[verifier::external_body]
pub(crate) fn execute_batch(conn: &rusqlite::Connection, sql: &str) -> (r: Result<(), rusqlite::Error>) {
    conn.execute_batch(sql)
}

/// Relies on rusqlite::Connection::execute: runs one statement with `text`
/// bound to its first parameter and returns the number of rows changed.
#[verifier::external_body]
pub(crate) fn execute_with_text(conn: &rusqlite::Connection, sql: &str, text: &str) -> (r: Result<
    usize,
    rusqlite::Error,
>) {
    conn.execute(sql, [text])
}

/// Relies on rusqlite::Connection::last_insert_rowid: the rowid of the most
/// recent successful insert on this connection.
#[verifier::external_body]
pub(crate) fn last_insert_rowid(conn: &rusqlite::Connection) -> (r: i64) {
    conn.last_insert_rowid()
}

/// Relies on rusqlite::Connection::prepare, Statement::query_map and Row::get:
/// runs a query with `limit` bound to its first parameter and reads each row
/// as an integer column followed by a text column.
#[verifier::external_body]
pub(crate) fn query_id_text_rows(conn: &rusqlite::Connection, sql: &str, limit: i64) -> (r: Result<
    Vec<(i64, String)>,
    rusqlite::Error,
>) {
    let mut stmt = conn.prepare(sql)?;
    let rows = stmt.query_map([limit], |row| Ok((row.get(0)?, row.get(1)?)))?;
    rows.collect()
}

/// Relies on the `Display` impl of rusqlite::Error: a readable description.
#[verifier::external_body]
pub(crate) fn error_text(e: &rusqlite::Error) -> (r: String) {
    e.to_string()
}

} // verus!
