use rusqlite::OptionalExtension;
use vstd::prelude::*;

verus! {

#[verifier::external_type_specification]
#[verifier::external_body]
pub struct ExConnection(rusqlite::Connection);

/// A failure reported by the persistent store, carried as plain text.
#[derive(Debug)]
pub struct StoreError {
    pub message: String,
}

/// A value bound to a `?` placeholder of a statement.
pub enum SqlArg {
    Int(i64),
    Text(String),
}

/// Relies on rusqlite::Connection::open: opens (or creates) the SQLite
/// database file at `path`.
#[verifier::external_body]
pub fn open_store(path: &String) -> (r: Result<rusqlite::Connection, StoreError>) {
    match rusqlite::Connection::open(path.as_str()) {
        Ok(c) => Ok(c),
        Err(e) => Err(StoreError { message: format!("{e}") }),
    }
}

/// Relies on rusqlite::Connection::open_in_memory: opens a fresh in-memory
/// SQLite database.
#[verifier::external_body]
pub fn open_store_in_memory() -> (r: Result<rusqlite::Connection, StoreError>) {
    match rusqlite::Connection::open_in_memory() {
        Ok(c) => Ok(c),
        Err(e) => Err(StoreError { message: format!("{e}") }),
    }
}

/// Relies on rusqlite::Connection::execute: runs one statement with the
/// given bound values against the open store.
#[verifier::external_body]
pub(crate) fn exec_sql(conn: &rusqlite::Connection, sql: &str, args: &Vec<SqlArg>) -> (r: Result<
    usize,
    StoreError,
>) {
    let vs: Vec<Box<dyn rusqlite::types::ToSql>> = args.iter().map(|a| match a {
        SqlArg::Int(i) => Box::new(*i) as Box<dyn rusqlite::types::ToSql>,
        SqlArg::Text(s) => Box::new(s.clone()) as Box<dyn rusqlite::types::ToSql>,
    }).collect();
    match conn.execute(sql, rusqlite::params_from_iter(vs)) {
        Ok(n) => Ok(n),
        Err(e) => Err(StoreError { message: format!("{e}") }),
    }
}

/// Relies on rusqlite::Connection::execute_batch: runs several statements,
/// used for schema creation, maintenance sweeps and transaction control.
#[verifier::external_body]
pub(crate) fn exec_batch(conn: &rusqlite::Connection, sql: &str) -> (r: Result<(), StoreError>) {
    match conn.execute_batch(sql) {
        Ok(()) => Ok(()),
        Err(e) => Err(StoreError { message: format!("{e}") }),
    }
}

/// Relies on rusqlite::Statement::insert (after Connection::prepare): runs
/// an INSERT and hands back the rowid the store chose.
#[verifier::external_body]
pub(crate) fn insert_sql(conn: &rusqlite::Connection, sql: &str, args: &Vec<SqlArg>) -> (r: Result<
    i64,
    StoreError,
>) {
    let vs: Vec<Box<dyn rusqlite::types::ToSql>> = args.iter().map(|a| match a {
        SqlArg::Int(i) => Box::new(*i) as Box<dyn rusqlite::types::ToSql>,
        SqlArg::Text(s) => Box::new(s.clone()) as Box<dyn rusqlite::types::ToSql>,
    }).collect();
    let run = || -> rusqlite::Result<i64> {
        conn.prepare(sql)?.insert(rusqlite::params_from_iter(vs))
    };
    match run() {
        Ok(id) => Ok(id),
        Err(e) => Err(StoreError { message: format!("{e}") }),
    }
}

/// Relies on rusqlite::Connection::query_row with OptionalExtension: reads
/// at most one row of an id and a nullable deletion stamp.
#[verifier::external_body]
pub(crate) fn query_opt_id_deleted(
    conn: &rusqlite::Connection,
    sql: &str,
    args: &Vec<SqlArg>,
) -> (r: Result<Option<(i64, Option<String>)>, StoreError>) {
    let vs: Vec<Box<dyn rusqlite::types::ToSql>> = args.iter().map(|a| match a {
        SqlArg::Int(i) => Box::new(*i) as Box<dyn rusqlite::types::ToSql>,
        SqlArg::Text(s) => Box::new(s.clone()) as Box<dyn rusqlite::types::ToSql>,
    }).collect();
    let got = conn.query_row(sql, rusqlite::params_from_iter(vs), |row| {
        Ok((row.get(0)?, row.get(1)?))
    }).optional();
    match got {
        Ok(v) => Ok(v),
        Err(e) => Err(StoreError { message: format!("{e}") }),
    }
}

/// Relies on rusqlite::Statement::query_map (after Connection::prepare):
/// reads a list of single-integer rows.
#[verifier::external_body]
pub(crate) fn query_ids(conn: &rusqlite::Connection, sql: &str, args: &Vec<SqlArg>) -> (r: Result<
    Vec<i64>,
    StoreError,
>) {
    let vs: Vec<Box<dyn rusqlite::types::ToSql>> = args.iter().map(|a| match a {
        SqlArg::Int(i) => Box::new(*i) as Box<dyn rusqlite::types::ToSql>,
        SqlArg::Text(s) => Box::new(s.clone()) as Box<dyn rusqlite::types::ToSql>,
    }).collect();
    let run = || -> rusqlite::Result<Vec<i64>> {
        conn.prepare(sql)?.query_map(rusqlite::params_from_iter(vs), |row| row.get(0))?.collect()
    };
    match run() {
        Ok(v) => Ok(v),
        Err(e) => Err(StoreError { message: format!("{e}") }),
    }
}

/// Relies on rusqlite::Statement::query_map (after Connection::prepare):
/// reads tag rows of id, name, parent, position and color.
#[verifier::external_body]
pub fn query_tag_rows(conn: &rusqlite::Connection, sql: &str) -> (r: Result<
    Vec<(i64, String, i64, i64, i64)>,
    StoreError,
>) {
    let run = || -> rusqlite::Result<Vec<(i64, String, i64, i64, i64)>> {
        conn.prepare(sql)?.query_map([], |row| {
            Ok((row.get(0)?, row.get(1)?, row.get(2)?, row.get(3)?, row.get(4)?))
        })?.collect()
    };
    match run() {
        Ok(v) => Ok(v),
        Err(e) => Err(StoreError { message: format!("{e}") }),
    }
}

/// Relies on rusqlite::Statement::query_map (after Connection::prepare):
/// reads rows of id, name, owner id and a nullable deletion stamp, as the
/// batched scan strategy prefetches folders or entries.
#[verifier::external_body]
pub(crate) fn query_key_rows(conn: &rusqlite::Connection, sql: &str) -> (r: Result<
    Vec<(i64, String, i64, Option<String>)>,
    StoreError,
>) {
    let run = || -> rusqlite::Result<Vec<(i64, String, i64, Option<String>)>> {
        conn.prepare(sql)?.query_map([], |row| {
            Ok((row.get(0)?, row.get(1)?, row.get(2)?, row.get(3)?))
        })?.collect()
    };
    match run() {
        Ok(v) => Ok(v),
        Err(e) => Err(StoreError { message: format!("{e}") }),
    }
}

} // verus!
