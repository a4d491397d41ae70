//! The projection store: the scratch relational database that patch
//! scripts run against, reached through a bounded connection pool.
//!
//! Everything the store returns is handed to verified code as plain
//! values; nothing is assumed about the database's contents, since user
//! scripts may change it arbitrarily.

use vstd::prelude::*;

use r2d2::Pool;
use r2d2::PooledConnection;
use r2d2_sqlite::SqliteConnectionManager;

use crate::error::PatchError;

verus! {

/// The connection pool, held opaquely: Verus sees nothing inside.
#[verifier::external_body]
pub struct StorePool {
    inner: Pool<SqliteConnectionManager>,
}

/// One borrowed connection; dropping it returns it to the pool.
#[verifier::external_body]
pub struct StoreConnection {
    inner: PooledConnection<SqliteConnectionManager>,
}

/// Relies on `SqliteConnectionManager::file` and `r2d2::Pool::new`: a
/// bounded pool (default configuration) over the database file at the
/// given path.
#[verifier::external_body]
fn pool_for_file(path: &Vec<u8>) -> Result<StorePool, Vec<u8>> {
    let manager = SqliteConnectionManager::file(String::from_utf8_lossy(path).as_ref());
    Pool::new(manager).map(|inner| StorePool { inner }).map_err(|e| format!("{e}").into_bytes())
}

/// Relies on `SqliteConnectionManager::memory` and `r2d2::Pool::new`: a
/// bounded pool over a fresh shared in-memory database.
#[verifier::external_body]
fn pool_for_memory() -> Result<StorePool, Vec<u8>> {
    let manager = SqliteConnectionManager::memory();
    Pool::new(manager).map(|inner| StorePool { inner }).map_err(|e| format!("{e}").into_bytes())
}

/// Relies on `r2d2::Pool::get`: borrows one connection, waiting at most
/// the configured timeout.
#[verifier::external_body]
fn pool_get(pool: &StorePool) -> Result<StoreConnection, Vec<u8>> {
    pool.inner.get().map(|inner| StoreConnection { inner }).map_err(
        |e| format!("{e}").into_bytes(),
    )
}

/// Relies on `rusqlite::Connection::execute_batch` (through the pooled
/// connection's deref): runs the statements of the batch in order and
/// fails if any statement fails.
#[verifier::external_body]
fn conn_execute_batch(conn: &StoreConnection, sql: &Vec<u8>) -> Result<(), Vec<u8>> {
    conn.inner.execute_batch(String::from_utf8_lossy(sql).as_ref()).map_err(
        |e| format!("{e}").into_bytes(),
    )
}

/// Relies on `rusqlite::Connection::prepare` and
/// `rusqlite::Statement::query_map`: runs one query and hands every row
/// back as optional text cells, in the order the statement produced them.
#[verifier::external_body]
fn conn_query_rows(conn: &StoreConnection, sql: &Vec<u8>) -> Result<
    Vec<Vec<Option<Vec<u8>>>>,
    Vec<u8>,
> {
    let mut stmt = conn.inner.prepare(String::from_utf8_lossy(sql).as_ref()).map_err(
        |e| format!("{e}").into_bytes(),
    )?;
    let cols = stmt.column_count();
    let rows = stmt.query_map([], |row| {
        (0..cols).map(|i| {
            row.get::<_, Option<String>>(i).map(|v| v.map(String::into_bytes))
        }).collect::<Result<Vec<_>, _>>()
    }).map_err(|e| format!("{e}").into_bytes())?;
    rows.collect::<Result<Vec<_>, _>>().map_err(|e| format!("{e}").into_bytes())
}

/// A scratch relational database behind a bounded connection pool.  One
/// batch borrows exactly one connection for its whole execution and
/// releases it on every exit path.
pub struct ProjectionStore {
    pool: StorePool,
}

impl ProjectionStore {
    /// Opens (or creates) the store backed by the given database file.
    pub fn open_file(path: &Vec<u8>) -> (r: Result<ProjectionStore, PatchError>)
        ensures
            r matches Err(e) ==> e is IoFailure,
    {
        match pool_for_file(path) {
            Ok(pool) => Ok(ProjectionStore { pool }),
            Err(m) => Err(PatchError::IoFailure(m)),
        }
    }

    /// Opens a fresh in-memory store.
    pub fn in_memory() -> (r: Result<ProjectionStore, PatchError>)
        ensures
            r matches Err(e) ==> e is IoFailure,
    {
        match pool_for_memory() {
            Ok(pool) => Ok(ProjectionStore { pool }),
            Err(m) => Err(PatchError::IoFailure(m)),
        }
    }

    /// Runs one batch of statements against the store.  Nothing is known
    /// of the store afterwards: the batch may hold arbitrary user SQL.
    pub fn execute_batch(&self, sql: &Vec<u8>) -> (r: Result<(), PatchError>)
        ensures
            r matches Err(e) ==> e is ScriptFailure,
    {
        match pool_get(&self.pool) {
            Ok(conn) => match conn_execute_batch(&conn, sql) {
                Ok(()) => Ok(()),
                Err(m) => Err(PatchError::ScriptFailure(m)),
            },
            Err(m) => Err(PatchError::ScriptFailure(m)),
        }
    }

    /// Runs one query and returns its rows as optional text cells.  The
    /// rows depend on the store's current contents; verified callers take
    /// them as they come.
    pub fn query_rows(&self, sql: &Vec<u8>) -> (r: Result<
        Vec<Vec<Option<Vec<u8>>>>,
        PatchError,
    >)
        ensures
            r matches Err(e) ==> e is ScriptFailure,
    {
        match pool_get(&self.pool) {
            Ok(conn) => match conn_query_rows(&conn, sql) {
                Ok(rows) => Ok(rows),
                Err(m) => Err(PatchError::ScriptFailure(m)),
            },
            Err(m) => Err(PatchError::ScriptFailure(m)),
        }
    }
}

} // verus!
