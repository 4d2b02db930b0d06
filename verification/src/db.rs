//! The SQLite calls that the stores make, through `rusqlite`: opening a
//! database, running statements with parameters, and reading the columns
//! of result rows.
use vstd::prelude::*;

verus! {

/// `rusqlite::Connection`, an open SQLite database.
#[verifier::external_type_specification]
#[verifier::external_body]
pub struct ExSqliteConnection(rusqlite::Connection);

/// `rusqlite::Row`, a row of a query's result.
#[verifier::external_type_specification]
#[verifier::external_body]
pub struct ExSqliteRow<'stmt>(rusqlite::Row<'stmt>);

/// A value handed to a statement as a parameter.
#[derive(Debug, Clone, PartialEq, Eq)]
pub enum SqlValue {
    Null,
    Integer(i64),
    Text(String),
}

/// A parameter taken by value.
pub enum SqlValueView {
    Null,
    Integer(i64),
    Text(Seq<char>),
}

impl View for SqlValue {
    type V = SqlValueView;

    open spec fn view(&self) -> SqlValueView {
        match self {
            SqlValue::Null => SqlValueView::Null,
            SqlValue::Integer(n) => SqlValueView::Integer(*n),
            SqlValue::Text(t) => SqlValueView::Text(t@),
        }
    }
}

/// The views of a sequence of parameters.
pub open spec fn sql_views(v: Seq<SqlValue>) -> Seq<SqlValueView> {
    v.map_values(|x: SqlValue| x@)
}

/// A statement handed to SQLite: its text and its parameters.
pub struct SqlCall {
    pub sql: Seq<char>,
    pub params: Seq<SqlValueView>,
}

/// The statement `sql` with the parameters `params`.
pub open spec fn sql_call(sql: Seq<char>, params: Seq<SqlValueView>) -> SqlCall {
    SqlCall { sql, params }
}

/// Whether a run that hands the statements `cs` to SQLite in turn, and
/// stops at the first error, took the statements handed so far from
/// `before` to `after`: all of them where it succeeded (`ok`), else a
/// first part of them, the failed one included.
pub open spec fn handed(before: Seq<SqlCall>, after: Seq<SqlCall>, cs: Seq<SqlCall>, ok: bool) -> bool {
    if ok {
        after == before + cs
    } else {
        exists|k: int| 1 <= k <= cs.len() && after == before + cs.take(k)
    }
}

/// `Connection::open`: opens (or creates) the database file at `path`.
#[verifier::external_body]
pub(crate) fn open_connection(path: &str) -> (r: Result<rusqlite::Connection, rusqlite::Error>) {
    rusqlite::Connection::open(path)
}

/// `Connection::open_in_memory`: a new database that lives in memory.
#[verifier::external_body]
pub(crate) fn open_memory_connection() -> (r: Result<rusqlite::Connection, rusqlite::Error>) {
    rusqlite::Connection::open_in_memory()
}

/// `Connection::execute_batch`: runs the statements of `sql` in turn.
#[verifier::external_body]
pub(crate) fn execute_batch(conn: &rusqlite::Connection, sql: &str) -> (r: Result<
    (),
    rusqlite::Error,
>) {
    conn.execute_batch(sql)
}

/// `Connection::execute`: runs the statement `sql` with the parameters
/// `params` (`?1` is the first) and gives the number of rows it changed.
#[verifier::external_body]
pub(crate) fn execute(conn: &rusqlite::Connection, sql: &str, params: &[SqlValue]) -> (r: Result<
    usize,
    rusqlite::Error,
>) {
    conn.execute(
        sql,
        rusqlite::params_from_iter(
            params.iter().map(
                |v| match v {
                    SqlValue::Null => rusqlite::types::Value::Null,
                    SqlValue::Integer(n) => rusqlite::types::Value::Integer(*n),
                    SqlValue::Text(t) => rusqlite::types::Value::Text(t.clone()),
                },
            ),
        ),
    )
}

/// `Connection::last_insert_rowid`: the row id of the last row inserted
/// on this connection.
#[verifier::external_body]
pub(crate) fn last_insert_rowid(conn: &rusqlite::Connection) -> (r: i64) {
    conn.last_insert_rowid()
}

/// `Statement::query_map` on the statement `sql` prepared with
/// `Connection::prepare`: the rows of its result for `params`, each read by
/// `read`, in the order SQLite gives them; the first error stops it. Each
/// value returned is what `read` made of some row.
#[verifier::external_body]
pub(crate) fn query_rows<T, F: Fn(&rusqlite::Row) -> Result<T, rusqlite::Error>>(
    conn: &rusqlite::Connection,
    sql: &str,
    params: &[SqlValue],
    read: F,
) -> (r: Result<Vec<T>, rusqlite::Error>)
    ensures
        r matches Ok(v) ==> forall|i: int|
            0 <= i < v.len() ==> exists|row: &rusqlite::Row| read.ensures((row,), Ok(#[trigger] v[i])),
{
    let mut stmt = conn.prepare(sql)?;
    let values = params.iter().map(
        |v| match v {
            SqlValue::Null => rusqlite::types::Value::Null,
            SqlValue::Integer(n) => rusqlite::types::Value::Integer(*n),
            SqlValue::Text(t) => rusqlite::types::Value::Text(t.clone()),
        },
    );
    let rows = stmt.query_map(rusqlite::params_from_iter(values), read)?;
    rows.collect()
}

/// `Connection::query_row`: the first row of the result of `sql` for
/// `params`, read by `read`; `QueryReturnedNoRows` when there is none. The
/// value returned is what `read` made of some row.
#[verifier::external_body]
pub(crate) fn query_row<T, F: Fn(&rusqlite::Row) -> Result<T, rusqlite::Error>>(
    conn: &rusqlite::Connection,
    sql: &str,
    params: &[SqlValue],
    read: F,
) -> (r: Result<T, rusqlite::Error>)
    ensures
        r matches Ok(v) ==> exists|row: &rusqlite::Row| #[trigger] read.ensures((row,), Ok(v)),
{
    let values = params.iter().map(
        |v| match v {
            SqlValue::Null => rusqlite::types::Value::Null,
            SqlValue::Integer(n) => rusqlite::types::Value::Integer(*n),
            SqlValue::Text(t) => rusqlite::types::Value::Text(t.clone()),
        },
    );
    conn.query_row(sql, rusqlite::params_from_iter(values), read)
}

/// `Row::get` of an integer column.
#[verifier::external_body]
pub(crate) fn column_i64(row: &rusqlite::Row, i: usize) -> (r: Result<i64, rusqlite::Error>) {
    row.get(i)
}

/// `Row::get` of an integer column that may be `NULL`.
#[verifier::external_body]
pub(crate) fn column_opt_i64(row: &rusqlite::Row, i: usize) -> (r: Result<
    Option<i64>,
    rusqlite::Error,
>) {
    row.get(i)
}

/// `Row::get` of a text column.
#[verifier::external_body]
pub(crate) fn column_text(row: &rusqlite::Row, i: usize) -> (r: Result<String, rusqlite::Error>) {
    row.get(i)
}

/// `Row::get` of a text column that may be `NULL`.
#[verifier::external_body]
pub(crate) fn column_opt_text(row: &rusqlite::Row, i: usize) -> (r: Result<
    Option<String>,
    rusqlite::Error,
>) {
    row.get(i)
}

/// Whether `e` is `rusqlite::Error::QueryReturnedNoRows`, the error of a
/// query for one row that found none.
#[verifier::external_body]
pub(crate) fn is_no_rows(e: &rusqlite::Error) -> (r: bool) {
    match e {
        rusqlite::Error::QueryReturnedNoRows => true,
        _ => false,
    }
}

} // verus!
