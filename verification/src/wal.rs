//! The write-ahead log: each write operation on a real file is recorded
//! before it runs and marked when it completes or fails, so that pending
//! operations can be found again after a crash.
use vstd::prelude::*;
use crate::db::SqlValue;
use crate::db::SqlValueView;
use crate::db::SqlCall;
use crate::db::sql_call;
use crate::db::column_i64;
use crate::db::column_opt_i64;
use crate::db::column_opt_text;
use crate::db::column_text;
use crate::db::execute;
use crate::db::execute_batch;
use crate::db::last_insert_rowid;
use crate::db::open_connection;
use crate::db::open_memory_connection;
use crate::db::query_rows;
use crate::db::sql_views;
use crate::errors::StorageError;
use crate::query::utc_now_timestamp;
use crate::strings::chars_eq_str;
use crate::strings::chars_of;
use crate::types::FileOperation;
use crate::types::FileOperationView;
use crate::types::OperationStatus;
use crate::types::WalEntry;
use crate::types::WalEntryId;

verus! {

/// The name under which an operation's kind is recorded.
pub open spec fn op_name(op: FileOperationView) -> Seq<char> {
    match op {
        FileOperationView::Move { .. } => "move"@,
        FileOperationView::Copy { .. } => "copy"@,
        FileOperationView::Delete { .. } => "delete"@,
        FileOperationView::Write { .. } => "write"@,
    }
}

/// The path recorded as an operation's source: the moved or copied file,
/// or the deleted or written one.
pub open spec fn op_source(op: FileOperationView) -> Seq<char> {
    match op {
        FileOperationView::Move { source, .. } => source,
        FileOperationView::Copy { source, .. } => source,
        FileOperationView::Delete { path } => path,
        FileOperationView::Write { path, .. } => path,
    }
}

/// The path recorded as an operation's destination, for a move or a copy.
pub open spec fn op_dest(op: FileOperationView) -> Option<Seq<char>> {
    match op {
        FileOperationView::Move { dest, .. } => Some(dest),
        FileOperationView::Copy { dest, .. } => Some(dest),
        _ => None,
    }
}

/// The operation read back from a record of kind `name`: the data of a
/// write is not recorded and reads back empty, a missing destination reads
/// as the empty path, and an unknown kind reads as a delete of the source.
pub open spec fn recorded_operation(
    name: Seq<char>,
    source: Seq<char>,
    dest: Option<Seq<char>>,
) -> FileOperationView {
    let d = match dest {
        Some(d) => d,
        None => seq![],
    };
    if name == "move"@ {
        FileOperationView::Move { source, dest: d }
    } else if name == "copy"@ {
        FileOperationView::Copy { source, dest: d }
    } else if name == "delete"@ {
        FileOperationView::Delete { path: source }
    } else if name == "write"@ {
        FileOperationView::Write { path: source, data: seq![] }
    } else {
        FileOperationView::Delete { path: source }
    }
}

/// An operation without the data of a write.
pub open spec fn without_data(op: FileOperationView) -> FileOperationView {
    match op {
        FileOperationView::Write { path, .. } => FileOperationView::Write { path, data: seq![] },
        _ => op,
    }
}

/// Reading back the record of an operation gives the operation, less the
/// data of a write.
pub proof fn lemma_record_round_trip(op: FileOperationView)
    ensures
        recorded_operation(op_name(op), op_source(op), op_dest(op)) == without_data(op),
{
    reveal_strlit("move");
    reveal_strlit("copy");
    reveal_strlit("delete");
    reveal_strlit("write");
    assert("move"@.len() == 4 && "move"@[0] == 'm');
    assert("copy"@.len() == 4 && "copy"@[0] == 'c');
    assert("delete"@.len() == 6 && "delete"@[0] == 'd');
    assert("write"@.len() == 5 && "write"@[0] == 'w');
}

/// The parameters with which an operation is recorded at time `now`: its
/// kind, its source, its destination (`NULL` for none) and the time.
pub open spec fn log_params(op: FileOperationView, now: i64) -> Seq<SqlValueView> {
    seq![
        SqlValueView::Text(op_name(op)),
        SqlValueView::Text(op_source(op)),
        match op_dest(op) {
            Some(d) => SqlValueView::Text(d),
            None => SqlValueView::Null,
        },
        SqlValueView::Integer(now),
    ]
}

/// The record of `op` at time `now`, as statement parameters.
pub fn operation_params(op: &FileOperation, now: i64) -> (r: Vec<SqlValue>)
    ensures
        sql_views(r@) == log_params(op@, now),
{
    let (name, source, dest): (&str, String, SqlValue) = match op {
        FileOperation::Move { source, dest } => ("move", source.clone(), SqlValue::Text(dest.clone())),
        FileOperation::Copy { source, dest } => ("copy", source.clone(), SqlValue::Text(dest.clone())),
        FileOperation::Delete { path } => ("delete", path.clone(), SqlValue::Null),
        FileOperation::Write { path, .. } => ("write", path.clone(), SqlValue::Null),
    };
    let r = vec![
        SqlValue::Text(name.to_string()),
        SqlValue::Text(source),
        dest,
        SqlValue::Integer(now),
    ];
    assert(sql_views(r@) =~= log_params(op@, now));
    r
}

/// The operation read back from a record of kind `name`.
pub fn operation_from_record(name: &str, source: String, dest: Option<String>) -> (r: FileOperation)
    ensures
        r@ == recorded_operation(
            name@,
            source@,
            match dest {
                Some(d) => Some(d@),
                None => None,
            },
        ),
{
    let c = chars_of(name);
    let d = match dest {
        Some(d) => d,
        None => String::new(),
    };
    if chars_eq_str(&c, "move") {
        FileOperation::Move { source, dest: d }
    } else if chars_eq_str(&c, "copy") {
        FileOperation::Copy { source, dest: d }
    } else if chars_eq_str(&c, "delete") {
        FileOperation::Delete { path: source }
    } else if chars_eq_str(&c, "write") {
        let r = FileOperation::Write { path: source, data: Vec::new() };
        assert(r@ == recorded_operation(
            name@,
            source@,
            match dest {
                Some(d) => Some(d@),
                None => None,
            },
        ));
        r
    } else {
        FileOperation::Delete { path: source }
    }
}

/// An operation that carries no data: anything but a write with data.
pub open spec fn no_write_data(op: FileOperationView) -> bool {
    op matches FileOperationView::Write { data, .. } ==> data.len() == 0
}

/// Reads a row of `id, operation, source_path, dest_path, status,
/// created_at, completed_at` as a log entry.
fn read_wal_row(row: &rusqlite::Row) -> (r: Result<WalEntry, rusqlite::Error>)
    ensures
        r matches Ok(e) ==> no_write_data(e.operation@),
{
    let id = column_i64(row, 0)?;
    let name = column_text(row, 1)?;
    let source = column_text(row, 2)?;
    let dest = column_opt_text(row, 3)?;
    let status = column_text(row, 4)?;
    let operation = operation_from_record(name.as_str(), source, dest);
    let created_at = column_i64(row, 5)?;
    let completed_at = column_opt_i64(row, 6)?;
    Ok(
        WalEntry {
            id,
            operation,
            status: OperationStatus::from_str(status.as_str()),
            created_at,
            completed_at,
        },
    )
}

/// The table of the log and its index.
pub const WAL_SCHEMA: &'static str = "
            PRAGMA journal_mode = WAL;
            PRAGMA synchronous = FULL;

            CREATE TABLE IF NOT EXISTS wal_entries (
                id INTEGER PRIMARY KEY AUTOINCREMENT,
                operation TEXT NOT NULL,
                source_path TEXT NOT NULL,
                dest_path TEXT,
                status TEXT NOT NULL DEFAULT 'pending',
                created_at INTEGER NOT NULL,
                completed_at INTEGER
            );

            CREATE INDEX IF NOT EXISTS idx_wal_status ON wal_entries(status);
        ";

/// Records an operation as pending.
pub const LOG_OPERATION_SQL: &'static str = "INSERT INTO wal_entries (operation, source_path, dest_path, status, created_at) VALUES (?1, ?2, ?3, 'pending', ?4)";

/// Marks the entry `?1` as executing.
pub const MARK_EXECUTING_SQL: &'static str = "UPDATE wal_entries SET status='executing' WHERE id=?1";

/// Marks the entry `?2` as completed at the time `?1`.
pub const MARK_COMPLETED_SQL: &'static str = "UPDATE wal_entries SET status='completed', completed_at=?1 WHERE id=?2";

/// Marks the entry `?2` as failed at the time `?1`.
pub const MARK_FAILED_SQL: &'static str = "UPDATE wal_entries SET status='failed', completed_at=?1 WHERE id=?2";

/// The entries that are pending or executing, oldest first.
pub const RECOVER_SQL: &'static str = "SELECT id, operation, source_path, dest_path, status, created_at, completed_at FROM wal_entries WHERE status IN ('pending', 'executing') ORDER BY id ASC";

/// Removes the completed entries that completed before the time `?1`.
pub const CLEANUP_SQL: &'static str = "DELETE FROM wal_entries WHERE status='completed' AND completed_at < ?1";

/// The parameters with which the entry `id` is marked at time `now`.
pub open spec fn mark_params(now: i64, id: WalEntryId) -> Seq<SqlValueView> {
    seq![SqlValueView::Integer(now), SqlValueView::Integer(id)]
}

/// The log, kept in a SQLite table. Besides the connection, it keeps (as
/// ghost state) the statements its methods have handed to SQLite, in
/// order.
pub struct WalStore {
    conn: rusqlite::Connection,
    calls: Ghost<Seq<SqlCall>>,
}

/// The current time as the log records it: 0 where the clock cannot be
/// read.
fn log_time() -> i64 {
    match utc_now_timestamp() {
        Some(t) => t,
        None => 0,
    }
}

impl WalStore {
    /// The statements the log has handed to SQLite, oldest first.
    pub closed spec fn calls(&self) -> Seq<SqlCall> {
        self.calls@
    }

    /// Hands `sql` with `params` to SQLite.
    fn run(&mut self, sql: &str, params: &Vec<SqlValue>) -> (r: Result<usize, rusqlite::Error>)
        ensures
            final(self).calls() == old(self).calls().push(sql_call(sql@, sql_views(params@))),
    {
        let r = execute(&self.conn, sql, params.as_slice());
        self.calls = Ghost(self.calls@.push(sql_call(sql@, sql_views(params@))));
        r
    }

    /// The log in the database file at `path`, created where missing.
    pub fn new(path: &str) -> (r: Result<WalStore, StorageError>)
        ensures
            r matches Err(e) ==> e is Sqlite,
            r matches Ok(s) ==> s.calls() == seq![sql_call(WAL_SCHEMA@, seq![])],
    {
        match open_connection(path) {
            Ok(conn) => WalStore::initialize(conn),
            Err(e) => Err(StorageError::Sqlite(e)),
        }
    }

    /// A log in a database that lives in memory.
    pub fn in_memory() -> (r: Result<WalStore, StorageError>)
        ensures
            r matches Err(e) ==> e is Sqlite,
            r matches Ok(s) ==> s.calls() == seq![sql_call(WAL_SCHEMA@, seq![])],
    {
        match open_memory_connection() {
            Ok(conn) => WalStore::initialize(conn),
            Err(e) => Err(StorageError::Sqlite(e)),
        }
    }

    fn initialize(conn: rusqlite::Connection) -> (r: Result<WalStore, StorageError>)
        ensures
            r matches Err(e) ==> e is Sqlite,
            r matches Ok(s) ==> s.calls() == seq![sql_call(WAL_SCHEMA@, seq![])],
    {
        match execute_batch(&conn, WAL_SCHEMA) {
            Ok(()) => {
                let calls: Ghost<Seq<SqlCall>> = Ghost(
                    Seq::empty().push(sql_call(WAL_SCHEMA@, Seq::empty())),
                );
                Ok(WalStore { conn, calls })
            },
            Err(e) => Err(StorageError::Sqlite(e)),
        }
    }

    /// Records `op` as pending, at the current time (0 where the clock
    /// cannot be read), and gives the id of its entry.
    pub fn log_operation(&mut self, op: &FileOperation) -> (r: Result<WalEntryId, StorageError>)
        ensures
            r matches Err(e) ==> e is Sqlite,
            exists|now: i64|
                final(self).calls() == old(self).calls().push(
                    sql_call(LOG_OPERATION_SQL@, #[trigger] log_params(op@, now)),
                ),
    {
        let now = log_time();
        let params = operation_params(op, now);
        match self.run(LOG_OPERATION_SQL, &params) {
            Ok(_) => Ok(last_insert_rowid(&self.conn)),
            Err(e) => Err(StorageError::Sqlite(e)),
        }
    }

    /// Marks the entry `id` as executing.
    pub fn mark_executing(&mut self, id: WalEntryId) -> (r: Result<(), StorageError>)
        ensures
            r matches Err(e) ==> e is Sqlite,
            final(self).calls() == old(self).calls().push(
                sql_call(MARK_EXECUTING_SQL@, seq![SqlValueView::Integer(id)]),
            ),
    {
        let params = vec![SqlValue::Integer(id)];
        assert(sql_views(params@) =~= seq![SqlValueView::Integer(id)]);
        match self.run(MARK_EXECUTING_SQL, &params) {
            Ok(_) => Ok(()),
            Err(e) => Err(StorageError::Sqlite(e)),
        }
    }

    /// Marks the entry `id` as completed, now (0 where the clock cannot be
    /// read).
    pub fn mark_completed(&mut self, id: WalEntryId) -> (r: Result<(), StorageError>)
        ensures
            r matches Err(e) ==> e is Sqlite,
            exists|now: i64|
                final(self).calls() == old(self).calls().push(
                    sql_call(
                        MARK_COMPLETED_SQL@,
                        #[trigger] mark_params(now, id),
                    ),
                ),
    {
        let now = log_time();
        let params = vec![SqlValue::Integer(now), SqlValue::Integer(id)];
        assert(sql_views(params@) =~= mark_params(now, id));
        match self.run(MARK_COMPLETED_SQL, &params) {
            Ok(_) => Ok(()),
            Err(e) => Err(StorageError::Sqlite(e)),
        }
    }

    /// Marks the entry `id` as failed, now (0 where the clock cannot be
    /// read).
    pub fn mark_failed(&mut self, id: WalEntryId) -> (r: Result<(), StorageError>)
        ensures
            r matches Err(e) ==> e is Sqlite,
            exists|now: i64|
                final(self).calls() == old(self).calls().push(
                    sql_call(
                        MARK_FAILED_SQL@,
                        #[trigger] mark_params(now, id),
                    ),
                ),
    {
        let now = log_time();
        let params = vec![SqlValue::Integer(now), SqlValue::Integer(id)];
        assert(sql_views(params@) =~= mark_params(now, id));
        match self.run(MARK_FAILED_SQL, &params) {
            Ok(_) => Ok(()),
            Err(e) => Err(StorageError::Sqlite(e)),
        }
    }

    /// The entries that are pending or executing, oldest first; the data
    /// of a write is not logged, so a write comes back without it.
    pub fn recover_pending(&mut self) -> (r: Result<Vec<WalEntry>, StorageError>)
        ensures
            r matches Err(e) ==> e is Sqlite,
            r matches Ok(entries) ==> forall|i: int|
                0 <= i < entries.len() ==> no_write_data((#[trigger] entries[i]).operation@),
            final(self).calls() == old(self).calls().push(sql_call(RECOVER_SQL@, seq![])),
    {
        let params: Vec<SqlValue> = Vec::new();
        assert(sql_views(params@) =~= Seq::<SqlValueView>::empty());
        let found = query_rows(&self.conn, RECOVER_SQL, params.as_slice(), read_wal_row);
        self.calls = Ghost(self.calls@.push(sql_call(RECOVER_SQL@, sql_views(params@))));
        match found {
            Ok(entries) => {
                assert forall|i: int| 0 <= i < entries.len() implies no_write_data(
                    (#[trigger] entries[i]).operation@,
                ) by {
                    let row = choose|row: &rusqlite::Row|
                        #[trigger] read_wal_row.ensures((row,), Ok::<WalEntry, rusqlite::Error>(entries[i]));
                }
                Ok(entries)
            },
            Err(e) => Err(StorageError::Sqlite(e)),
        }
    }

    /// Removes the completed entries that completed before
    /// `before_timestamp`, and gives how many it removed.
    pub fn cleanup_completed(&mut self, before_timestamp: i64) -> (r: Result<usize, StorageError>)
        ensures
            r matches Err(e) ==> e is Sqlite,
            final(self).calls() == old(self).calls().push(
                sql_call(CLEANUP_SQL@, seq![SqlValueView::Integer(before_timestamp)]),
            ),
    {
        let params = vec![SqlValue::Integer(before_timestamp)];
        assert(sql_views(params@) =~= seq![SqlValueView::Integer(before_timestamp)]);
        match self.run(CLEANUP_SQL, &params) {
            Ok(n) => Ok(n),
            Err(e) => Err(StorageError::Sqlite(e)),
        }
    }
}

} // verus!
