//! The metadata store: indexed files, their chunks, the full-text index
//! and the access rules, kept in SQLite; and the turning of metadata
//! filters into a query.
use vstd::prelude::*;
use crate::db::SqlValue;
use crate::db::SqlValueView;
use crate::db::SqlCall;
use crate::db::handed;
use crate::db::sql_call;
use crate::db::column_i64;
use crate::db::column_opt_i64;
use crate::db::column_opt_text;
use crate::db::column_text;
use crate::db::execute;
use crate::db::execute_batch;
use crate::db::is_no_rows;
use crate::db::last_insert_rowid;
use crate::db::open_connection;
use crate::db::open_memory_connection;
use crate::db::query_row;
use crate::db::query_rows;
use crate::db::sql_views;
use crate::errors::StorageError;
use crate::numbers::i64_text;
use crate::numbers::int_text;
use crate::numbers::nat_text;
use crate::numbers::u128_text;
use crate::strings::chars_of;
use crate::strings::extend_chars;
use crate::strings::join;
use crate::strings::join_chars;
use crate::strings::string_of;
use crate::strings::string_views;
use crate::strings::views;
use crate::types::AclRule;
use crate::types::Chunk;
use crate::types::ChunkId;
use crate::types::ChunkType;
use crate::types::FileId;
use crate::types::FileMeta;
use crate::types::MetadataFilter;
use crate::types::Permission;
use crate::types::chunk_type_name;
use crate::types::permission_name;

verus! {

// ---------------------------------------------------------------------------
// Filters
// ---------------------------------------------------------------------------
/// The conditions of a query and its parameters, after some filters.
pub struct FilterQuery {
    pub conditions: Seq<Seq<char>>,
    pub params: Seq<SqlValueView>,
}

/// The placeholder of the `n`-th parameter: `?n`.
pub open spec fn placeholder(n: int) -> Seq<char> {
    seq!['?'] + nat_text(n as nat)
}

/// The placeholders of `k` parameters from the `first`-th on.
pub open spec fn placeholder_list(first: int, k: int) -> Seq<Seq<char>> {
    Seq::new(k as nat, |i: int| placeholder(first + i))
}

/// `column IN (?first, ...)` over `k` placeholders.
pub open spec fn in_condition(column: Seq<char>, first: int, k: int) -> Seq<char> {
    column + " IN ("@ + join(placeholder_list(first, k), ","@) + ")"@
}

/// Text parameters.
pub open spec fn text_params(v: Seq<Seq<char>>) -> Seq<SqlValueView> {
    v.map_values(|t: Seq<char>| SqlValueView::Text(t))
}

/// The query after the filter `f` adds its conditions and parameters; the
/// placeholders go on from the parameters so far.
pub open spec fn filter_step(q: FilterQuery, f: MetadataFilter) -> FilterQuery {
    let n = q.params.len() as int;
    match f {
        MetadataFilter::DateRange { start, end } => FilterQuery {
            conditions: q.conditions.push(
                "modified_at >= "@ + placeholder(n + 1) + " AND modified_at <= "@ + placeholder(
                    n + 2,
                ),
            ),
            params: q.params.push(SqlValueView::Integer(start)).push(SqlValueView::Integer(end)),
        },
        MetadataFilter::Extension(exts) => FilterQuery {
            conditions: q.conditions.push(in_condition("extension"@, n + 1, exts@.len() as int)),
            params: q.params + text_params(string_views(exts@)),
        },
        MetadataFilter::Size { min, max } => {
            let q1 = match min {
                Some(m) => FilterQuery {
                    conditions: q.conditions.push("size >= "@ + placeholder(n + 1)),
                    params: q.params.push(SqlValueView::Integer(m as i64)),
                },
                None => q,
            };
            match max {
                Some(m) => FilterQuery {
                    conditions: q1.conditions.push(
                        "size <= "@ + placeholder(q1.params.len() + 1int),
                    ),
                    params: q1.params.push(SqlValueView::Integer(m as i64)),
                },
                None => q1,
            }
        },
        MetadataFilter::MimeType(types) => FilterQuery {
            conditions: q.conditions.push(in_condition("mime_type"@, n + 1, types@.len() as int)),
            params: q.params + text_params(string_views(types@)),
        },
        MetadataFilter::PathPrefix(prefix) => FilterQuery {
            conditions: q.conditions.push("path LIKE "@ + placeholder(n + 1)),
            params: q.params.push(SqlValueView::Text(prefix@ + "%"@)),
        },
    }
}

/// The query after the first `k` of `fs`.
pub open spec fn filter_fold(fs: Seq<MetadataFilter>, k: int) -> FilterQuery
    decreases k,
{
    if k <= 0 {
        FilterQuery { conditions: seq![], params: seq![] }
    } else {
        filter_step(filter_fold(fs, k - 1), fs[k - 1])
    }
}

/// The query for the ids of the files that meet all of `fs`.
pub open spec fn filter_sql(fs: Seq<MetadataFilter>) -> Seq<char> {
    let q = filter_fold(fs, fs.len() as int);
    "SELECT id FROM files "@ + if q.conditions.len() == 0 {
        seq![]
    } else {
        "WHERE "@ + join(q.conditions, " AND "@)
    }
}

/// The parameters of the query for `fs`.
pub open spec fn filter_params(fs: Seq<MetadataFilter>) -> Seq<SqlValueView> {
    filter_fold(fs, fs.len() as int).params
}

fn placeholder_text(n: u128) -> (r: Vec<char>)
    ensures
        r@ == placeholder(n as int),
{
    let mut r = vec!['?'];
    let digits = u128_text(n);
    extend_chars(&mut r, &digits);
    assert(r@ =~= placeholder(n as int));
    r
}

fn in_condition_text(column: &str, first: u128, k: usize) -> (r: Vec<char>)
    requires
        first + k <= u128::MAX,
    ensures
        r@ == in_condition(column@, first as int, k as int),
{
    let mut list: Vec<Vec<char>> = Vec::new();
    let mut j: usize = 0;
    while j < k
        invariant
            j <= k,
            first + k <= u128::MAX,
            views(list@) =~= placeholder_list(first as int, j as int),
        decreases k - j,
    {
        let ghost before = views(list@);
        let p = placeholder_text(first + j as u128);
        list.push(p);
        assert(views(list@) =~= before.push(p@));
        assert(placeholder_list(first as int, j + 1) =~= placeholder_list(first as int, j as int).push(
            placeholder(first + j),
        ));
        j += 1;
    }
    let mut r = chars_of(column);
    extend_chars(&mut r, &chars_of(" IN ("));
    extend_chars(&mut r, &join_chars(&list, &chars_of(",")));
    extend_chars(&mut r, &chars_of(")"));
    assert(r@ =~= in_condition(column@, first as int, k as int));
    r
}

fn push_texts(params: &mut Vec<SqlValue>, texts: &Vec<String>)
    ensures
        sql_views(final(params)@) == sql_views(old(params)@) + text_params(string_views(texts@)),
{
    let mut i: usize = 0;
    while i < texts.len()
        invariant
            i <= texts.len(),
            sql_views(params@) =~= sql_views(old(params)@) + text_params(
                string_views(texts@).take(i as int),
            ),
        decreases texts.len() - i,
    {
        let ghost before = sql_views(params@);
        params.push(SqlValue::Text(texts[i].clone()));
        assert(sql_views(params@) =~= before.push(SqlValueView::Text(texts@[i as int]@)));
        assert(string_views(texts@).take(i + 1) =~= string_views(texts@).take(i as int).push(
            texts@[i as int]@,
        ));
        i += 1;
    }
    assert(string_views(texts@).take(texts@.len() as int) =~= string_views(texts@));
}

/// The query for the ids of the files that meet all of `filters`, with its
/// parameters: each filter adds a condition, joined by `AND`, and its
/// values as parameters numbered in order.
pub fn filter_query(filters: &[MetadataFilter]) -> (r: (String, Vec<SqlValue>))
    ensures
        r.0@ == filter_sql(filters@),
        sql_views(r.1@) == filter_params(filters@),
{
    let ghost fs = filters@;
    let mut conditions: Vec<Vec<char>> = Vec::new();
    let mut params: Vec<SqlValue> = Vec::new();
    let mut i: usize = 0;
    while i < filters.len()
        invariant
            i <= filters.len(),
            fs == filters@,
            views(conditions@) == filter_fold(fs, i as int).conditions,
            sql_views(params@) == filter_fold(fs, i as int).params,
        decreases filters.len() - i,
    {
        let ghost q = filter_fold(fs, i as int);
        let ghost before_conditions = views(conditions@);
        let ghost before_params = sql_views(params@);
        let n = params.len() as u128;
        match &filters[i] {
            MetadataFilter::DateRange { start, end } => {
                let mut c = chars_of("modified_at >= ");
                extend_chars(&mut c, &placeholder_text(n + 1));
                extend_chars(&mut c, &chars_of(" AND modified_at <= "));
                extend_chars(&mut c, &placeholder_text(n + 2));
                conditions.push(c);
                params.push(SqlValue::Integer(*start));
                params.push(SqlValue::Integer(*end));
                assert(views(conditions@) =~= filter_step(q, fs[i as int]).conditions);
                assert(sql_views(params@) =~= filter_step(q, fs[i as int]).params);
            },
            MetadataFilter::Extension(exts) => {
                conditions.push(in_condition_text("extension", n + 1, exts.len()));
                push_texts(&mut params, exts);
                assert(views(conditions@) =~= filter_step(q, fs[i as int]).conditions);
            },
            MetadataFilter::Size { min, max } => {
                if let Some(m) = min {
                    let mut c = chars_of("size >= ");
                    extend_chars(&mut c, &placeholder_text(n + 1));
                    conditions.push(c);
                    params.push(SqlValue::Integer(*m as i64));
                }
                let ghost mid_conditions = views(conditions@);
                let ghost mid_params = sql_views(params@);
                if let Some(m) = max {
                    let k = params.len() as u128;
                    let mut c = chars_of("size <= ");
                    extend_chars(&mut c, &placeholder_text(k + 1));
                    conditions.push(c);
                    params.push(SqlValue::Integer(*m as i64));
                    assert(views(conditions@) =~= mid_conditions.push(c@));
                    assert(sql_views(params@) =~= mid_params.push(SqlValueView::Integer(*m as i64)));
                }
                assert(views(conditions@) =~= filter_step(q, fs[i as int]).conditions);
                assert(sql_views(params@) =~= filter_step(q, fs[i as int]).params);
            },
            MetadataFilter::MimeType(types) => {
                conditions.push(in_condition_text("mime_type", n + 1, types.len()));
                push_texts(&mut params, types);
                assert(views(conditions@) =~= filter_step(q, fs[i as int]).conditions);
            },
            MetadataFilter::PathPrefix(prefix) => {
                let mut c = chars_of("path LIKE ");
                extend_chars(&mut c, &placeholder_text(n + 1));
                conditions.push(c);
                let mut p = chars_of(prefix.as_str());
                p.push('%');
                params.push(SqlValue::Text(string_of(&p)));
                assert(p@ =~= prefix@ + "%"@) by {
                    reveal_strlit("%");
                }
                assert(views(conditions@) =~= filter_step(q, fs[i as int]).conditions);
                assert(sql_views(params@) =~= filter_step(q, fs[i as int]).params);
            },
        }
        i += 1;
    }
    let mut sql = chars_of("SELECT id FROM files ");
    if conditions.len() > 0 {
        extend_chars(&mut sql, &chars_of("WHERE "));
        extend_chars(&mut sql, &join_chars(&conditions, &chars_of(" AND ")));
    }
    assert(fs.len() == filters.len());
    assert(sql@ =~= filter_sql(fs));
    (string_of(&sql), params)
}

/// `s` with each `'"'` doubled.
pub open spec fn double_quotes(s: Seq<char>) -> Seq<char>
    decreases s.len(),
{
    if s.len() == 0 {
        seq![]
    } else {
        double_quotes(s.drop_last()) + if s.last() == '"' {
            seq!['"', '"']
        } else {
            seq![s.last()]
        }
    }
}

/// The full-text query that matches `query` as one phrase: in double
/// quotes, with each double quote inside doubled.
pub fn fts_phrase(query: &str) -> (r: String)
    ensures
        r@ == seq!['"'] + double_quotes(query@) + seq!['"'],
{
    let q = chars_of(query);
    let mut out: Vec<char> = vec!['"'];
    let mut i: usize = 0;
    while i < q.len()
        invariant
            i <= q.len(),
            q@ == query@,
            out@ == seq!['"'] + double_quotes(q@.take(i as int)),
        decreases q.len() - i,
    {
        assert(q@.take(i + 1).drop_last() =~= q@.take(i as int));
        if q[i] == '"' {
            out.push('"');
            out.push('"');
        } else {
            out.push(q[i]);
        }
        assert(out@ =~= seq!['"'] + double_quotes(q@.take(i + 1)));
        i += 1;
    }
    assert(q@.take(q.len() as int) =~= q@);
    out.push('"');
    string_of(&out)
}

// ---------------------------------------------------------------------------
// Rows
// ---------------------------------------------------------------------------
/// The parameters under which a file's metadata is stored: path, name,
/// extension, size (as a signed integer), hash, the three times, and MIME
/// type.
pub open spec fn file_params(meta: FileMeta) -> Seq<SqlValueView> {
    seq![
        SqlValueView::Text(meta.path@),
        SqlValueView::Text(meta.name@),
        opt_text(meta.extension),
        SqlValueView::Integer(meta.size as i64),
        SqlValueView::Text(meta.hash@),
        SqlValueView::Integer(meta.created_at),
        SqlValueView::Integer(meta.modified_at),
        SqlValueView::Integer(meta.indexed_at),
        opt_text(meta.mime_type),
    ]
}

/// An optional text parameter: `NULL` for none.
pub open spec fn opt_text(s: Option<String>) -> SqlValueView {
    match s {
        Some(t) => SqlValueView::Text(t@),
        None => SqlValueView::Null,
    }
}

fn opt_text_value(s: &Option<String>) -> (r: SqlValue)
    ensures
        r@ == opt_text(*s),
{
    match s {
        Some(t) => SqlValue::Text(t.clone()),
        None => SqlValue::Null,
    }
}

/// The parameters under which `meta` is stored.
pub fn file_row_params(meta: &FileMeta) -> (r: Vec<SqlValue>)
    ensures
        sql_views(r@) == file_params(*meta),
{
    let r = vec![
        SqlValue::Text(meta.path.clone()),
        SqlValue::Text(meta.name.clone()),
        opt_text_value(&meta.extension),
        SqlValue::Integer(meta.size as i64),
        SqlValue::Text(meta.hash.clone()),
        SqlValue::Integer(meta.created_at),
        SqlValue::Integer(meta.modified_at),
        SqlValue::Integer(meta.indexed_at),
        opt_text_value(&meta.mime_type),
    ];
    assert(sql_views(r@) =~= file_params(*meta));
    r
}

/// An optional integer parameter: `NULL` for none.
pub open spec fn opt_integer(n: Option<usize>) -> SqlValueView {
    match n {
        Some(v) => SqlValueView::Integer(v as i64),
        None => SqlValueView::Null,
    }
}

fn opt_integer_value(n: Option<usize>) -> (r: SqlValue)
    ensures
        r@ == opt_integer(n),
{
    match n {
        Some(v) => SqlValue::Integer(v as i64),
        None => SqlValue::Null,
    }
}

/// The parameters under which a chunk is stored: its file, its index, its
/// parent chunk, its text, the name of its type and its lines.
pub open spec fn chunk_params(chunk: Chunk) -> Seq<SqlValueView> {
    seq![
        SqlValueView::Integer(chunk.file_id),
        SqlValueView::Integer(chunk.chunk_index as i64),
        match chunk.parent_chunk_id {
            Some(p) => SqlValueView::Integer(p),
            None => SqlValueView::Null,
        },
        SqlValueView::Text(chunk.content@),
        SqlValueView::Text(chunk_type_name(chunk.chunk_type)),
        opt_integer(chunk.start_line),
        opt_integer(chunk.end_line),
    ]
}

/// The parameters under which `chunk` is stored.
pub fn chunk_row_params(chunk: &Chunk) -> (r: Vec<SqlValue>)
    ensures
        sql_views(r@) == chunk_params(*chunk),
{
    let parent = match chunk.parent_chunk_id {
        Some(p) => SqlValue::Integer(p),
        None => SqlValue::Null,
    };
    let r = vec![
        SqlValue::Integer(chunk.file_id),
        SqlValue::Integer(chunk.chunk_index as i64),
        parent,
        SqlValue::Text(chunk.content.clone()),
        SqlValue::Text(chunk.chunk_type.as_str().to_string()),
        opt_integer_value(chunk.start_line),
        opt_integer_value(chunk.end_line),
    ];
    assert(sql_views(r@) =~= chunk_params(*chunk));
    r
}

/// Reads a row of `id, path, name, extension, size, hash, created_at,
/// modified_at, indexed_at, mime_type` as file metadata.
fn read_file_row(row: &rusqlite::Row) -> (r: Result<FileMeta, rusqlite::Error>)
    ensures
        r matches Ok(m) ==> m.id is Some,
{
    let id = column_i64(row, 0)?;
    let path = column_text(row, 1)?;
    let name = column_text(row, 2)?;
    let extension = column_opt_text(row, 3)?;
    let size = column_i64(row, 4)?;
    let hash = column_text(row, 5)?;
    let created_at = column_i64(row, 6)?;
    let modified_at = column_i64(row, 7)?;
    let indexed_at = column_i64(row, 8)?;
    let mime_type = column_opt_text(row, 9)?;
    Ok(
        FileMeta {
            id: Some(id),
            path,
            name,
            extension,
            size: size as u64,
            hash,
            created_at,
            modified_at,
            indexed_at,
            mime_type,
        },
    )
}

fn opt_usize(n: Option<i64>) -> (r: Option<usize>)
    ensures
        r == match n {
            Some(v) => Some(v as usize),
            None => None,
        },
{
    match n {
        Some(v) => Some(v as usize),
        None => None,
    }
}

/// Reads a row of `id, file_id, chunk_index, parent_chunk_id, content,
/// chunk_type, start_line, end_line` as a chunk.
fn read_chunk_row(row: &rusqlite::Row) -> (r: Result<Chunk, rusqlite::Error>)
    ensures
        r matches Ok(c) ==> c.id is Some && c.metadata@.len() == 0,
{
    let id = column_i64(row, 0)?;
    let file_id = column_i64(row, 1)?;
    let chunk_index = column_i64(row, 2)?;
    let parent_chunk_id = column_opt_i64(row, 3)?;
    let content = column_text(row, 4)?;
    let chunk_type = column_text(row, 5)?;
    let start_line = column_opt_i64(row, 6)?;
    let end_line = column_opt_i64(row, 7)?;
    Ok(
        Chunk {
            id: Some(id),
            file_id,
            chunk_index: chunk_index as usize,
            parent_chunk_id,
            content,
            chunk_type: ChunkType::from_str(chunk_type.as_str()),
            start_line: opt_usize(start_line),
            end_line: opt_usize(end_line),
            metadata: std::collections::HashMap::new(),
        },
    )
}

/// Reads a row of `id, pattern, permission, mount_point` as an access rule.
fn read_acl_row(row: &rusqlite::Row) -> (r: Result<AclRule, rusqlite::Error>)
    ensures
        r matches Ok(a) ==> a.id is Some,
{
    let id = column_i64(row, 0)?;
    let pattern = column_text(row, 1)?;
    let permission = column_text(row, 2)?;
    let mount_point = column_text(row, 3)?;
    Ok(
        AclRule {
            id: Some(id),
            pattern,
            permission: Permission::from_str(permission.as_str()),
            mount_point,
        },
    )
}

/// The message of a missing file id: `"file id: "` and the id.
pub open spec fn file_id_message(id: FileId) -> Seq<char> {
    "file id: "@ + int_text(id as int)
}

fn file_id_text(id: FileId) -> (r: String)
    ensures
        r@ == file_id_message(id),
{
    let mut c = chars_of("file id: ");
    extend_chars(&mut c, &chars_of(i64_text(id).as_str()));
    string_of(&c)
}

/// The outcome of updating the file `id`, given what the update statement
/// gave: no row changed means no such file.
pub fn update_outcome(id: FileId, changed: Result<usize, rusqlite::Error>) -> (r: Result<
    (),
    StorageError,
>)
    ensures
        match changed {
            Ok(n) => if n == 0 {
                r matches Err(StorageError::FileNotFound(m)) && m@ == file_id_message(id)
            } else {
                r is Ok
            },
            Err(e) => r matches Err(StorageError::Sqlite(e2)) && e2 == e,
        },
{
    match changed {
        Ok(n) => {
            if n == 0 {
                Err(StorageError::FileNotFound(file_id_text(id)))
            } else {
                Ok(())
            }
        },
        Err(e) => Err(StorageError::Sqlite(e)),
    }
}

/// The outcome of looking up a file's hash, given what the query gave: a
/// hash, nothing where no row was found, else the database error.
pub fn hash_outcome(found: Result<String, rusqlite::Error>) -> (r: Result<
    Option<String>,
    StorageError,
>)
    ensures
        match found {
            Ok(h) => r matches Ok(Some(h2)) && h2@ == h@,
            Err(e) => r matches Ok(None) || (r matches Err(StorageError::Sqlite(e2)) && e2 == e),
        },
{
    match found {
        Ok(h) => Ok(Some(h)),
        Err(e) => {
            if is_no_rows(&e) {
                Ok(None)
            } else {
                Err(StorageError::Sqlite(e))
            }
        },
    }
}

// ---------------------------------------------------------------------------
// The store
// ---------------------------------------------------------------------------
/// The tables, indexes and full-text index of the metadata store.
pub const STORE_SCHEMA: &'static str = "
            PRAGMA journal_mode = WAL;
            PRAGMA synchronous = NORMAL;
            PRAGMA foreign_keys = ON;

            CREATE TABLE IF NOT EXISTS files (
                id INTEGER PRIMARY KEY AUTOINCREMENT,
                path TEXT NOT NULL UNIQUE,
                name TEXT NOT NULL,
                extension TEXT,
                size INTEGER NOT NULL,
                hash TEXT NOT NULL,
                created_at INTEGER NOT NULL,
                modified_at INTEGER NOT NULL,
                indexed_at INTEGER NOT NULL,
                mime_type TEXT
            );

            CREATE INDEX IF NOT EXISTS idx_files_path ON files(path);
            CREATE INDEX IF NOT EXISTS idx_files_hash ON files(hash);
            CREATE INDEX IF NOT EXISTS idx_files_extension ON files(extension);
            CREATE INDEX IF NOT EXISTS idx_files_modified ON files(modified_at);

            CREATE VIRTUAL TABLE IF NOT EXISTS files_fts USING fts5(
                name, path, content,
                content_rowid='id'
            );

            CREATE TABLE IF NOT EXISTS chunks (
                id INTEGER PRIMARY KEY AUTOINCREMENT,
                file_id INTEGER NOT NULL REFERENCES files(id) ON DELETE CASCADE,
                chunk_index INTEGER NOT NULL,
                parent_chunk_id INTEGER REFERENCES chunks(id),
                content TEXT NOT NULL,
                chunk_type TEXT NOT NULL,
                start_line INTEGER,
                end_line INTEGER
            );

            CREATE INDEX IF NOT EXISTS idx_chunks_file ON chunks(file_id);

            CREATE TABLE IF NOT EXISTS acl_rules (
                id INTEGER PRIMARY KEY AUTOINCREMENT,
                pattern TEXT NOT NULL,
                permission TEXT NOT NULL,
                mount_point TEXT NOT NULL
            );
        ";

/// Stores a file's metadata.
pub const INSERT_FILE_SQL: &'static str = "INSERT INTO files (path, name, extension, size, hash, created_at, modified_at, indexed_at, mime_type) VALUES (?1, ?2, ?3, ?4, ?5, ?6, ?7, ?8, ?9)";

/// Replaces the metadata of the file `?10`.
pub const UPDATE_FILE_SQL: &'static str = "UPDATE files SET path=?1, name=?2, extension=?3, size=?4, hash=?5, created_at=?6, modified_at=?7, indexed_at=?8, mime_type=?9 WHERE id=?10";

/// Removes the file `?1`.
pub const DELETE_FILE_SQL: &'static str = "DELETE FROM files WHERE id=?1";

/// Removes the full-text entry of the file `?1`.
pub const DELETE_FTS_SQL: &'static str = "DELETE FROM files_fts WHERE rowid=?1";

/// Records a file's name, path and text for full-text search.
pub const INSERT_FTS_SQL: &'static str = "INSERT INTO files_fts (rowid, name, path, content) VALUES (?1, ?2, ?3, ?4)";

/// The metadata of the file `?1`.
pub const SELECT_FILE_BY_ID_SQL: &'static str = "SELECT id, path, name, extension, size, hash, created_at, modified_at, indexed_at, mime_type FROM files WHERE id=?1";

/// The metadata of the file at the path `?1`.
pub const SELECT_FILE_BY_PATH_SQL: &'static str = "SELECT id, path, name, extension, size, hash, created_at, modified_at, indexed_at, mime_type FROM files WHERE path=?1";

/// The stored hash of the file at the path `?1`.
pub const SELECT_HASH_SQL: &'static str = "SELECT hash FROM files WHERE path=?1";

/// The metadata of every stored file.
pub const SELECT_ALL_FILES_SQL: &'static str = "SELECT id, path, name, extension, size, hash, created_at, modified_at, indexed_at, mime_type FROM files";

/// Stores a chunk.
pub const INSERT_CHUNK_SQL: &'static str = "INSERT INTO chunks (file_id, chunk_index, parent_chunk_id, content, chunk_type, start_line, end_line) VALUES (?1, ?2, ?3, ?4, ?5, ?6, ?7)";

/// The chunks of the file `?1`, in order.
pub const SELECT_CHUNKS_SQL: &'static str = "SELECT id, file_id, chunk_index, parent_chunk_id, content, chunk_type, start_line, end_line FROM chunks WHERE file_id=?1 ORDER BY chunk_index";

/// Removes the chunks of the file `?1`.
pub const DELETE_CHUNKS_SQL: &'static str = "DELETE FROM chunks WHERE file_id=?1";

/// Stores an access rule.
pub const INSERT_ACL_SQL: &'static str = "INSERT INTO acl_rules (pattern, permission, mount_point) VALUES (?1, ?2, ?3)";

/// The access rules of the mount point `?1`.
pub const SELECT_ACL_SQL: &'static str = "SELECT id, pattern, permission, mount_point FROM acl_rules WHERE mount_point=?1";

/// The number of stored files.
pub const COUNT_FILES_SQL: &'static str = "SELECT COUNT(*) FROM files";

/// The statements that record `name`, `path` and `content` as the
/// full-text entry of the file `file_id`, in turn: the old entry goes,
/// the new one comes in.
pub open spec fn fts_calls(file_id: FileId, name: Seq<char>, path: Seq<char>, content: Seq<char>) -> Seq<
    SqlCall,
> {
    seq![
        sql_call(DELETE_FTS_SQL@, seq![SqlValueView::Integer(file_id)]),
        sql_call(
            INSERT_FTS_SQL@,
            seq![
                SqlValueView::Integer(file_id),
                SqlValueView::Text(name),
                SqlValueView::Text(path),
                SqlValueView::Text(content),
            ],
        ),
    ]
}

/// The statements that remove the file `id` and its full-text entry, in
/// turn.
pub open spec fn delete_file_calls(id: FileId) -> Seq<SqlCall> {
    seq![
        sql_call(DELETE_FILE_SQL@, seq![SqlValueView::Integer(id)]),
        sql_call(DELETE_FTS_SQL@, seq![SqlValueView::Integer(id)]),
    ]
}

/// The metadata store, kept in SQLite. Besides the connection, it keeps
/// (as ghost state) the statements its methods have handed to SQLite, in
/// order.
pub struct SqliteStore {
    conn: rusqlite::Connection,
    calls: Ghost<Seq<SqlCall>>,
}

impl SqliteStore {
    /// The connection that the store works through.
    pub closed spec fn db(&self) -> rusqlite::Connection {
        self.conn
    }

    /// The statements the store has handed to SQLite, oldest first.
    pub closed spec fn calls(&self) -> Seq<SqlCall> {
        self.calls@
    }

    /// Hands `sql` with `params` to SQLite.
    fn run(&mut self, sql: &str, params: &Vec<SqlValue>) -> (r: Result<usize, rusqlite::Error>)
        ensures
            final(self).calls() == old(self).calls().push(sql_call(sql@, sql_views(params@))),
    {
        let r = execute(&self.conn, sql, params.as_slice());
        self.calls = Ghost(self.calls@.push(sql_call(sql@, sql_views(params@))));
        r
    }

    /// Hands the query `sql` with `params` to SQLite and reads the first
    /// row of its result with `read`.
    fn row<T, F: Fn(&rusqlite::Row) -> Result<T, rusqlite::Error>>(
        &mut self,
        sql: &str,
        params: &Vec<SqlValue>,
        read: F,
    ) -> (r: Result<T, rusqlite::Error>)
        ensures
            final(self).calls() == old(self).calls().push(sql_call(sql@, sql_views(params@))),
            r matches Ok(v) ==> exists|row: &rusqlite::Row| #[trigger] read.ensures((row,), Ok(v)),
    {
        let r = query_row(&self.conn, sql, params.as_slice(), read);
        self.calls = Ghost(self.calls@.push(sql_call(sql@, sql_views(params@))));
        r
    }

    /// The store in the database file at `path`, created where missing.
    pub fn new(path: &str) -> (r: Result<SqliteStore, StorageError>)
        ensures
            r matches Err(e) ==> e is Sqlite,
            r matches Ok(s) ==> s.calls() == seq![sql_call(STORE_SCHEMA@, seq![])],
    {
        match open_connection(path) {
            Ok(conn) => SqliteStore::initialize(conn),
            Err(e) => Err(StorageError::Sqlite(e)),
        }
    }

    /// A store in a database that lives in memory.
    pub fn in_memory() -> (r: Result<SqliteStore, StorageError>)
        ensures
            r matches Err(e) ==> e is Sqlite,
            r matches Ok(s) ==> s.calls() == seq![sql_call(STORE_SCHEMA@, seq![])],
    {
        match open_memory_connection() {
            Ok(conn) => SqliteStore::initialize(conn),
            Err(e) => Err(StorageError::Sqlite(e)),
        }
    }

    fn initialize(conn: rusqlite::Connection) -> (r: Result<SqliteStore, StorageError>)
        ensures
            r matches Err(e) ==> e is Sqlite,
            r matches Ok(s) ==> s.calls() == seq![sql_call(STORE_SCHEMA@, seq![])],
    {
        match execute_batch(&conn, STORE_SCHEMA) {
            Ok(()) => {
                let calls: Ghost<Seq<SqlCall>> = Ghost(
                    Seq::empty().push(sql_call(STORE_SCHEMA@, Seq::empty())),
                );
                Ok(SqliteStore { conn, calls })
            },
            Err(e) => Err(StorageError::Sqlite(e)),
        }
    }

    /// The database connection, for queries that the store does not make
    /// itself.
    pub fn connection(&self) -> (r: &rusqlite::Connection)
        ensures
            *r == self.db(),
    {
        &self.conn
    }

    /// Stores `meta` as a new file and gives its id.
    pub fn insert_file(&mut self, meta: &FileMeta) -> (r: Result<FileId, StorageError>)
        ensures
            r matches Err(e) ==> e is Sqlite,
            final(self).calls() == old(self).calls().push(sql_call(INSERT_FILE_SQL@, file_params(*meta))),
    {
        let params = file_row_params(meta);
        match self.run(INSERT_FILE_SQL, &params) {
            Ok(_) => Ok(last_insert_rowid(&self.conn)),
            Err(e) => Err(StorageError::Sqlite(e)),
        }
    }

    /// Replaces the metadata of the file `id` with `meta`; `FileNotFound`
    /// where there is no such file.
    pub fn update_file(&mut self, id: FileId, meta: &FileMeta) -> (r: Result<(), StorageError>)
        ensures
            r matches Err(e) ==> (e is Sqlite || (e matches StorageError::FileNotFound(m) && m@
                == file_id_message(id))),
            final(self).calls() == old(self).calls().push(
                sql_call(UPDATE_FILE_SQL@, file_params(*meta).push(SqlValueView::Integer(id))),
            ),
    {
        let mut params = file_row_params(meta);
        params.push(SqlValue::Integer(id));
        assert(sql_views(params@) =~= file_params(*meta).push(SqlValueView::Integer(id)));
        let changed = self.run(UPDATE_FILE_SQL, &params);
        update_outcome(id, changed)
    }

    /// Removes the file `id` and its full-text entry.
    pub fn delete_file(&mut self, id: FileId) -> (r: Result<(), StorageError>)
        ensures
            r matches Err(e) ==> e is Sqlite,
            handed(old(self).calls(), final(self).calls(), delete_file_calls(id), r is Ok),
    {
        let ghost before = self.calls();
        let params = vec![SqlValue::Integer(id)];
        assert(sql_views(params@) =~= seq![SqlValueView::Integer(id)]);
        if let Err(e) = self.run(DELETE_FILE_SQL, &params) {
            assert(self.calls() =~= before + delete_file_calls(id).take(1));
            return Err(StorageError::Sqlite(e));
        }
        let r = match self.run(DELETE_FTS_SQL, &params) {
            Ok(_) => Ok(()),
            Err(e) => Err(StorageError::Sqlite(e)),
        };
        assert(self.calls() =~= before + delete_file_calls(id).take(2));
        assert(delete_file_calls(id).take(2) =~= delete_file_calls(id));
        r
    }

    /// The metadata of the file `id`; `FileNotFound` where it cannot be
    /// read.
    pub fn get_file(&mut self, id: FileId) -> (r: Result<FileMeta, StorageError>)
        ensures
            r matches Err(e) ==> e matches StorageError::FileNotFound(m) && m@ == file_id_message(
                id,
            ),
            r matches Ok(m) ==> m.id is Some,
            final(self).calls() == old(self).calls().push(
                sql_call(SELECT_FILE_BY_ID_SQL@, seq![SqlValueView::Integer(id)]),
            ),
    {
        let params = vec![SqlValue::Integer(id)];
        assert(sql_views(params@) =~= seq![SqlValueView::Integer(id)]);
        match self.row(SELECT_FILE_BY_ID_SQL, &params, read_file_row) {
            Ok(meta) => {
                proof {
                    let row = choose|row: &rusqlite::Row|
                        #[trigger] read_file_row.ensures((row,), Ok::<FileMeta, rusqlite::Error>(meta));
                }
                Ok(meta)
            },
            Err(_) => Err(StorageError::FileNotFound(file_id_text(id))),
        }
    }

    /// The metadata of the file at `path`; `FileNotFound` with the path
    /// where it cannot be read.
    pub fn get_file_by_path(&mut self, path: &str) -> (r: Result<FileMeta, StorageError>)
        ensures
            r matches Err(e) ==> e matches StorageError::FileNotFound(m) && m@ == path@,
            r matches Ok(m) ==> m.id is Some,
            final(self).calls() == old(self).calls().push(
                sql_call(SELECT_FILE_BY_PATH_SQL@, seq![SqlValueView::Text(path@)]),
            ),
    {
        let params = vec![SqlValue::Text(path.to_string())];
        assert(sql_views(params@) =~= seq![SqlValueView::Text(path@)]);
        match self.row(SELECT_FILE_BY_PATH_SQL, &params, read_file_row) {
            Ok(meta) => {
                proof {
                    let row = choose|row: &rusqlite::Row|
                        #[trigger] read_file_row.ensures((row,), Ok::<FileMeta, rusqlite::Error>(meta));
                }
                Ok(meta)
            },
            Err(_) => Err(StorageError::FileNotFound(path.to_string())),
        }
    }

    /// The stored hash of the file at `path`, if it is stored.
    pub fn get_file_hash(&mut self, path: &str) -> (r: Result<Option<String>, StorageError>)
        ensures
            r matches Err(e) ==> e is Sqlite,
            final(self).calls() == old(self).calls().push(
                sql_call(SELECT_HASH_SQL@, seq![SqlValueView::Text(path@)]),
            ),
    {
        let params = vec![SqlValue::Text(path.to_string())];
        assert(sql_views(params@) =~= seq![SqlValueView::Text(path@)]);
        let found = self.row(SELECT_HASH_SQL, &params, |row: &rusqlite::Row| column_text(row, 0));
        hash_outcome(found)
    }

    /// The metadata of every stored file.
    pub fn list_all_files(&mut self) -> (r: Result<Vec<FileMeta>, StorageError>)
        ensures
            r matches Err(e) ==> e is Sqlite,
            r matches Ok(files) ==> forall|i: int| 0 <= i < files.len() ==> (#[trigger] files[i]).id is Some,
            final(self).calls() == old(self).calls().push(sql_call(SELECT_ALL_FILES_SQL@, seq![])),
    {
        let params: Vec<SqlValue> = Vec::new();
        assert(sql_views(params@) =~= Seq::<SqlValueView>::empty());
        let found = query_rows(&self.conn, SELECT_ALL_FILES_SQL, params.as_slice(), read_file_row);
        self.calls = Ghost(self.calls@.push(sql_call(SELECT_ALL_FILES_SQL@, sql_views(params@))));
        match found {
            Ok(files) => {
                assert forall|i: int| 0 <= i < files.len() implies (#[trigger] files[i]).id is Some by {
                    let row = choose|row: &rusqlite::Row|
                        #[trigger] read_file_row.ensures((row,), Ok::<FileMeta, rusqlite::Error>(files[i]));
                }
                Ok(files)
            },
            Err(e) => Err(StorageError::Sqlite(e)),
        }
    }

    /// Replaces the full-text entry of the file `file_id` with its name,
    /// path and content.
    pub fn index_content(&mut self, file_id: FileId, name: &str, path: &str, content: &str) -> (r:
        Result<(), StorageError>)
        ensures
            r matches Err(e) ==> e is Sqlite,
            handed(
                old(self).calls(),
                final(self).calls(),
                fts_calls(file_id, name@, path@, content@),
                r is Ok,
            ),
    {
        let ghost before = self.calls();
        let ghost cs = fts_calls(file_id, name@, path@, content@);
        let params = vec![SqlValue::Integer(file_id)];
        assert(sql_views(params@) =~= seq![SqlValueView::Integer(file_id)]);
        if let Err(e) = self.run(DELETE_FTS_SQL, &params) {
            assert(self.calls() =~= before + cs.take(1));
            return Err(StorageError::Sqlite(e));
        }
        let params = vec![
            SqlValue::Integer(file_id),
            SqlValue::Text(name.to_string()),
            SqlValue::Text(path.to_string()),
            SqlValue::Text(content.to_string()),
        ];
        assert(sql_views(params@) =~= seq![
            SqlValueView::Integer(file_id),
            SqlValueView::Text(name@),
            SqlValueView::Text(path@),
            SqlValueView::Text(content@),
        ]);
        let r = match self.run(INSERT_FTS_SQL, &params) {
            Ok(_) => Ok(()),
            Err(e) => Err(StorageError::Sqlite(e)),
        };
        assert(self.calls() =~= before + cs.take(2));
        assert(cs.take(2) =~= cs);
        r
    }

    /// The ids of the files that meet all of `filters` (all files for no
    /// filter).
    pub fn filter_by(&mut self, filters: &[MetadataFilter]) -> (r: Result<Vec<FileId>, StorageError>)
        ensures
            r matches Err(e) ==> e is Sqlite,
            final(self).calls() == old(self).calls().push(
                sql_call(filter_sql(filters@), filter_params(filters@)),
            ),
    {
        let (sql, params) = filter_query(filters);
        let found = query_rows(&self.conn, sql.as_str(), params.as_slice(), |row: &rusqlite::Row| column_i64(row, 0));
        self.calls = Ghost(self.calls@.push(sql_call(sql@, sql_views(params@))));
        match found {
            Ok(ids) => Ok(ids),
            Err(e) => Err(StorageError::Sqlite(e)),
        }
    }

    /// Stores `chunk` and gives its id.
    pub fn insert_chunk(&mut self, chunk: &Chunk) -> (r: Result<ChunkId, StorageError>)
        ensures
            r matches Err(e) ==> e is Sqlite,
            final(self).calls() == old(self).calls().push(sql_call(INSERT_CHUNK_SQL@, chunk_params(*chunk))),
    {
        let params = chunk_row_params(chunk);
        match self.run(INSERT_CHUNK_SQL, &params) {
            Ok(_) => Ok(last_insert_rowid(&self.conn)),
            Err(e) => Err(StorageError::Sqlite(e)),
        }
    }

    /// The chunks of the file `file_id`, in order.
    pub fn get_chunks_for_file(&mut self, file_id: FileId) -> (r: Result<Vec<Chunk>, StorageError>)
        ensures
            r matches Err(e) ==> e is Sqlite,
            r matches Ok(chunks) ==> forall|i: int|
                0 <= i < chunks.len() ==> (#[trigger] chunks[i]).id is Some && chunks[i].metadata@.len()
                    == 0,
            final(self).calls() == old(self).calls().push(
                sql_call(SELECT_CHUNKS_SQL@, seq![SqlValueView::Integer(file_id)]),
            ),
    {
        let params = vec![SqlValue::Integer(file_id)];
        assert(sql_views(params@) =~= seq![SqlValueView::Integer(file_id)]);
        let found = query_rows(&self.conn, SELECT_CHUNKS_SQL, params.as_slice(), read_chunk_row);
        self.calls = Ghost(self.calls@.push(sql_call(SELECT_CHUNKS_SQL@, sql_views(params@))));
        match found {
            Ok(chunks) => {
                assert forall|i: int| 0 <= i < chunks.len() implies (#[trigger] chunks[i]).id is Some
                    && chunks[i].metadata@.len() == 0 by {
                    let row = choose|row: &rusqlite::Row|
                        #[trigger] read_chunk_row.ensures((row,), Ok::<Chunk, rusqlite::Error>(chunks[i]));
                }
                Ok(chunks)
            },
            Err(e) => Err(StorageError::Sqlite(e)),
        }
    }

    /// Removes the chunks of the file `file_id`.
    pub fn delete_chunks_for_file(&mut self, file_id: FileId) -> (r: Result<(), StorageError>)
        ensures
            r matches Err(e) ==> e is Sqlite,
            final(self).calls() == old(self).calls().push(
                sql_call(DELETE_CHUNKS_SQL@, seq![SqlValueView::Integer(file_id)]),
            ),
    {
        let params = vec![SqlValue::Integer(file_id)];
        assert(sql_views(params@) =~= seq![SqlValueView::Integer(file_id)]);
        match self.run(DELETE_CHUNKS_SQL, &params) {
            Ok(_) => Ok(()),
            Err(e) => Err(StorageError::Sqlite(e)),
        }
    }

    /// Stores `rule` and gives its id.
    pub fn insert_acl_rule(&mut self, rule: &AclRule) -> (r: Result<i64, StorageError>)
        ensures
            r matches Err(e) ==> e is Sqlite,
            final(self).calls() == old(self).calls().push(
                sql_call(
                    INSERT_ACL_SQL@,
                    seq![
                        SqlValueView::Text(rule.pattern@),
                        SqlValueView::Text(permission_name(rule.permission)),
                        SqlValueView::Text(rule.mount_point@),
                    ],
                ),
            ),
    {
        let params = vec![
            SqlValue::Text(rule.pattern.clone()),
            SqlValue::Text(rule.permission.as_str().to_string()),
            SqlValue::Text(rule.mount_point.clone()),
        ];
        assert(sql_views(params@) =~= seq![
            SqlValueView::Text(rule.pattern@),
            SqlValueView::Text(permission_name(rule.permission)),
            SqlValueView::Text(rule.mount_point@),
        ]);
        match self.run(INSERT_ACL_SQL, &params) {
            Ok(_) => Ok(last_insert_rowid(&self.conn)),
            Err(e) => Err(StorageError::Sqlite(e)),
        }
    }

    /// The access rules of the mount point `mount_point`.
    pub fn get_acl_rules(&mut self, mount_point: &str) -> (r: Result<Vec<AclRule>, StorageError>)
        ensures
            r matches Err(e) ==> e is Sqlite,
            r matches Ok(rules) ==> forall|i: int| 0 <= i < rules.len() ==> (#[trigger] rules[i]).id is Some,
            final(self).calls() == old(self).calls().push(
                sql_call(SELECT_ACL_SQL@, seq![SqlValueView::Text(mount_point@)]),
            ),
    {
        let params = vec![SqlValue::Text(mount_point.to_string())];
        assert(sql_views(params@) =~= seq![SqlValueView::Text(mount_point@)]);
        let found = query_rows(&self.conn, SELECT_ACL_SQL, params.as_slice(), read_acl_row);
        self.calls = Ghost(self.calls@.push(sql_call(SELECT_ACL_SQL@, sql_views(params@))));
        match found {
            Ok(rules) => {
                assert forall|i: int| 0 <= i < rules.len() implies (#[trigger] rules[i]).id is Some by {
                    let row = choose|row: &rusqlite::Row|
                        #[trigger] read_acl_row.ensures((row,), Ok::<AclRule, rusqlite::Error>(rules[i]));
                }
                Ok(rules)
            },
            Err(e) => Err(StorageError::Sqlite(e)),
        }
    }

    /// The number of stored files.
    pub fn file_count(&mut self) -> (r: Result<usize, StorageError>)
        ensures
            r matches Err(e) ==> e is Sqlite,
            final(self).calls() == old(self).calls().push(sql_call(COUNT_FILES_SQL@, seq![])),
    {
        let params: Vec<SqlValue> = Vec::new();
        assert(sql_views(params@) =~= Seq::<SqlValueView>::empty());
        match self.row(COUNT_FILES_SQL, &params, |row: &rusqlite::Row| column_i64(row, 0)) {
            Ok(n) => Ok(n as usize),
            Err(e) => Err(StorageError::Sqlite(e)),
        }
    }
}

} // verus!
