//! The decisions of the indexing pipeline: a file's content hash, its MIME
//! type and metadata record, the chunk records stored for it, which chunks
//! are embedded, and the tally of a run.
use vstd::prelude::*;
use crate::chunker::ChunkData;
use crate::chunker::ChunkDataView;
use crate::chunker::chunk_views;
use crate::chunker::chosen_chunker;
use crate::chunker::get_chunker;
use crate::chunker::text_chunks;
use crate::code_chunker::code_chunks;
use crate::errors::StorageError;
use crate::store::SqliteStore;
use crate::store::DELETE_CHUNKS_SQL;
use crate::store::INSERT_CHUNK_SQL;
use crate::store::INSERT_FILE_SQL;
use crate::store::SELECT_FILE_BY_PATH_SQL;
use crate::store::SELECT_HASH_SQL;
use crate::store::chunk_params;
use crate::store::delete_file_calls;
use crate::store::file_params;
use crate::store::fts_calls;
use crate::store::opt_integer;
use crate::db::SqlCall;
use crate::db::SqlValueView;
use crate::db::sql_call;
use crate::db::handed;
use crate::types::chunk_type_name;
use crate::types::ChunkId;
use crate::paths::extension_of;
use crate::paths::file_name;
use crate::paths::file_name_of;
use crate::paths::path_extension;
use crate::strings::chars_eq_str;
use crate::strings::chars_of;
use crate::strings::is_blank;
use crate::strings::string_of;
use crate::strings::trim;
use crate::types::Chunk;
use crate::types::FileId;
use crate::types::FileMeta;

verus! {

// ---------------------------------------------------------------------------
// Hashing
// ---------------------------------------------------------------------------
/// The SHA-256 digest of the UTF-8 bytes of `text`.
pub uninterp spec fn sha256_of(text: Seq<char>) -> Seq<u8>;

/// `Sha256::digest` (sha2) of the UTF-8 bytes of `text`: a digest named
/// `sha256_of`, of 32 bytes.
#[verifier::external_body]
fn sha256_digest(text: &str) -> (r: Vec<u8>)
    ensures
        r@ == sha256_of(text@),
        r@.len() == 32,
{
    <sha2::Sha256 as sha2::Digest>::digest(text.as_bytes()).to_vec()
}

/// The lower-case hexadecimal digit for `d`, below 16.
pub open spec fn hex_digit(d: int) -> char {
    if d < 10 {
        (d + 48) as char
    } else {
        (d + 87) as char
    }
}

/// The bytes `b` in lower-case hexadecimal, two digits each.
pub open spec fn hex_of(b: Seq<u8>) -> Seq<char>
    decreases b.len(),
{
    if b.len() == 0 {
        seq![]
    } else {
        hex_of(b.drop_last()) + seq![hex_digit(b.last() as int / 16), hex_digit(b.last() as int % 16)]
    }
}

fn hex_digit_exec(d: u8) -> (r: char)
    requires
        d < 16,
    ensures
        r == hex_digit(d as int),
{
    let digits = ['0', '1', '2', '3', '4', '5', '6', '7', '8', '9', 'a', 'b', 'c', 'd', 'e', 'f'];
    let c = digits[d as usize];
    assert(c == hex_digit(d as int)) by {
        assert(digits@ =~= seq![
            '0', '1', '2', '3', '4', '5', '6', '7', '8', '9', 'a', 'b', 'c', 'd', 'e', 'f',
        ]);
    }
    c
}

/// The bytes `b` in lower-case hexadecimal.
pub fn hex_lower(b: &[u8]) -> (r: String)
    ensures
        r@ == hex_of(b@),
{
    let mut out: Vec<char> = Vec::new();
    let mut i: usize = 0;
    while i < b.len()
        invariant
            i <= b.len(),
            out@ == hex_of(b@.take(i as int)),
        decreases b.len() - i,
    {
        let ghost before = out@;
        out.push(hex_digit_exec(b[i] / 16));
        out.push(hex_digit_exec(b[i] % 16));
        assert(b@.take(i + 1).drop_last() =~= b@.take(i as int));
        assert(out@ =~= hex_of(b@.take(i + 1)));
        i += 1;
    }
    assert(b@.take(b.len() as int) =~= b@);
    string_of(&out)
}

/// The content hash of a file: the SHA-256 digest of its text in
/// lower-case hexadecimal.
pub fn compute_hash(content: &str) -> (r: String)
    ensures
        r@ == hex_of(sha256_of(content@)),
        r@.len() == 64,
{
    let digest = sha256_digest(content);
    let r = hex_lower(&digest);
    proof {
        lemma_hex_len(digest@);
    }
    r
}

proof fn lemma_hex_len(b: Seq<u8>)
    ensures
        hex_of(b).len() == 2 * b.len(),
    decreases b.len(),
{
    if b.len() > 0 {
        lemma_hex_len(b.drop_last());
    }
}

// ---------------------------------------------------------------------------
// File metadata
// ---------------------------------------------------------------------------
/// The MIME type of files with extension `ext`.
pub open spec fn mime_for(ext: Seq<char>) -> Seq<char> {
    if ext == "rs"@ {
        "text/x-rust"@
    } else if ext == "py"@ {
        "text/x-python"@
    } else if ext == "js"@ || ext == "jsx"@ {
        "text/javascript"@
    } else if ext == "ts"@ || ext == "tsx"@ {
        "text/typescript"@
    } else if ext == "go"@ {
        "text/x-go"@
    } else if ext == "java"@ {
        "text/x-java"@
    } else if ext == "md"@ {
        "text/markdown"@
    } else if ext == "txt"@ {
        "text/plain"@
    } else if ext == "json"@ {
        "application/json"@
    } else if ext == "yaml"@ || ext == "yml"@ {
        "text/yaml"@
    } else if ext == "toml"@ {
        "text/toml"@
    } else if ext == "html"@ {
        "text/html"@
    } else if ext == "css"@ {
        "text/css"@
    } else if ext == "csv"@ {
        "text/csv"@
    } else {
        "application/octet-stream"@
    }
}

/// The MIME type of the file at `path`, by its extension; none for a file
/// without extension.
pub fn detect_mime_type(path: &str) -> (r: Option<String>)
    ensures
        match path_extension(path@) {
            Some(e) => r matches Some(m) && m@ == mime_for(e),
            None => r is None,
        },
{
    let ext = match extension_of(&chars_of(path)) {
        Some(e) => e,
        None => {
            return None;
        },
    };
    let m = if chars_eq_str(&ext, "rs") {
        "text/x-rust"
    } else if chars_eq_str(&ext, "py") {
        "text/x-python"
    } else if chars_eq_str(&ext, "js") || chars_eq_str(&ext, "jsx") {
        "text/javascript"
    } else if chars_eq_str(&ext, "ts") || chars_eq_str(&ext, "tsx") {
        "text/typescript"
    } else if chars_eq_str(&ext, "go") {
        "text/x-go"
    } else if chars_eq_str(&ext, "java") {
        "text/x-java"
    } else if chars_eq_str(&ext, "md") {
        "text/markdown"
    } else if chars_eq_str(&ext, "txt") {
        "text/plain"
    } else if chars_eq_str(&ext, "json") {
        "application/json"
    } else if chars_eq_str(&ext, "yaml") || chars_eq_str(&ext, "yml") {
        "text/yaml"
    } else if chars_eq_str(&ext, "toml") {
        "text/toml"
    } else if chars_eq_str(&ext, "html") {
        "text/html"
    } else if chars_eq_str(&ext, "css") {
        "text/css"
    } else if chars_eq_str(&ext, "csv") {
        "text/csv"
    } else {
        "application/octet-stream"
    };
    Some(m.to_string())
}

/// The metadata record of the file at `path`: its name (`unknown` where the
/// path has none), extension and MIME type from the path, with the given
/// size, hash and times, and no id yet.
pub open spec fn file_meta_of(
    meta: FileMeta,
    path: Seq<char>,
    size: u64,
    hash: Seq<char>,
    created_at: i64,
    modified_at: i64,
    indexed_at: i64,
) -> bool {
    &&& meta.id is None
    &&& meta.path@ == path
    &&& meta.name@ == match file_name(path) {
        Some(n) => n,
        None => "unknown"@,
    }
    &&& match path_extension(path) {
        Some(e) => (meta.extension matches Some(x) && x@ == e) && (meta.mime_type matches Some(m)
            && m@ == mime_for(e)),
        None => meta.extension is None && meta.mime_type is None,
    }
    &&& meta.size == size
    &&& meta.hash@ == hash
    &&& meta.created_at == created_at
    &&& meta.modified_at == modified_at
    &&& meta.indexed_at == indexed_at
}

/// The metadata record of the file at `path`.
pub fn file_meta_for(
    path: &str,
    size: u64,
    hash: &str,
    created_at: i64,
    modified_at: i64,
    indexed_at: i64,
) -> (r: FileMeta)
    ensures
        file_meta_of(r, path@, size, hash@, created_at, modified_at, indexed_at),
{
    let p = chars_of(path);
    let name = match file_name_of(&p) {
        Some(n) => string_of(&n),
        None => "unknown".to_string(),
    };
    let extension = match extension_of(&p) {
        Some(e) => Some(string_of(&e)),
        None => None,
    };
    FileMeta {
        id: None,
        path: path.to_string(),
        name,
        extension,
        size,
        hash: hash.to_string(),
        created_at,
        modified_at,
        indexed_at,
        mime_type: detect_mime_type(path),
    }
}

// ---------------------------------------------------------------------------
// Chunks
// ---------------------------------------------------------------------------
/// The record stored for the `index`-th chunk `cd` of the file `file_id`:
/// no id or parent yet, and no metadata.
pub fn chunk_record(file_id: FileId, index: usize, cd: &ChunkData) -> (r: Chunk)
    ensures
        r.id is None,
        r.file_id == file_id,
        r.chunk_index == index,
        r.parent_chunk_id is None,
        r.content@ == cd.content@,
        r.chunk_type == cd.chunk_type,
        r.start_line == cd.start_line,
        r.end_line == cd.end_line,
        r.metadata@.len() == 0,
{
    Chunk {
        id: None,
        file_id,
        chunk_index: index,
        parent_chunk_id: None,
        content: cd.content.clone(),
        chunk_type: cd.chunk_type,
        start_line: cd.start_line,
        end_line: cd.end_line,
        metadata: std::collections::HashMap::new(),
    }
}

/// Whether a chunk is sent to the embedder: there is one, and the chunk's
/// text is not blank.
pub fn wants_embedding(has_embedder: bool, cd: &ChunkData) -> (r: bool)
    ensures
        r == (has_embedder && trim(cd.content@).len() > 0),
{
    has_embedder && !is_blank(&chars_of(cd.content.as_str()))
}

// ---------------------------------------------------------------------------
// Incremental indexing
// ---------------------------------------------------------------------------
/// Whether a file whose text hashes to `hash` must be indexed again, given
/// what looking up its stored hash gave: unless the store holds a hash
/// equal to it.
pub fn reindex_needed(stored: &Result<Option<String>, StorageError>, hash: &str) -> (r: bool)
    ensures
        r == !(stored matches Ok(Some(h)) && h@ == hash@),
{
    match stored {
        Ok(Some(h)) => !chars_eq_str(&chars_of(h.as_str()), hash),
        _ => true,
    }
}

/// The content hash of the file at `path` with text `content`, where the
/// file must be indexed: always for a full run (`full`), else unless the
/// store already holds that hash for the path. A full run hands nothing
/// to the store; else the one statement handed is the lookup of the
/// stored hash, so a file found unchanged leaves the store as it was.
pub fn hash_to_index(store: &mut SqliteStore, path: &str, content: &str, full: bool) -> (r: Option<
    String,
>)
    ensures
        r matches Some(h) ==> h@ == hex_of(sha256_of(content@)),
        full ==> r is Some && final(store).calls() == old(store).calls(),
        !full ==> final(store).calls() == old(store).calls().push(
            sql_call(SELECT_HASH_SQL@, seq![SqlValueView::Text(path@)]),
        ),
{
    let hash = compute_hash(content);
    if full {
        return Some(hash);
    }
    let stored = store.get_file_hash(path);
    if reindex_needed(&stored, hash.as_str()) {
        Some(hash)
    } else {
        None
    }
}

/// The statements that remove the file `id` found at `path`, in turn: the
/// lookup by path, then its chunks, its record and its full-text entry.
pub open spec fn remove_calls(path: Seq<char>, id: FileId) -> Seq<SqlCall> {
    seq![
        sql_call(SELECT_FILE_BY_PATH_SQL@, seq![SqlValueView::Text(path)]),
        sql_call(DELETE_CHUNKS_SQL@, seq![SqlValueView::Integer(id)]),
    ] + delete_file_calls(id)
}

/// Drops the stored rows of the file at `path`, if one is stored: its
/// chunks, then its record and its full-text entry. Gives the id and hash
/// it had, so that what is kept elsewhere for it can go too. Where no file
/// is found, only the lookup is handed to the store; a failed removal of
/// the record stops before its full-text entry.
pub fn remove_stored_file(store: &mut SqliteStore, path: &str) -> (r: Option<(FileId, String)>)
    ensures
        r is None ==> final(store).calls() == old(store).calls() + remove_calls(path@, 0).take(1),
        r matches Some((id, _)) ==> final(store).calls() == old(store).calls() + remove_calls(path@, id)
            || final(store).calls() == old(store).calls() + remove_calls(path@, id).take(3),
{
    let ghost before = store.calls();
    match store.get_file_by_path(path) {
        Ok(existing) => match existing.id {
            Some(id) => {
                let ghost cs = remove_calls(path@, id);
                let _ = store.delete_chunks_for_file(id);
                assert(store.calls() == before + cs.take(2));
                let ghost mid = store.calls();
                let d = store.delete_file(id);
                proof {
                    let dc = delete_file_calls(id);
                    if d is Ok {
                        assert(store.calls() == before + cs.take(4));
                    } else {
                        let k = choose|k: int| 1 <= k <= dc.len() && store.calls() == mid + dc.take(k);
                        assert(store.calls() == before + cs.take(2 + k));
                    }
                    assert(cs.take(4) =~= cs);
                }
                Some((id, existing.hash))
            },
            None => {
                assert(store.calls() == before + remove_calls(path@, 0).take(1));
                None
            },
        },
        Err(_) => {
            assert(store.calls() == before + remove_calls(path@, 0).take(1));
            None
        },
    }
}

/// The chunks that the chunker chosen for `path` cuts `content` into; none
/// where no chunker takes the file.
pub open spec fn file_chunks(path: Seq<char>, content: Seq<char>) -> Seq<ChunkDataView> {
    match chosen_chunker(path) {
        Some(true) => text_chunks(content),
        Some(false) => code_chunks(path, content),
        None => seq![],
    }
}

/// A file stored by `store_text`: its id, its chunks, and the ids they
/// were stored under, in the same order.
pub struct IndexedFile {
    pub file_id: FileId,
    pub chunks: Vec<ChunkData>,
    pub chunk_ids: Vec<ChunkId>,
}

/// The parameters under which the `i`-th chunk `c` of the file `file_id`
/// is stored: no parent yet.
pub open spec fn chunk_row_of(file_id: FileId, i: usize, c: ChunkDataView) -> Seq<SqlValueView> {
    seq![
        SqlValueView::Integer(file_id),
        SqlValueView::Integer(i as i64),
        SqlValueView::Null,
        SqlValueView::Text(c.content),
        SqlValueView::Text(chunk_type_name(c.chunk_type)),
        opt_integer(c.start_line),
        opt_integer(c.end_line),
    ]
}

/// The statements that store the chunks `cs` of the file `file_id`, in
/// order.
pub open spec fn chunk_calls(file_id: FileId, cs: Seq<ChunkDataView>) -> Seq<SqlCall> {
    Seq::new(cs.len(), |i: int| sql_call(INSERT_CHUNK_SQL@, chunk_row_of(file_id, i as usize, cs[i])))
}

/// The statements that store a file: its record `meta`, then (under the
/// id `file_id` it was given) its full-text entry, then its chunks `cs`.
pub open spec fn store_text_calls(
    meta: FileMeta,
    file_id: FileId,
    path: Seq<char>,
    content: Seq<char>,
    cs: Seq<ChunkDataView>,
) -> Seq<SqlCall> {
    seq![sql_call(INSERT_FILE_SQL@, file_params(meta))] + fts_calls(file_id, meta.name@, path, content)
        + chunk_calls(file_id, cs)
}

/// Stores the file at `path` with text `content`: its record (with the
/// given hash, size and times), its text for full-text search, and the
/// records of the chunks its chunker cuts it into, in order. The
/// statements handed to the store are those, in that order; a failure
/// stops at the statement that failed.
pub fn store_text(
    store: &mut SqliteStore,
    path: &str,
    content: &str,
    hash: &str,
    size: u64,
    created_at: i64,
    modified_at: i64,
    indexed_at: i64,
) -> (r: Result<IndexedFile, StorageError>)
    ensures
        r matches Err(e) ==> e is Sqlite,
        r matches Ok(f) ==> chunk_views(f.chunks@) == file_chunks(path@, content@)
            && f.chunk_ids@.len() == f.chunks@.len(),
        r matches Ok(f) ==> exists|meta: FileMeta|
            #[trigger] file_meta_of(meta, path@, size, hash@, created_at, modified_at, indexed_at)
                && final(store).calls() == old(store).calls() + store_text_calls(
                meta,
                f.file_id,
                path@,
                content@,
                chunk_views(f.chunks@),
            ),
        r is Err ==> exists|meta: FileMeta, id: FileId|
            file_meta_of(meta, path@, size, hash@, created_at, modified_at, indexed_at) && #[trigger] handed(
                old(store).calls(),
                final(store).calls(),
                store_text_calls(meta, id, path@, content@, file_chunks(path@, content@)),
                false,
            ),
{
    let ghost before = store.calls();
    let meta = file_meta_for(path, size, hash, created_at, modified_at, indexed_at);
    let ghost fc = file_chunks(path@, content@);
    let file_id = match store.insert_file(&meta) {
        Ok(id) => id,
        Err(e) => {
            assert(store.calls() == before + store_text_calls(meta, 0, path@, content@, fc).take(1));
            assert(handed(before, store.calls(), store_text_calls(meta, 0, path@, content@, fc), false));
            return Err(e);
        },
    };
    let ghost all = store_text_calls(meta, file_id, path@, content@, fc);
    let ghost mid = store.calls();
    if let Err(e) = store.index_content(file_id, meta.name.as_str(), path, content) {
        proof {
            let f = fts_calls(file_id, meta.name@, path@, content@);
            let k = choose|k: int| 1 <= k <= f.len() && store.calls() == mid + f.take(k);
            assert(store.calls() == before + all.take(1 + k));
            assert(handed(before, store.calls(), all, false));
        }
        return Err(e);
    }
    assert(store.calls() == before + all.take(3));
    let chunks: Vec<ChunkData> = match get_chunker(path) {
        Some(chunker) => chunker.chunk(path, content),
        None => Vec::new(),
    };
    assert(chunk_views(chunks@) == fc);
    let mut chunk_ids: Vec<ChunkId> = Vec::new();
    let mut i: usize = 0;
    while i < chunks.len()
        invariant
            i <= chunks.len(),
            chunk_ids@.len() == i,
            chunk_views(chunks@) == fc,
            fc == file_chunks(path@, content@),
            before == old(store).calls(),
            file_meta_of(meta, path@, size, hash@, created_at, modified_at, indexed_at),
            all == store_text_calls(meta, file_id, path@, content@, fc),
            all.len() == 3 + fc.len(),
            store.calls() == before + all.take(3 + i),
        decreases chunks.len() - i,
    {
        let record = chunk_record(file_id, i, &chunks[i]);
        let ghost c = fc[i as int];
        assert(chunks@[i as int].content@ == c.content);
        assert(chunk_params(record) == chunk_row_of(file_id, i, c));
        let ghost prev = store.calls();
        let res = store.insert_chunk(&record);
        assert(all[3 + i] == sql_call(INSERT_CHUNK_SQL@, chunk_row_of(file_id, i, c)));
        assert(store.calls() == before + all.take(3 + i + 1)) by {
            assert(all.take(3 + i + 1) == all.take(3 + i).push(all[3 + i]));
        }
        match res {
            Ok(id) => chunk_ids.push(id),
            Err(e) => {
                assert(handed(before, store.calls(), all, false));
                return Err(e);
            },
        }
        i += 1;
    }
    assert(all.take(3 + chunks.len()) == all);
    Ok(IndexedFile { file_id, chunks, chunk_ids })
}

// ---------------------------------------------------------------------------
// The tally of a run
// ---------------------------------------------------------------------------
/// How the indexing of one file ended.
#[derive(Debug, Clone, Copy, PartialEq, Eq, Structural)]
pub enum FileOutcome {
    /// The file was stored.
    Indexed,
    /// The file was left as it was: unreadable as text, or unchanged.
    Skipped,
    /// The file could not be stored.
    Failed,
}

/// The counts of an indexing run.
#[derive(Debug)]
pub struct IndexingStats {
    pub total_files: usize,
    pub indexed: usize,
    pub skipped: usize,
    pub errors: usize,
}

impl Default for IndexingStats {
    fn default() -> (r: IndexingStats)
        ensures
            r.total_files == 0 && r.indexed == 0 && r.skipped == 0 && r.errors == 0,
    {
        IndexingStats { total_files: 0, indexed: 0, skipped: 0, errors: 0 }
    }
}

/// The number of the first `n` outcomes that are `o`.
pub open spec fn count_of(outcomes: Seq<FileOutcome>, o: FileOutcome, n: int) -> nat
    decreases n,
{
    if n <= 0 {
        0
    } else {
        count_of(outcomes, o, n - 1) + if outcomes[n - 1] == o {
            1nat
        } else {
            0nat
        }
    }
}

proof fn lemma_count_bound(outcomes: Seq<FileOutcome>, o: FileOutcome, n: int)
    requires
        0 <= n,
    ensures
        count_of(outcomes, o, n) <= n,
    decreases n,
{
    if n > 0 {
        lemma_count_bound(outcomes, o, n - 1);
    }
}

/// The counts of a run over `total_files` files whose outcomes are
/// `outcomes`.
pub fn tally(total_files: usize, outcomes: &[FileOutcome]) -> (r: IndexingStats)
    ensures
        r.total_files == total_files,
        r.indexed == count_of(outcomes@, FileOutcome::Indexed, outcomes@.len() as int),
        r.skipped == count_of(outcomes@, FileOutcome::Skipped, outcomes@.len() as int),
        r.errors == count_of(outcomes@, FileOutcome::Failed, outcomes@.len() as int),
        r.indexed + r.skipped + r.errors == outcomes@.len(),
{
    let mut stats = IndexingStats { total_files, indexed: 0, skipped: 0, errors: 0 };
    let mut i: usize = 0;
    while i < outcomes.len()
        invariant
            i <= outcomes.len(),
            stats.total_files == total_files,
            stats.indexed == count_of(outcomes@, FileOutcome::Indexed, i as int),
            stats.skipped == count_of(outcomes@, FileOutcome::Skipped, i as int),
            stats.errors == count_of(outcomes@, FileOutcome::Failed, i as int),
            stats.indexed + stats.skipped + stats.errors == i,
        decreases outcomes.len() - i,
    {
        match outcomes[i] {
            FileOutcome::Indexed => stats.indexed += 1,
            FileOutcome::Skipped => stats.skipped += 1,
            FileOutcome::Failed => stats.errors += 1,
        }
        i += 1;
    }
    stats
}

} // verus!
