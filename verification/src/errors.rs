//! The errors of the storage layer, the core, the embedders and the
//! mounting layer.
use vstd::prelude::*;

verus! {

/// `rusqlite::Error`, an error of the SQLite database.
#[verifier::external_type_specification]
#[verifier::external_body]
pub struct ExSqliteError(rusqlite::Error);

/// `std::io::Error`, an error of the operating system.
#[verifier::external_type_specification]
#[verifier::external_body]
pub struct ExIoError(std::io::Error);

/// What can go wrong in the storage layer.
#[derive(Debug)]
pub enum StorageError {
    Sqlite(rusqlite::Error),
    FileNotFound(String),
    DuplicatePath(String),
    WalRecovery(String),
    VectorStore(String),
    Cache(String),
    Serialization(String),
    Io(std::io::Error),
}

/// What can go wrong in the core: indexing, querying and the virtual
/// directory tree.
#[derive(Debug)]
pub enum CoreError {
    Storage(StorageError),
    Embedding(String),
    QueryParse(String),
    Index(String),
    Vfs(String),
    Io(std::io::Error),
    UnsupportedFile(String),
}

/// What can go wrong while embedding text.
#[derive(Debug, Clone, PartialEq, Eq)]
pub enum EmbedError {
    ModelNotAvailable(String),
    EmbeddingFailed(String),
    Connection(String),
    InvalidInput(String),
}

/// What can go wrong while mounting or unmounting.
#[derive(Debug)]
pub enum FuseError {
    Mount(String),
    Unmount(String),
    Io(std::io::Error),
    Core(CoreError),
    UnsupportedPlatform,
}

} // verus!
