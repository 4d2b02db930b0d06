//! A semantic view of a directory tree: natural-language queries are parsed
//! into filters and search terms, files are cut into hierarchical chunks and
//! indexed in SQLite, results and parsed queries are cached, file-system
//! events are debounced, and write operations on real files are recorded in
//! a write-ahead log before they run.
pub mod strings;
pub mod numbers;
pub mod paths;
pub mod types;
pub mod errors;
pub mod config;
pub mod query;
pub mod chunker;
pub mod code_chunker;
pub mod crawler;
pub mod indexing;
pub mod db;
pub mod store;
pub mod wal;
pub mod cache;
pub mod events;
pub mod vfs;
pub mod inodes;
pub mod mount;
pub mod embed;
pub mod ranking;
