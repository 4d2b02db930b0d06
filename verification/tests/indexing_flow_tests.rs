use semfs::errors::StorageError;
use semfs::indexing::hash_to_index;
use semfs::indexing::compute_hash;
use semfs::indexing::reindex_needed;
use semfs::indexing::remove_stored_file;
use semfs::indexing::store_text;
use semfs::store::SqliteStore;
use semfs::types::ChunkType;

#[test]
fn reindexing_is_needed_unless_the_same_hash_is_stored() {
    let same: Result<Option<String>, StorageError> = Ok(Some("abc".to_string()));
    assert!(!reindex_needed(&same, "abc"));
    assert!(reindex_needed(&same, "abd"));
    let none: Result<Option<String>, StorageError> = Ok(None);
    assert!(reindex_needed(&none, "abc"));
    let failed: Result<Option<String>, StorageError> =
        Err(StorageError::FileNotFound("x".to_string()));
    assert!(reindex_needed(&failed, "abc"));
}

#[test]
fn unchanged_text_is_not_indexed_again() {
    let mut store = SqliteStore::in_memory().unwrap();
    let path = "/docs/guide.md";
    let text = "# Guide\n\nFirst part.\n";
    let hash = hash_to_index(&mut store, path, text, false).unwrap();
    assert_eq!(hash, compute_hash(text));
    assert!(remove_stored_file(&mut store, path).is_none());
    let stored = store_text(&mut store, path, text, &hash, 22, 1, 2, 3).unwrap();
    assert_eq!(stored.chunks.len(), stored.chunk_ids.len());
    assert_eq!(stored.chunks.len(), 2);
    assert!(matches!(stored.chunks[0].chunk_type, ChunkType::Section));
    assert_eq!(stored.chunks[1].content, "First part.");
    assert_eq!(store.get_chunks_for_file(stored.file_id).unwrap().len(), 2);
    // The same text again: nothing to do, unless the run is a full one.
    assert!(hash_to_index(&mut store, path, text, false).is_none());
    assert_eq!(hash_to_index(&mut store, path, text, true), Some(hash.clone()));
    // Changed text: the old rows go, and the new ones come in.
    let changed = "# Guide\n\nSecond part.\n";
    let hash2 = hash_to_index(&mut store, path, changed, false).unwrap();
    assert_eq!(hash2, compute_hash(changed));
    let (old_id, old_hash) = remove_stored_file(&mut store, path).unwrap();
    assert_eq!(old_id, stored.file_id);
    assert_eq!(old_hash, hash);
    assert!(store.get_chunks_for_file(old_id).unwrap().is_empty());
    let stored2 = store_text(&mut store, path, changed, &hash2, 23, 1, 2, 4).unwrap();
    assert_eq!(store.get_file_hash(path).unwrap(), Some(hash2));
    assert_eq!(store.file_count().unwrap(), 1);
    assert_eq!(stored2.chunks[1].content, "Second part.");
}

#[test]
fn a_file_no_chunker_takes_is_stored_without_chunks() {
    let mut store = SqliteStore::in_memory().unwrap();
    let stored = store_text(&mut store, "/bin/tool.exe", "MZ", "h", 2, 0, 0, 0).unwrap();
    assert!(stored.chunks.is_empty());
    assert!(stored.chunk_ids.is_empty());
    assert_eq!(store.get_file(stored.file_id).unwrap().name, "tool.exe");
}
