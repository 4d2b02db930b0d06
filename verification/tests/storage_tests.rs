use semfs::db::SqlValue;
use semfs::errors::StorageError;
use semfs::store::filter_query;
use semfs::store::hash_outcome;
use semfs::store::update_outcome;
use semfs::store::SqliteStore;
use semfs::types::AclRule;
use semfs::types::Chunk;
use semfs::types::ChunkType;
use semfs::types::FileMeta;
use semfs::types::MetadataFilter;
use semfs::types::Permission;

fn test_meta() -> FileMeta {
    FileMeta {
        id: None,
        path: "/test/file.rs".to_string(),
        name: "file.rs".to_string(),
        extension: Some("rs".to_string()),
        size: 1024,
        hash: "abc123".to_string(),
        created_at: 1000,
        modified_at: 2000,
        indexed_at: 3000,
        mime_type: Some("text/x-rust".to_string()),
    }
}

fn search_fts(store: &SqliteStore, query: &str) -> Vec<(i64, f64)> {
    let conn = store.connection();
    let mut stmt = conn
        .prepare("SELECT rowid, rank FROM files_fts WHERE files_fts MATCH ?1 ORDER BY rank LIMIT 100")
        .unwrap();
    let rows = stmt
        .query_map([query], |row| Ok((row.get::<_, i64>(0)?, row.get::<_, f64>(1)?)))
        .unwrap();
    rows.collect::<Result<Vec<_>, _>>().unwrap()
}

#[test]
fn test_insert_and_get() {
    let mut store = SqliteStore::in_memory().unwrap();
    let meta = test_meta();
    let id = store.insert_file(&meta).unwrap();
    let retrieved = store.get_file(id).unwrap();
    assert_eq!(retrieved.name, "file.rs");
    assert_eq!(retrieved.size, 1024);
}

#[test]
fn test_fts_search() {
    let mut store = SqliteStore::in_memory().unwrap();
    let meta = test_meta();
    let id = store.insert_file(&meta).unwrap();
    store
        .index_content(id, "file.rs", "/test/file.rs", "fn main() { println!(\"hello\"); }")
        .unwrap();
    let results = search_fts(&store, "main");
    assert!(!results.is_empty());
    assert_eq!(results[0].0, id);
}

#[test]
fn test_filter_by_extension() {
    let mut store = SqliteStore::in_memory().unwrap();
    let meta = test_meta();
    store.insert_file(&meta).unwrap();

    let results = store.filter_by(&[MetadataFilter::Extension(vec!["rs".to_string()])]).unwrap();
    assert_eq!(results.len(), 1);

    let results = store.filter_by(&[MetadataFilter::Extension(vec!["py".to_string()])]).unwrap();
    assert_eq!(results.len(), 0);
}

#[test]
fn test_delete_file() {
    let mut store = SqliteStore::in_memory().unwrap();
    let meta = test_meta();
    let id = store.insert_file(&meta).unwrap();
    store.delete_file(id).unwrap();
    assert!(store.get_file(id).is_err());
}

#[test]
fn test_sqlite_full_workflow() {
    let mut store = SqliteStore::in_memory().unwrap();

    let meta1 = FileMeta {
        id: None,
        path: "/project/src/main.rs".to_string(),
        name: "main.rs".to_string(),
        extension: Some("rs".to_string()),
        size: 2048,
        hash: "hash1".to_string(),
        created_at: 1700000000,
        modified_at: 1700100000,
        indexed_at: 1700200000,
        mime_type: Some("text/x-rust".to_string()),
    };
    let meta2 = FileMeta {
        id: None,
        path: "/project/src/lib.rs".to_string(),
        name: "lib.rs".to_string(),
        extension: Some("rs".to_string()),
        size: 1024,
        hash: "hash2".to_string(),
        created_at: 1700000000,
        modified_at: 1700050000,
        indexed_at: 1700200000,
        mime_type: Some("text/x-rust".to_string()),
    };
    let meta3 = FileMeta {
        id: None,
        path: "/project/README.md".to_string(),
        name: "README.md".to_string(),
        extension: Some("md".to_string()),
        size: 512,
        hash: "hash3".to_string(),
        created_at: 1700000000,
        modified_at: 1700000000,
        indexed_at: 1700200000,
        mime_type: Some("text/markdown".to_string()),
    };

    let id1 = store.insert_file(&meta1).unwrap();
    let id2 = store.insert_file(&meta2).unwrap();
    let id3 = store.insert_file(&meta3).unwrap();

    store
        .index_content(
            id1,
            "main.rs",
            "/project/src/main.rs",
            "fn main() { let server = Server::new(8080); server.start(); }",
        )
        .unwrap();
    store
        .index_content(id2, "lib.rs", "/project/src/lib.rs", "pub mod server; pub mod config; pub mod router;")
        .unwrap();
    store
        .index_content(id3, "README.md", "/project/README.md", "# My Project\nA web server written in Rust.")
        .unwrap();

    let results = search_fts(&store, "server");
    assert!(results.len() >= 1, "Should find files mentioning 'server'");

    let rs_files = store.filter_by(&[MetadataFilter::Extension(vec!["rs".to_string()])]).unwrap();
    assert_eq!(rs_files.len(), 2, "Should find 2 .rs files");

    let recent = store
        .filter_by(&[MetadataFilter::DateRange { start: 1700080000, end: 1700200000 }])
        .unwrap();
    assert!(recent.len() >= 1, "Should find recently modified files");

    assert_eq!(store.file_count().unwrap(), 3);

    store.delete_file(id3).unwrap();
    assert_eq!(store.file_count().unwrap(), 2);
}

#[test]
fn sqlite_round_trips_a_unicode_file_name() {
    let mut store = SqliteStore::in_memory().unwrap();
    let mut meta = test_meta();
    meta.name = "보고서_2024.txt".to_string();
    meta.path = "/test/보고서_2024.txt".to_string();
    let id = store.insert_file(&meta).unwrap();
    let retrieved = store.get_file(id).unwrap();
    assert_eq!(retrieved.name, "보고서_2024.txt");
    assert_eq!(retrieved.id, Some(id));
    assert_eq!(retrieved.extension, Some("rs".to_string()));
    assert_eq!(retrieved.mime_type, Some("text/x-rust".to_string()));
}

#[test]
fn get_file_of_a_missing_id_names_it() {
    let mut store = SqliteStore::in_memory().unwrap();
    match store.get_file(-7) {
        Err(StorageError::FileNotFound(m)) => assert_eq!(m, "file id: -7"),
        _ => panic!("expected FileNotFound"),
    }
    match store.get_file_by_path("/nowhere") {
        Err(StorageError::FileNotFound(m)) => assert_eq!(m, "/nowhere"),
        _ => panic!("expected FileNotFound"),
    }
}

#[test]
fn update_of_a_missing_file_is_not_found() {
    let mut store = SqliteStore::in_memory().unwrap();
    match store.update_file(42, &test_meta()) {
        Err(StorageError::FileNotFound(m)) => assert_eq!(m, "file id: 42"),
        _ => panic!("expected FileNotFound"),
    }
    let id = store.insert_file(&test_meta()).unwrap();
    let mut meta = test_meta();
    meta.hash = "def456".to_string();
    store.update_file(id, &meta).unwrap();
    assert_eq!(store.get_file(id).unwrap().hash, "def456");
}

#[test]
fn file_hash_is_none_for_an_unknown_path() {
    let mut store = SqliteStore::in_memory().unwrap();
    assert_eq!(store.get_file_hash("/test/file.rs").unwrap(), None);
    store.insert_file(&test_meta()).unwrap();
    assert_eq!(store.get_file_hash("/test/file.rs").unwrap(), Some("abc123".to_string()));
    assert_eq!(store.get_file_by_path("/test/file.rs").unwrap().size, 1024);
    assert_eq!(store.list_all_files().unwrap().len(), 1);
}

#[test]
fn outcomes_map_database_results() {
    assert!(matches!(update_outcome(3, Ok(0)), Err(StorageError::FileNotFound(ref m)) if m == "file id: 3"));
    assert!(update_outcome(3, Ok(1)).is_ok());
    assert!(matches!(update_outcome(3, Err(rusqlite::Error::InvalidQuery)), Err(StorageError::Sqlite(_))));
    assert_eq!(hash_outcome(Ok("h".to_string())).unwrap(), Some("h".to_string()));
    assert_eq!(hash_outcome(Err(rusqlite::Error::QueryReturnedNoRows)).unwrap(), None);
    assert!(matches!(hash_outcome(Err(rusqlite::Error::InvalidQuery)), Err(StorageError::Sqlite(_))));
}

#[test]
fn chunks_are_stored_and_read_back_in_order() {
    let mut store = SqliteStore::in_memory().unwrap();
    let file_id = store.insert_file(&test_meta()).unwrap();
    for (i, text) in ["fn a() {}", "fn b() {}"].iter().enumerate() {
        let chunk = Chunk {
            id: None,
            file_id,
            chunk_index: i,
            parent_chunk_id: None,
            content: text.to_string(),
            chunk_type: ChunkType::Function,
            start_line: Some(i),
            end_line: None,
            metadata: std::collections::HashMap::new(),
        };
        store.insert_chunk(&chunk).unwrap();
    }
    let chunks = store.get_chunks_for_file(file_id).unwrap();
    assert_eq!(chunks.len(), 2);
    assert_eq!(chunks[1].content, "fn b() {}");
    assert_eq!(chunks[1].chunk_type, ChunkType::Function);
    assert_eq!(chunks[1].start_line, Some(1));
    assert_eq!(chunks[1].end_line, None);
    store.delete_chunks_for_file(file_id).unwrap();
    assert!(store.get_chunks_for_file(file_id).unwrap().is_empty());
}

#[test]
fn acl_rules_keep_their_permission() {
    let mut store = SqliteStore::in_memory().unwrap();
    let rule = AclRule {
        id: None,
        pattern: "secret/*".to_string(),
        permission: Permission::Deny,
        mount_point: "/mnt/s".to_string(),
    };
    let id = store.insert_acl_rule(&rule).unwrap();
    let rules = store.get_acl_rules("/mnt/s").unwrap();
    assert_eq!(rules.len(), 1);
    assert_eq!(rules[0].id, Some(id));
    assert_eq!(rules[0].permission, Permission::Deny);
    assert!(store.get_acl_rules("/mnt/other").unwrap().is_empty());
}

#[test]
fn filter_query_numbers_placeholders_in_order() {
    let (sql, params) = filter_query(&[
        MetadataFilter::DateRange { start: 10, end: 20 },
        MetadataFilter::Extension(vec!["rs".to_string(), "py".to_string()]),
        MetadataFilter::Size { min: Some(5), max: Some(9) },
        MetadataFilter::MimeType(vec!["text/plain".to_string()]),
        MetadataFilter::PathPrefix("/src".to_string()),
    ]);
    assert_eq!(
        sql,
        "SELECT id FROM files WHERE modified_at >= ?1 AND modified_at <= ?2 AND extension IN (?3,?4) \
         AND size >= ?5 AND size <= ?6 AND mime_type IN (?7) AND path LIKE ?8"
    );
    assert_eq!(
        params,
        vec![
            SqlValue::Integer(10),
            SqlValue::Integer(20),
            SqlValue::Text("rs".to_string()),
            SqlValue::Text("py".to_string()),
            SqlValue::Integer(5),
            SqlValue::Integer(9),
            SqlValue::Text("text/plain".to_string()),
            SqlValue::Text("/src%".to_string()),
        ]
    );
}

#[test]
fn filter_query_without_filters_selects_all() {
    let (sql, params) = filter_query(&[]);
    assert_eq!(sql, "SELECT id FROM files ");
    assert!(params.is_empty());
    let (sql, params) = filter_query(&[MetadataFilter::Size { min: None, max: Some(u64::MAX) }]);
    assert_eq!(sql, "SELECT id FROM files WHERE size <= ?1");
    assert_eq!(params, vec![SqlValue::Integer(-1)]);
}

#[test]
fn filter_by_size_and_prefix() {
    let mut store = SqliteStore::in_memory().unwrap();
    store.insert_file(&test_meta()).unwrap();
    let small = store.filter_by(&[MetadataFilter::Size { min: None, max: Some(100) }]).unwrap();
    assert!(small.is_empty());
    let under_test = store.filter_by(&[MetadataFilter::PathPrefix("/test".to_string())]).unwrap();
    assert_eq!(under_test.len(), 1);
}
