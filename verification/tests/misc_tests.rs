use semfs::inodes::change_plan;
use semfs::inodes::ChangePlan;
use semfs::ranking::order_by_name;
use semfs::ranking::order_by_time;
use semfs::ranking::select_ranked;
use semfs::config::config_key;
use semfs::config::ConfigKey;
use semfs::embed::ollama_dimensions;
use semfs::embed::onnx_token_ids;
use semfs::config::checked_size;
use semfs::config::parse_size;
use semfs::config::EmbeddingConfig;
use semfs::config::IndexConfig;
use semfs::config::SourceConfig;
use semfs::embed::NoopEmbedder;
use semfs::errors::FuseError;
use semfs::indexing::compute_hash;
use semfs::indexing::detect_mime_type;
use semfs::indexing::file_meta_for;
use semfs::indexing::hex_lower;
use semfs::indexing::tally;
use semfs::indexing::wants_embedding;
use semfs::indexing::FileOutcome;
use semfs::inodes::child_semantic_path;
use semfs::inodes::write_plan;
use semfs::inodes::InodeTable;
use semfs::inodes::WritePlan;
use semfs::inodes::ROOT_INO;
use semfs::mount::create_provider;
use semfs::mount::FuseProvider;
use semfs::mount::MountOptions;
use semfs::mount::WindowsFuseProvider;
use semfs::numbers::i64_text;
use semfs::chunker::ChunkData;
use semfs::types::ChunkType;
use semfs::types::FileOperation;
use semfs::vfs::find_entry;
use semfs::vfs::recovery_action;
use semfs::vfs::trash_name;
use semfs::vfs::RecoveryAction;
use semfs::vfs::VfsEntry;

#[test]
fn test_inode_allocation() {
    let table = InodeTable::new();
    assert!(table.get(ROOT_INO).is_some());
    assert_eq!(table.len(), 1);
}

#[test]
fn inodes_are_reused_for_the_same_name() {
    let mut table = InodeTable::new();
    let a = table.get_or_create("React", "app.tsx", Some("/src/app.tsx".to_string()), false);
    let b = table.get_or_create("React", "util.ts", None, false);
    let again = table.get_or_create("React", "app.tsx", None, true);
    assert_eq!(a, 2);
    assert_eq!(b, 3);
    assert_eq!(again, a);
    let e = table.get(a).unwrap();
    assert_eq!(e.real_path, Some("/src/app.tsx".to_string()));
    assert!(!e.is_dir);
    assert!(table.get(9).is_none());
    assert!(table.can_allocate());
}

#[test]
fn child_paths_join_with_a_slash() {
    assert_eq!(child_semantic_path("", "React"), "React");
    assert_eq!(child_semantic_path("React", "2024년"), "React/2024년");
}

#[test]
fn write_plans() {
    assert_eq!(write_plan(true, true, true, 0, true), WritePlan::Denied);
    assert_eq!(write_plan(false, false, true, 0, true), WritePlan::NotFound);
    assert_eq!(write_plan(false, true, false, 0, true), WritePlan::Denied);
    assert_eq!(write_plan(false, true, true, 0, true), WritePlan::Logged);
    assert_eq!(write_plan(false, true, true, 0, false), WritePlan::Denied);
    assert_eq!(write_plan(false, true, true, 5, false), WritePlan::Direct);
}

#[test]
fn sizes_are_read_in_powers_of_1024() {
    assert_eq!(parse_size("50MB"), Some(52428800));
    assert_eq!(parse_size(" 2 gb "), Some(2147483648));
    assert_eq!(parse_size("3kb"), Some(3072));
    assert_eq!(parse_size("1234"), Some(1234));
    assert_eq!(parse_size("+7KB"), Some(7168));
    assert_eq!(parse_size("abc"), None);
    assert_eq!(parse_size("MB"), None);
    assert_eq!(parse_size("-1MB"), None);
    assert_eq!(checked_size("16GB"), Some(Some(17179869184)));
    assert_eq!(checked_size("17179869184GB"), None);
    assert_eq!(checked_size("x"), Some(None));
}

#[test]
fn configuration_defaults() {
    let s = SourceConfig::default();
    assert!(s.paths.is_empty());
    assert_eq!(s.ignore, vec!["node_modules", ".git", "dist", "__pycache__", "*.lock", "target"]);
    assert_eq!(s.max_file_size, "50MB");
    let e = EmbeddingConfig::default();
    assert_eq!(e.provider, "auto");
    assert_eq!(e.model, "multilingual-e5-base");
    assert_eq!(e.batch_size, 100);
    assert_eq!(e.dimensions, 768);
    let i = IndexConfig::default();
    assert!(i.watch);
    assert_eq!(i.interval, "5s");
}

#[test]
fn noop_embedder_has_no_model() {
    let e = NoopEmbedder::new();
    assert!(e.is_noop());
    assert_eq!(e.dimensions(), 0);
    assert_eq!(e.model_name(), "noop");
}

#[test]
fn windows_cannot_mount() {
    let p = WindowsFuseProvider::new();
    match p.mount("/src", "/mnt", &MountOptions::default()) {
        Err(FuseError::Mount(m)) => assert!(m.contains("not yet implemented")),
        _ => panic!("expected a mount error"),
    }
    assert!(matches!(p.unmount("/mnt"), Err(FuseError::UnsupportedPlatform)));
    assert!(!p.is_mounted("/mnt"));
    assert!(matches!(create_provider(), Err(FuseError::UnsupportedPlatform)));
    let o = MountOptions::default();
    assert!(!o.read_only && !o.allow_other && o.auto_unmount);
    assert_eq!(o.max_results, 100);
}

#[test]
fn decimal_text_of_integers() {
    assert_eq!(i64_text(0), "0");
    assert_eq!(i64_text(-42), "-42");
    assert_eq!(i64_text(i64::MIN), "-9223372036854775808");
    assert_eq!(i64_text(i64::MAX), "9223372036854775807");
}

#[test]
fn content_hash_is_sha256_in_hex() {
    assert_eq!(
        compute_hash(""),
        "e3b0c44298fc1c149afbf4c8996fb92427ae41e4649b934ca495991b7852b855"
    );
    assert_eq!(
        compute_hash("abc"),
        "ba7816bf8f01cfea414140de5dae2223b00361a396177a9cb410ff61f20015ad"
    );
    assert_eq!(hex_lower(&[0, 15, 16, 255]), "000f10ff");
}

#[test]
fn mime_types_by_extension() {
    assert_eq!(detect_mime_type("/a/b.rs"), Some("text/x-rust".to_string()));
    assert_eq!(detect_mime_type("x.tsx"), Some("text/typescript".to_string()));
    assert_eq!(detect_mime_type("data.yml"), Some("text/yaml".to_string()));
    assert_eq!(detect_mime_type("photo.png"), Some("application/octet-stream".to_string()));
    assert_eq!(detect_mime_type("Makefile"), None);
    assert_eq!(detect_mime_type(".bashrc"), None);
}

#[test]
fn file_metadata_from_the_path() {
    let m = file_meta_for("/docs/notes.md", 12, "h", 1, 2, 3);
    assert_eq!(m.id, None);
    assert_eq!(m.name, "notes.md");
    assert_eq!(m.extension, Some("md".to_string()));
    assert_eq!(m.mime_type, Some("text/markdown".to_string()));
    assert_eq!((m.size, m.created_at, m.modified_at, m.indexed_at), (12, 1, 2, 3));
    let m = file_meta_for("/", 0, "h", 0, 0, 0);
    assert_eq!(m.name, "unknown");
    assert_eq!(m.extension, None);
}

#[test]
fn only_non_blank_chunks_are_embedded() {
    let cd = |s: &str| ChunkData {
        content: s.to_string(),
        chunk_type: ChunkType::Paragraph,
        parent_index: None,
        start_line: None,
        end_line: None,
        name: None,
    };
    assert!(wants_embedding(true, &cd("text")));
    assert!(!wants_embedding(true, &cd(" \n\t")));
    assert!(!wants_embedding(false, &cd("text")));
}

#[test]
fn tally_counts_each_outcome() {
    let s = tally(
        5,
        &[FileOutcome::Indexed, FileOutcome::Skipped, FileOutcome::Indexed, FileOutcome::Failed],
    );
    assert_eq!((s.total_files, s.indexed, s.skipped, s.errors), (5, 2, 1, 1));
}

#[test]
fn resolve_finds_the_first_entry_by_name() {
    let e = |n: &str, p: &str| VfsEntry { name: n.to_string(), real_path: p.to_string(), is_dir: false, size: 0 };
    let entries = vec![e("a.rs", "/x/a.rs"), e("b.rs", "/x/b.rs"), e("a.rs", "/y/a.rs")];
    assert_eq!(find_entry(&entries, "a.rs"), Some("/x/a.rs".to_string()));
    assert_eq!(find_entry(&entries, "c.rs"), None);
}

#[test]
fn recovery_decisions() {
    let mv = FileOperation::Move { source: "/a".to_string(), dest: "/b".to_string() };
    assert_eq!(recovery_action(&mv, false, true), RecoveryAction::MarkCompleted);
    assert_eq!(recovery_action(&mv, true, true), RecoveryAction::RetryMove);
    assert_eq!(recovery_action(&mv, false, false), RecoveryAction::MarkFailed);
    let cp = FileOperation::Copy { source: "/a".to_string(), dest: "/b".to_string() };
    assert_eq!(recovery_action(&cp, true, true), RecoveryAction::MarkCompleted);
    assert_eq!(recovery_action(&cp, true, false), RecoveryAction::RetryCopy);
    assert_eq!(recovery_action(&cp, false, false), RecoveryAction::MarkFailed);
    let del = FileOperation::Delete { path: "/a".to_string() };
    assert_eq!(recovery_action(&del, false, false), RecoveryAction::MarkCompleted);
    assert_eq!(recovery_action(&del, true, false), RecoveryAction::MarkFailed);
    let w = FileOperation::Write { path: "/a".to_string(), data: vec![] };
    assert_eq!(recovery_action(&w, true, false), RecoveryAction::MarkFailed);
    let w = FileOperation::Write { path: "/a".to_string(), data: vec![1] };
    assert_eq!(recovery_action(&w, true, false), RecoveryAction::RetryWrite);
}

#[test]
fn trash_names_carry_the_time_and_file_name() {
    assert_eq!(trash_name(1700000000, "/home/u/report.pdf"), "1700000000_report.pdf");
    assert_eq!(trash_name(-5, "/"), "-5_unknown");
}

#[test]
fn config_keys_by_either_name() {
    assert_eq!(config_key("model"), Some(ConfigKey::Model));
    assert_eq!(config_key("embedding.model"), Some(ConfigKey::Model));
    assert_eq!(config_key("search.alpha"), Some(ConfigKey::Alpha));
    assert_eq!(config_key("index.watch"), Some(ConfigKey::Watch));
    assert_eq!(config_key("colour"), None);
    assert_eq!(semfs::config::parse_ignore_list(" a, b ,c"), vec!["a", "b", "c"]);
}

#[test]
fn embedder_dimensions_and_tokens() {
    assert_eq!(ollama_dimensions("all-minilm"), 384);
    assert_eq!(ollama_dimensions("mxbai-embed-large"), 1024);
    assert_eq!(ollama_dimensions("anything"), 768);
    assert_eq!(onnx_token_ids("ab"), vec![101, 197, 198, 102]);
    assert_eq!(onnx_token_ids(&"x".repeat(600)).len(), 512);
    assert_eq!(onnx_token_ids("가")[1], (0xAC00 % 30000 + 100) as i64);
}

#[test]
fn fts_phrases_double_inner_quotes() {
    assert_eq!(semfs::store::fts_phrase("main"), "\"main\"");
    assert_eq!(semfs::store::fts_phrase("say \"hi\""), "\"say \"\"hi\"\"\"");
}

#[test]
fn ranked_results_are_filtered_then_cut() {
    let fused = vec![(1i64, 0.9f32), (2, 0.8), (3, 0.7), (4, 0.6)];
    assert_eq!(select_ranked(&fused, &None, 2), vec![(1, 0.9), (2, 0.8)]);
    assert_eq!(select_ranked(&fused, &Some(vec![4, 2]), 5), vec![(2, 0.8), (4, 0.6)]);
    assert_eq!(select_ranked(&fused, &Some(vec![3, 4]), 1), vec![(3, 0.7)]);
    assert!(select_ranked(&fused, &Some(vec![]), 3).is_empty());
}

#[test]
fn orders_are_stable_sorts() {
    let times = vec![30i64, 10, 30, 20];
    assert_eq!(order_by_time(&times, false), vec![1, 3, 0, 2]);
    assert_eq!(order_by_time(&times, true), vec![0, 2, 3, 1]);
    let names: Vec<String> = ["b.rs", "a.rs", "b.rs", "가.rs", "B.rs"].iter().map(|s| s.to_string()).collect();
    let asc = order_by_name(&names, false);
    let mut expected: Vec<usize> = (0..names.len()).collect();
    expected.sort_by(|a, b| names[*a].cmp(&names[*b]));
    assert_eq!(asc, expected);
    let desc = order_by_name(&names, true);
    let mut expected: Vec<usize> = (0..names.len()).collect();
    expected.sort_by(|a, b| names[*b].cmp(&names[*a]));
    assert_eq!(desc, expected);
}

#[test]
fn renames_and_unlinks_are_refused_on_a_read_only_view() {
    assert_eq!(change_plan(true, true, true), ChangePlan::Denied);
    assert_eq!(change_plan(true, false, false), ChangePlan::Denied);
    assert_eq!(change_plan(false, false, true), ChangePlan::NotFound);
    assert_eq!(change_plan(false, true, false), ChangePlan::Denied);
    assert_eq!(change_plan(false, true, true), ChangePlan::Handled);
}
