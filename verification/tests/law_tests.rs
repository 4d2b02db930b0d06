use semfs::crawler::crawl_directory;
use semfs::crawler::DirEntry;
use semfs::crawler::EntryKind;
use semfs::chunker::get_chunker;
use semfs::events::convert_change;
use semfs::events::is_path_ignored;
use semfs::events::ChangeKind;
use semfs::events::EventDebouncer;
use semfs::events::FsEvent;
use semfs::query::parse_query;
use std::time::Duration;

fn assert_parents_precede(path: &str, content: &str) {
    let chunker = get_chunker(path).unwrap();
    let chunks = chunker.chunk(path, content);
    assert!(!chunks.is_empty());
    for (i, c) in chunks.iter().enumerate() {
        if let Some(p) = c.parent_index {
            assert!(p < i, "chunk {} of {} has parent {}", i, path, p);
        }
    }
}

#[test]
fn chunk_parents_come_first() {
    assert_parents_precede(
        "README.md",
        "# Top\n\nIntro.\n\n## Setup\n\nInstall.\n\n### Deeper\n\nMore.\n",
    );
    assert_parents_precede(
        "lib.rs",
        "pub struct Config {\n    port: u16,\n}\n\nimpl Config {\n    pub fn new(port: u16) -> Self {\n        Self { port }\n    }\n}\n",
    );
}

#[test]
fn parsed_query_keeps_its_raw_input() {
    for input in ["React 프로젝트", "  spaced  ", "\"quoted words\"", "2024년 Python 코드", "\"", "최근 \u{663}일"] {
        let q = parse_query(input);
        assert_eq!(q.raw_input, input);
    }
}

#[test]
fn a_lone_quote_is_read_as_itself() {
    assert_eq!(parse_query("\"").semantic_query, "\"");
    assert_eq!(parse_query(" ' ").semantic_query, "'");
}

#[test]
fn recording_keeps_one_event_per_path() {
    let mut d = EventDebouncer::new(Duration::from_nanos(100));
    d.record_at(FsEvent::Created("/a".to_string()), 0);
    d.record_at(FsEvent::Created("/b".to_string()), 1);
    assert_eq!(d.pending_count(), 2);
    d.record_at(FsEvent::Deleted("/a".to_string()), 2);
    assert_eq!(d.pending_count(), 2);
    let batch = d.flush_all().unwrap();
    assert!(batch.events.iter().any(|e| matches!(e, FsEvent::Deleted(p) if p == "/a")));
    assert!(!batch.events.iter().any(|e| matches!(e, FsEvent::Created(p) if p == "/a")));
}

#[test]
fn flushing_loses_no_event() {
    let mut d = EventDebouncer::new(Duration::from_nanos(100));
    d.record_at(FsEvent::Created("/a".to_string()), 0);
    d.record_at(FsEvent::Created("/b".to_string()), 150);
    d.record_at(FsEvent::Created("/c".to_string()), 190);
    let released = d.flush_ready_at(200).map(|b| b.len()).unwrap_or(0);
    assert_eq!(released, 1);
    assert_eq!(released + d.pending_count(), 3);
}

#[test]
fn watcher_changes_become_events() {
    let paths = vec!["/a".to_string(), "/b".to_string()];
    let renamed = convert_change(ChangeKind::Rename, &paths);
    assert_eq!(renamed.len(), 1);
    assert!(matches!(&renamed[0], FsEvent::Renamed { from, to } if from == "/a" && to == "/b"));
    let three = vec!["/a".to_string(), "/b".to_string(), "/c".to_string()];
    let modified = convert_change(ChangeKind::Rename, &three);
    assert_eq!(modified.len(), 3);
    assert!(modified.iter().all(|e| matches!(e, FsEvent::Modified(_))));
    assert!(convert_change(ChangeKind::Other, &paths).is_empty());
    let created = convert_change(ChangeKind::Create, &paths);
    assert!(matches!(&created[1], FsEvent::Created(p) if p == "/b"));
    assert!(is_path_ignored("/repo/target/x.o", &vec!["target".to_string()]));
    assert!(!is_path_ignored("/repo/src/x.rs", &vec!["target".to_string()]));
}

#[test]
fn text_chunks_hold_together() {
    let text = "# Top\n\n  First words.  \nmore\n\n## Sub\n\nLast.\n";
    let chunks = get_chunker("notes.md").unwrap().chunk("notes.md", text);
    let n = text.lines().count();
    assert!(!chunks.is_empty());
    for (i, c) in chunks.iter().enumerate() {
        if let Some(j) = c.parent_index {
            assert!(j < i);
            assert!(matches!(chunks[j].chunk_type, semfs::types::ChunkType::Section));
        }
        if matches!(c.chunk_type, semfs::types::ChunkType::Section) {
            assert!(c.parent_index.is_none());
        }
        let (s, e) = (c.start_line.unwrap(), c.end_line.unwrap());
        assert!(s <= e && e < n);
        if matches!(c.chunk_type, semfs::types::ChunkType::Paragraph) {
            assert_eq!(c.content, c.content.trim());
            assert!(!c.content.is_empty());
        }
    }
    assert!(get_chunker("empty.md").unwrap().chunk("empty.md", "").is_empty());
}

#[test]
fn a_crawl_yields_each_file_once() {
    let file = |p: &str, n: &str| DirEntry { name: n.to_string(), path: p.to_string(), kind: EntryKind::File(Some(10)) };
    let tree = vec![
        file("/r/a.txt", "a.txt"),
        DirEntry {
            name: "sub".to_string(),
            path: "/r/sub".to_string(),
            kind: EntryKind::Directory(vec![file("/r/sub/b.txt", "b.txt"), file("/r/sub/.c", ".c")]),
        },
        DirEntry {
            name: ".git".to_string(),
            path: "/r/.git".to_string(),
            kind: EntryKind::Directory(vec![file("/r/.git/d", "d")]),
        },
    ];
    let files = crawl_directory(&tree, &[], 100);
    assert_eq!(files, vec!["/r/a.txt".to_string(), "/r/sub/b.txt".to_string()]);
}
