use semfs::crawler::crawl_directory;
use semfs::crawler::should_ignore;
use semfs::crawler::DirEntry;
use semfs::crawler::EntryKind;

#[test]
fn test_should_ignore() {
    assert!(should_ignore(".git", "/repo/.git", &[]));
    assert!(should_ignore("node_modules", "/repo/node_modules", &["node_modules".to_string()]));
    assert!(should_ignore("package-lock.json", "/repo/package-lock.json", &["*.lock".to_string()]));
    assert!(!should_ignore("src", "/repo/src", &["node_modules".to_string()]));
}

#[test]
fn suffix_patterns_match_name_endings() {
    let pats = vec!["*~".to_string()];
    assert!(should_ignore("notes.txt~", "/r/notes.txt~", &pats));
    assert!(!should_ignore("notes.txt", "/r/notes.txt", &pats));
}

#[test]
fn plain_patterns_match_the_path() {
    let pats = vec!["target".to_string()];
    assert!(should_ignore("x.rs", "/repo/target/x.rs", &pats));
    assert!(!should_ignore("x.rs", "/repo/src/x.rs", &pats));
}

fn file(name: &str, dir: &str, size: Option<u64>) -> DirEntry {
    DirEntry { name: name.to_string(), path: format!("{}/{}", dir, name), kind: EntryKind::File(size) }
}

#[test]
fn crawl_skips_ignored_hidden_and_large() {
    let sub = DirEntry {
        name: "src".to_string(),
        path: "/r/src".to_string(),
        kind: EntryKind::Directory(vec![file("main.rs", "/r/src", Some(10)), file(".hidden", "/r/src", Some(1))]),
    };
    let ignored_dir = DirEntry {
        name: "node_modules".to_string(),
        path: "/r/node_modules".to_string(),
        kind: EntryKind::Directory(vec![file("x.js", "/r/node_modules", Some(1))]),
    };
    let root = vec![
        file("README.md", "/r", Some(5)),
        sub,
        ignored_dir,
        file("big.bin", "/r", Some(1000)),
        file("unknown.txt", "/r", None),
        DirEntry { name: "link".to_string(), path: "/r/link".to_string(), kind: EntryKind::Other },
    ];
    let files = crawl_directory(&root, &["node_modules".to_string()], 100);
    assert_eq!(files, vec!["/r/README.md", "/r/src/main.rs", "/r/unknown.txt"]);
}
