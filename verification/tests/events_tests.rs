use semfs::paths::same_path;
use semfs::events::watch_refusal;
use semfs::events::WatchRefusal;
use semfs::events::EventBatch;
use semfs::events::EventDebouncer;
use semfs::events::FsEvent;
use std::time::Duration;

#[test]
fn test_debounce_deduplicates() {
    let mut debouncer = EventDebouncer::new(Duration::from_secs(10));
    debouncer.add_event(FsEvent::Modified("/a.txt".to_string()));
    debouncer.add_event(FsEvent::Modified("/a.txt".to_string()));
    assert_eq!(debouncer.pending_count(), 1);
    let batch = debouncer.flush_all().unwrap();
    assert_eq!(batch.len(), 1);
}

#[test]
fn test_debounce_holds_events() {
    let mut debouncer = EventDebouncer::new(Duration::from_secs(10));
    debouncer.add_event(FsEvent::Created("/a.txt".to_string()));
    let batch = debouncer.flush_ready();
    assert!(batch.is_none());
    assert_eq!(debouncer.pending_count(), 1);
}

#[test]
fn test_flush_all() {
    let mut debouncer = EventDebouncer::new(Duration::from_secs(10));
    debouncer.add_event(FsEvent::Created("/a.txt".to_string()));
    debouncer.add_event(FsEvent::Modified("/b.txt".to_string()));
    let batch = debouncer.flush_all().unwrap();
    assert_eq!(batch.len(), 2);
    assert_eq!(debouncer.pending_count(), 0);
}

#[test]
fn record_and_flush_at_given_times() {
    let mut d = EventDebouncer::new(Duration::from_nanos(100));
    d.record_at(FsEvent::Created("/a".to_string()), 0);
    d.record_at(FsEvent::Created("/b".to_string()), 50);
    d.record_at(FsEvent::Modified("/a".to_string()), 60);
    assert_eq!(d.pending_count(), 2);
    assert!(d.flush_ready_at(120).is_none());
    let batch = d.flush_ready_at(155).unwrap();
    assert_eq!(batch.events.len(), 1);
    assert_eq!(batch.events[0].path(), "/b");
    assert_eq!(d.pending_count(), 1);
    let batch = d.flush_ready_at(160).unwrap();
    assert!(matches!(&batch.events[0], FsEvent::Modified(p) if p == "/a"));
    assert!(d.flush_all().is_none());
}

#[test]
fn zero_wait_releases_at_once() {
    let mut d = EventDebouncer::new(Duration::from_secs(0));
    let batch = d.add_event(FsEvent::Deleted("/x".to_string())).unwrap();
    assert_eq!(batch.len(), 1);
    assert!(!batch.is_empty());
    assert_eq!(d.pending_count(), 0);
}

#[test]
fn event_paths_and_kinds() {
    let r = FsEvent::Renamed { from: "/old".to_string(), to: "/new".to_string() };
    assert_eq!(r.path(), "/new");
    assert!(!r.is_modification());
    assert!(FsEvent::Created("/c".to_string()).is_modification());
    assert!(FsEvent::Modified("/m".to_string()).is_modification());
    assert!(!FsEvent::Deleted("/d".to_string()).is_modification());
    let b = EventBatch::new(vec![]);
    assert!(b.is_empty());
    assert_eq!(b.len(), 0);
}

#[test]
fn paths_that_differ_only_in_separators_are_one_path() {
    let mut d = EventDebouncer::with_nanos(100);
    d.record_at(FsEvent::Modified("/a/b/".to_string()), 0);
    d.record_at(FsEvent::Modified("/a//b".to_string()), 5);
    d.record_at(FsEvent::Modified("/a/./b".to_string()), 7);
    assert_eq!(d.pending_count(), 1);
    d.record_at(FsEvent::Modified("a/b".to_string()), 8);
    assert_eq!(d.pending_count(), 2);
    let batch = d.flush_ready_at(107).unwrap();
    assert_eq!(batch.len(), 1);
    assert_eq!(batch.events[0].path(), "/a/./b");
    assert_eq!(d.pending_count(), 1);
}

#[test]
fn paths_are_compared_by_components() {
    assert!(same_path("/a/b/", "/a/b"));
    assert!(same_path("/a//b", "/a/./b"));
    assert!(same_path("./a", "./a/"));
    assert!(!same_path("./a", "a"));
    assert!(!same_path("/a", "a"));
    assert!(!same_path("/a/../b", "/b"));
    assert!(same_path("a/.", "a"));
}

#[test]
fn a_watch_is_refused_while_running_or_without_the_path() {
    assert!(matches!(watch_refusal(true, false, "/x"), Some(WatchRefusal::AlreadyRunning)));
    match watch_refusal(false, false, "/x") {
        Some(WatchRefusal::PathNotFound(p)) => assert_eq!(p, "/x"),
        _ => panic!("expected PathNotFound"),
    }
    assert!(watch_refusal(false, true, "/x").is_none());
}

#[test]
fn test_watcher_invalid_path() {
    let path = std::path::Path::new("/nonexistent/path/12345");
    let result = watch_refusal(false, path.exists(), "/nonexistent/path/12345");
    assert!(result.is_some());
}
