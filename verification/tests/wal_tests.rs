use semfs::db::SqlValue;
use semfs::types::FileOperation;
use semfs::types::OperationStatus;
use semfs::wal::operation_from_record;
use semfs::wal::operation_params;
use semfs::wal::WalStore;

#[test]
fn test_wal_lifecycle() {
    let mut wal = WalStore::in_memory().unwrap();
    let op = FileOperation::Move { source: "/a".to_string(), dest: "/b".to_string() };
    let id = wal.log_operation(&op).unwrap();

    let pending = wal.recover_pending().unwrap();
    assert_eq!(pending.len(), 1);

    wal.mark_executing(id).unwrap();
    wal.mark_completed(id).unwrap();

    let pending = wal.recover_pending().unwrap();
    assert!(pending.is_empty());
}

#[test]
fn test_wal_recovery() {
    let mut wal = WalStore::in_memory().unwrap();
    let op1 = FileOperation::Delete { path: "/x".to_string() };
    let op2 = FileOperation::Copy { source: "/a".to_string(), dest: "/b".to_string() };
    wal.log_operation(&op1).unwrap();
    let id2 = wal.log_operation(&op2).unwrap();
    wal.mark_executing(id2).unwrap();

    let pending = wal.recover_pending().unwrap();
    assert_eq!(pending.len(), 2);
}

#[test]
fn test_wal_crash_recovery_simulation() {
    let mut wal = WalStore::in_memory().unwrap();
    let op1 = FileOperation::Move { source: "/a.txt".to_string(), dest: "/b.txt".to_string() };
    let op2 = FileOperation::Copy { source: "/c.txt".to_string(), dest: "/d.txt".to_string() };

    let id1 = wal.log_operation(&op1).unwrap();
    let id2 = wal.log_operation(&op2).unwrap();

    wal.mark_executing(id1).unwrap();

    let pending = wal.recover_pending().unwrap();
    assert_eq!(pending.len(), 2, "Should find both pending operations");

    wal.mark_completed(id1).unwrap();
    wal.mark_failed(id2).unwrap();

    let still_pending = wal.recover_pending().unwrap();
    assert_eq!(still_pending.len(), 0, "No more pending after recovery");
}

#[test]
fn recovered_entries_read_back_what_was_logged() {
    let mut wal = WalStore::in_memory().unwrap();
    let id1 = wal
        .log_operation(&FileOperation::Move { source: "/a".to_string(), dest: "/b".to_string() })
        .unwrap();
    let id2 = wal
        .log_operation(&FileOperation::Write { path: "/w".to_string(), data: vec![1, 2, 3] })
        .unwrap();
    wal.mark_executing(id2).unwrap();
    let pending = wal.recover_pending().unwrap();
    assert_eq!(pending.len(), 2);
    assert_eq!(pending[0].id, id1);
    assert_eq!(pending[0].status, OperationStatus::Pending);
    assert!(pending[0].completed_at.is_none());
    match &pending[0].operation {
        FileOperation::Move { source, dest } => {
            assert_eq!(source, "/a");
            assert_eq!(dest, "/b");
        }
        _ => panic!("expected a move"),
    }
    assert_eq!(pending[1].status, OperationStatus::Executing);
    match &pending[1].operation {
        FileOperation::Write { path, data } => {
            assert_eq!(path, "/w");
            assert!(data.is_empty());
        }
        _ => panic!("expected a write"),
    }
}

#[test]
fn cleanup_removes_only_old_completed_entries() {
    let mut wal = WalStore::in_memory().unwrap();
    let id = wal.log_operation(&FileOperation::Delete { path: "/x".to_string() }).unwrap();
    wal.mark_completed(id).unwrap();
    assert_eq!(wal.cleanup_completed(0).unwrap(), 0);
    assert_eq!(wal.cleanup_completed(i64::MAX).unwrap(), 1);
}

#[test]
fn operation_records_name_kind_source_and_dest() {
    let p = operation_params(&FileOperation::Copy { source: "/s".to_string(), dest: "/d".to_string() }, 77);
    assert_eq!(
        p,
        vec![
            SqlValue::Text("copy".to_string()),
            SqlValue::Text("/s".to_string()),
            SqlValue::Text("/d".to_string()),
            SqlValue::Integer(77),
        ]
    );
    let p = operation_params(&FileOperation::Write { path: "/w".to_string(), data: vec![9] }, 1);
    assert_eq!(p[0], SqlValue::Text("write".to_string()));
    assert_eq!(p[2], SqlValue::Null);
}

#[test]
fn unknown_record_kind_reads_as_delete() {
    match operation_from_record("rename", "/s".to_string(), Some("/d".to_string())) {
        FileOperation::Delete { path } => assert_eq!(path, "/s"),
        _ => panic!("expected a delete"),
    }
    match operation_from_record("move", "/s".to_string(), None) {
        FileOperation::Move { source, dest } => {
            assert_eq!(source, "/s");
            assert_eq!(dest, "");
        }
        _ => panic!("expected a move"),
    }
}
