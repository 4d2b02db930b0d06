//! The virtual directory tree and its write operations: the entries a
//! semantic directory lists, the file a name resolves to, what to do with
//! each pending operation after a crash, and where deleted files go.
use vstd::prelude::*;
use crate::numbers::i64_text;
use crate::numbers::int_text;
use crate::paths::file_name;
use crate::paths::file_name_of;
use crate::strings::chars_eq_str;
use crate::strings::chars_of;
use crate::strings::extend_chars;
use crate::strings::string_of;
use crate::types::FileOperation;

verus! {

/// An entry of a semantic directory: a file found by the query.
#[derive(Debug, Clone)]
pub struct VfsEntry {
    pub name: String,
    pub real_path: String,
    pub is_dir: bool,
    pub size: u64,
}

/// The position of the first entry named `name`, if any.
pub open spec fn first_named(entries: Seq<VfsEntry>, name: Seq<char>) -> Option<int> {
    if exists|i: int| 0 <= i < entries.len() && entries[i].name@ == name {
        Some(
            choose|i: int|
                0 <= i < entries.len() && entries[i].name@ == name && forall|j: int|
                    0 <= j < i ==> entries[j].name@ != name,
        )
    } else {
        None
    }
}

/// The real path of the first of `entries` named `filename`.
pub fn find_entry(entries: &Vec<VfsEntry>, filename: &str) -> (r: Option<String>)
    ensures
        match first_named(entries@, filename@) {
            Some(i) => r matches Some(p) && p@ == entries@[i].real_path@,
            None => r is None,
        },
{
    let f = chars_of(filename);
    let mut i: usize = 0;
    while i < entries.len()
        invariant
            i <= entries.len(),
            f@ == filename@,
            forall|j: int| 0 <= j < i ==> entries@[j].name@ != filename@,
        decreases entries.len() - i,
    {
        if chars_eq_str(&f, entries[i].name.as_str()) {
            assert(first_named(entries@, filename@) == Some(i as int)) by {
                let k = choose|k: int|
                    0 <= k < entries@.len() && entries@[k].name@ == filename@ && forall|j: int|
                        0 <= j < k ==> entries@[j].name@ != filename@;
                if k < i {
                } else if k > i {
                    assert(entries@[i as int].name@ == filename@);
                }
            }
            return Some(entries[i].real_path.clone());
        }
        i += 1;
    }
    None
}

/// What to do with a pending operation found after a crash.
#[derive(Debug, Clone, Copy, PartialEq, Eq, Structural)]
pub enum RecoveryAction {
    /// It had completed: mark it so.
    MarkCompleted,
    /// It cannot be finished: mark it failed.
    MarkFailed,
    /// Move the source to the destination again.
    RetryMove,
    /// Copy the source to the destination again.
    RetryCopy,
    /// Write the data again.
    RetryWrite,
}

/// What to do with a pending operation, given whether its source (or, for
/// a delete or a write, its path) and its destination exist: a move is done
/// when only the destination exists and is retried while the source
/// exists; a copy is done when the destination exists and is retried while
/// the source exists; a delete is done when the file is gone; a write is
/// retried when it has data.
pub open spec fn recovery_for(op: crate::types::FileOperationView, source_exists: bool, dest_exists: bool) -> RecoveryAction {
    match op {
        crate::types::FileOperationView::Move { .. } => if dest_exists && !source_exists {
            RecoveryAction::MarkCompleted
        } else if source_exists {
            RecoveryAction::RetryMove
        } else {
            RecoveryAction::MarkFailed
        },
        crate::types::FileOperationView::Copy { .. } => if dest_exists {
            RecoveryAction::MarkCompleted
        } else if source_exists {
            RecoveryAction::RetryCopy
        } else {
            RecoveryAction::MarkFailed
        },
        crate::types::FileOperationView::Delete { .. } => if !source_exists {
            RecoveryAction::MarkCompleted
        } else {
            RecoveryAction::MarkFailed
        },
        crate::types::FileOperationView::Write { data, .. } => if data.len() == 0 {
            RecoveryAction::MarkFailed
        } else {
            RecoveryAction::RetryWrite
        },
    }
}

/// Recovery finishes what can be finished and never redoes what is done:
/// a move whose source is still there (and whatever is at its
/// destination) is moved again, one whose source is gone and destination
/// present counts as done, and one with neither fails; a copy with its
/// destination present is done, else it is copied again while its source
/// is there; a delete is done exactly when the file is gone; a write is
/// written again exactly when it has data. So nothing is retried whose
/// source is gone, and a finished move or copy is never marked failed.
pub proof fn lemma_recovery_decisions(op: crate::types::FileOperationView, source_exists: bool, dest_exists: bool)
    ensures
        op is Move ==> {
            &&& source_exists ==> recovery_for(op, source_exists, dest_exists)
                == RecoveryAction::RetryMove
            &&& !source_exists && dest_exists ==> recovery_for(op, source_exists, dest_exists)
                == RecoveryAction::MarkCompleted
            &&& !source_exists && !dest_exists ==> recovery_for(op, source_exists, dest_exists)
                == RecoveryAction::MarkFailed
        },
        op is Copy ==> {
            &&& dest_exists ==> recovery_for(op, source_exists, dest_exists)
                == RecoveryAction::MarkCompleted
            &&& !dest_exists && source_exists ==> recovery_for(op, source_exists, dest_exists)
                == RecoveryAction::RetryCopy
            &&& !dest_exists && !source_exists ==> recovery_for(op, source_exists, dest_exists)
                == RecoveryAction::MarkFailed
        },
        op is Delete ==> (recovery_for(op, source_exists, dest_exists)
            == RecoveryAction::MarkCompleted <==> !source_exists),
        op is Delete ==> (recovery_for(op, source_exists, dest_exists)
            == RecoveryAction::MarkFailed <==> source_exists),
        op matches crate::types::FileOperationView::Write { data, .. } ==> (recovery_for(
            op,
            source_exists,
            dest_exists,
        ) == RecoveryAction::RetryWrite <==> data.len() > 0) && (recovery_for(
            op,
            source_exists,
            dest_exists,
        ) == RecoveryAction::MarkFailed <==> data.len() == 0),
        (recovery_for(op, source_exists, dest_exists) == RecoveryAction::RetryMove
            || recovery_for(op, source_exists, dest_exists) == RecoveryAction::RetryCopy)
            ==> source_exists,
{
}

/// What to do with the pending operation `op` after a crash.
pub fn recovery_action(op: &FileOperation, source_exists: bool, dest_exists: bool) -> (r:
    RecoveryAction)
    ensures
        r == recovery_for(op@, source_exists, dest_exists),
{
    match op {
        FileOperation::Move { .. } => {
            if dest_exists && !source_exists {
                RecoveryAction::MarkCompleted
            } else if source_exists {
                RecoveryAction::RetryMove
            } else {
                RecoveryAction::MarkFailed
            }
        },
        FileOperation::Copy { .. } => {
            if dest_exists {
                RecoveryAction::MarkCompleted
            } else if source_exists {
                RecoveryAction::RetryCopy
            } else {
                RecoveryAction::MarkFailed
            }
        },
        FileOperation::Delete { .. } => {
            if !source_exists {
                RecoveryAction::MarkCompleted
            } else {
                RecoveryAction::MarkFailed
            }
        },
        FileOperation::Write { data, .. } => {
            if data.len() == 0 {
                RecoveryAction::MarkFailed
            } else {
                RecoveryAction::RetryWrite
            }
        },
    }
}

/// The name under which a deleted file is kept in the trash: the time of
/// deletion, `'_'`, and the file's name (`unknown` where the path has
/// none).
pub open spec fn trash_name_of(timestamp: i64, path: Seq<char>) -> Seq<char> {
    int_text(timestamp as int) + seq!['_'] + match file_name(path) {
        Some(n) => n,
        None => "unknown"@,
    }
}

/// The name under which the file at `path`, deleted at `timestamp`, is
/// kept in the trash.
pub fn trash_name(timestamp: i64, path: &str) -> (r: String)
    ensures
        r@ == trash_name_of(timestamp, path@),
{
    let mut c = chars_of(i64_text(timestamp).as_str());
    c.push('_');
    match file_name_of(&chars_of(path)) {
        Some(n) => extend_chars(&mut c, &n),
        None => extend_chars(&mut c, &chars_of("unknown")),
    }
    assert(c@ =~= trash_name_of(timestamp, path@));
    string_of(&c)
}

} // verus!
