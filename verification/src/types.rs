//! The records that the index, the write-ahead log and the access rules are
//! made of, with the textual names under which they are stored.
use vstd::prelude::*;
use crate::strings::chars_of;
use crate::strings::chars_eq_str;

verus! {

/// Identifier of an indexed file.
pub type FileId = i64;

/// Identifier of a stored chunk.
pub type ChunkId = i64;

/// Identifier of a write-ahead log entry.
pub type WalEntryId = i64;

/// Metadata of an indexed file.
#[derive(Debug, Clone)]
pub struct FileMeta {
    pub id: Option<FileId>,
    pub path: String,
    pub name: String,
    pub extension: Option<String>,
    pub size: u64,
    pub hash: String,
    pub created_at: i64,
    pub modified_at: i64,
    pub indexed_at: i64,
    pub mime_type: Option<String>,
}

/// A stored piece of a file.
#[derive(Debug, Clone)]
pub struct Chunk {
    pub id: Option<ChunkId>,
    pub file_id: FileId,
    pub chunk_index: usize,
    pub parent_chunk_id: Option<ChunkId>,
    pub content: String,
    pub chunk_type: ChunkType,
    pub start_line: Option<usize>,
    pub end_line: Option<usize>,
    pub metadata: std::collections::HashMap<String, String>,
}

/// What part of a file a chunk stands for.
#[derive(Debug, Clone, Copy, PartialEq, Eq, Structural)]
pub enum ChunkType {
    Module,
    Class,
    Function,
    Section,
    Paragraph,
    File,
    DataKey,
}

/// The stored name of a chunk type.
pub open spec fn chunk_type_name(t: ChunkType) -> Seq<char> {
    match t {
        ChunkType::Module => "module"@,
        ChunkType::Class => "class"@,
        ChunkType::Function => "function"@,
        ChunkType::Section => "section"@,
        ChunkType::Paragraph => "paragraph"@,
        ChunkType::File => "file"@,
        ChunkType::DataKey => "data_key"@,
    }
}

/// The chunk type stored under `name`; an unknown name reads as `File`.
pub open spec fn chunk_type_named(name: Seq<char>) -> ChunkType {
    if name == "module"@ {
        ChunkType::Module
    } else if name == "class"@ {
        ChunkType::Class
    } else if name == "function"@ {
        ChunkType::Function
    } else if name == "section"@ {
        ChunkType::Section
    } else if name == "paragraph"@ {
        ChunkType::Paragraph
    } else if name == "file"@ {
        ChunkType::File
    } else if name == "data_key"@ {
        ChunkType::DataKey
    } else {
        ChunkType::File
    }
}

impl ChunkType {
    /// The name under which this chunk type is stored.
    pub fn as_str(&self) -> (r: &'static str)
        ensures
            r@ == chunk_type_name(*self),
    {
        match self {
            ChunkType::Module => "module",
            ChunkType::Class => "class",
            ChunkType::Function => "function",
            ChunkType::Section => "section",
            ChunkType::Paragraph => "paragraph",
            ChunkType::File => "file",
            ChunkType::DataKey => "data_key",
        }
    }

    /// The chunk type stored under `s`; an unknown name reads as `File`.
    pub fn from_str(s: &str) -> (r: ChunkType)
        ensures
            r == chunk_type_named(s@),
    {
        let c = chars_of(s);
        if chars_eq_str(&c, "module") {
            ChunkType::Module
        } else if chars_eq_str(&c, "class") {
            ChunkType::Class
        } else if chars_eq_str(&c, "function") {
            ChunkType::Function
        } else if chars_eq_str(&c, "section") {
            ChunkType::Section
        } else if chars_eq_str(&c, "paragraph") {
            ChunkType::Paragraph
        } else if chars_eq_str(&c, "file") {
            ChunkType::File
        } else if chars_eq_str(&c, "data_key") {
            ChunkType::DataKey
        } else {
            ChunkType::File
        }
    }
}

/// Reading back the stored name of a chunk type gives the same chunk type.
pub proof fn lemma_chunk_type_name_round_trip(t: ChunkType)
    ensures
        chunk_type_named(chunk_type_name(t)) == t,
{
    reveal_strlit("module");
    reveal_strlit("class");
    reveal_strlit("function");
    reveal_strlit("section");
    reveal_strlit("paragraph");
    reveal_strlit("file");
    reveal_strlit("data_key");
    assert("module"@.len() == 6 && "module"@[0] == 'm' && "module"@[1] == 'o');
    assert("class"@.len() == 5 && "class"@[0] == 'c' && "class"@[1] == 'l');
    assert("function"@.len() == 8 && "function"@[0] == 'f' && "function"@[1] == 'u');
    assert("section"@.len() == 7 && "section"@[0] == 's' && "section"@[1] == 'e');
    assert("paragraph"@.len() == 9 && "paragraph"@[0] == 'p' && "paragraph"@[1] == 'a');
    assert("file"@.len() == 4 && "file"@[0] == 'f' && "file"@[1] == 'i');
    assert("data_key"@.len() == 8 && "data_key"@[0] == 'd' && "data_key"@[1] == 'a');
}

/// A write operation on a real file, as the write-ahead log records it.
#[derive(Debug, Clone)]
pub enum FileOperation {
    Move { source: String, dest: String },
    Copy { source: String, dest: String },
    Delete { path: String },
    Write { path: String, data: Vec<u8> },
}

/// A file operation with its paths and data taken by value.
pub enum FileOperationView {
    Move { source: Seq<char>, dest: Seq<char> },
    Copy { source: Seq<char>, dest: Seq<char> },
    Delete { path: Seq<char> },
    Write { path: Seq<char>, data: Seq<u8> },
}

impl View for FileOperation {
    type V = FileOperationView;

    open spec fn view(&self) -> FileOperationView {
        match self {
            FileOperation::Move { source, dest } => FileOperationView::Move {
                source: source@,
                dest: dest@,
            },
            FileOperation::Copy { source, dest } => FileOperationView::Copy {
                source: source@,
                dest: dest@,
            },
            FileOperation::Delete { path } => FileOperationView::Delete { path: path@ },
            FileOperation::Write { path, data } => FileOperationView::Write {
                path: path@,
                data: data@,
            },
        }
    }
}

/// Where a write-ahead log entry stands.
#[derive(Debug, Clone, Copy, PartialEq, Eq, Structural)]
pub enum OperationStatus {
    Pending,
    Executing,
    Completed,
    Failed,
}

/// The stored name of an operation status.
pub open spec fn status_name(s: OperationStatus) -> Seq<char> {
    match s {
        OperationStatus::Pending => "pending"@,
        OperationStatus::Executing => "executing"@,
        OperationStatus::Completed => "completed"@,
        OperationStatus::Failed => "failed"@,
    }
}

/// The status stored under `name`; an unknown name reads as `Pending`.
pub open spec fn status_named(name: Seq<char>) -> OperationStatus {
    if name == "pending"@ {
        OperationStatus::Pending
    } else if name == "executing"@ {
        OperationStatus::Executing
    } else if name == "completed"@ {
        OperationStatus::Completed
    } else if name == "failed"@ {
        OperationStatus::Failed
    } else {
        OperationStatus::Pending
    }
}

impl OperationStatus {
    /// The name under which this status is stored.
    pub fn as_str(&self) -> (r: &'static str)
        ensures
            r@ == status_name(*self),
    {
        match self {
            OperationStatus::Pending => "pending",
            OperationStatus::Executing => "executing",
            OperationStatus::Completed => "completed",
            OperationStatus::Failed => "failed",
        }
    }

    /// The status stored under `s`; an unknown name reads as `Pending`.
    pub fn from_str(s: &str) -> (r: OperationStatus)
        ensures
            r == status_named(s@),
    {
        let c = chars_of(s);
        if chars_eq_str(&c, "pending") {
            OperationStatus::Pending
        } else if chars_eq_str(&c, "executing") {
            OperationStatus::Executing
        } else if chars_eq_str(&c, "completed") {
            OperationStatus::Completed
        } else if chars_eq_str(&c, "failed") {
            OperationStatus::Failed
        } else {
            OperationStatus::Pending
        }
    }
}

/// Reading back the stored name of a status gives the same status.
pub proof fn lemma_status_name_round_trip(s: OperationStatus)
    ensures
        status_named(status_name(s)) == s,
{
    reveal_strlit("pending");
    reveal_strlit("executing");
    reveal_strlit("completed");
    reveal_strlit("failed");
    assert("pending"@.len() == 7 && "pending"@[0] == 'p' && "pending"@[1] == 'e');
    assert("executing"@.len() == 9 && "executing"@[0] == 'e' && "executing"@[1] == 'x');
    assert("completed"@.len() == 9 && "completed"@[0] == 'c' && "completed"@[1] == 'o');
    assert("failed"@.len() == 6 && "failed"@[0] == 'f' && "failed"@[1] == 'a');
}

/// An entry of the write-ahead log.
#[derive(Debug, Clone)]
pub struct WalEntry {
    pub id: WalEntryId,
    pub operation: FileOperation,
    pub status: OperationStatus,
    pub created_at: i64,
    pub completed_at: Option<i64>,
}

/// A condition on file metadata.
#[derive(Debug, Clone)]
pub enum MetadataFilter {
    DateRange { start: i64, end: i64 },
    Extension(Vec<String>),
    Size { min: Option<u64>, max: Option<u64> },
    MimeType(Vec<String>),
    PathPrefix(String),
}

/// An access rule for paths under a mount point.
#[derive(Debug, Clone)]
pub struct AclRule {
    pub id: Option<i64>,
    pub pattern: String,
    pub permission: Permission,
    pub mount_point: String,
}

/// What an access rule allows.
#[derive(Debug, Clone, Copy, PartialEq, Eq, Structural)]
pub enum Permission {
    Read,
    Write,
    Deny,
}

/// The stored name of a permission.
pub open spec fn permission_name(p: Permission) -> Seq<char> {
    match p {
        Permission::Read => "read"@,
        Permission::Write => "write"@,
        Permission::Deny => "deny"@,
    }
}

/// The permission stored under `name`; an unknown name reads as `Read`.
pub open spec fn permission_named(name: Seq<char>) -> Permission {
    if name == "read"@ {
        Permission::Read
    } else if name == "write"@ {
        Permission::Write
    } else if name == "deny"@ {
        Permission::Deny
    } else {
        Permission::Read
    }
}

impl Permission {
    /// The name under which this permission is stored.
    pub fn as_str(&self) -> (r: &'static str)
        ensures
            r@ == permission_name(*self),
    {
        match self {
            Permission::Read => "read",
            Permission::Write => "write",
            Permission::Deny => "deny",
        }
    }

    /// The permission stored under `s`; an unknown name reads as `Read`.
    pub fn from_str(s: &str) -> (r: Permission)
        ensures
            r == permission_named(s@),
    {
        let c = chars_of(s);
        if chars_eq_str(&c, "read") {
            Permission::Read
        } else if chars_eq_str(&c, "write") {
            Permission::Write
        } else if chars_eq_str(&c, "deny") {
            Permission::Deny
        } else {
            Permission::Read
        }
    }
}

/// Reading back the stored name of a permission gives the same permission.
pub proof fn lemma_permission_name_round_trip(p: Permission)
    ensures
        permission_named(permission_name(p)) == p,
{
    reveal_strlit("read");
    reveal_strlit("write");
    reveal_strlit("deny");
    assert("read"@.len() == 4 && "read"@[0] == 'r' && "read"@[1] == 'e');
    assert("write"@.len() == 5 && "write"@[0] == 'w' && "write"@[1] == 'r');
    assert("deny"@.len() == 4 && "deny"@[0] == 'd' && "deny"@[1] == 'e');
}

} // verus!
