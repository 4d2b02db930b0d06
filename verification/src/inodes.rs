//! The bookkeeping of the mounted view: the inode of each semantic
//! directory and each file listed in one, the semantic path of a
//! subdirectory, and what a write to the view does.
use vstd::prelude::*;
use crate::strings::chars_eq_str;
use crate::strings::chars_of;
use crate::strings::extend_chars;
use crate::strings::string_of;

verus! {

/// The inode of the root directory.
pub const ROOT_INO: u64 = 1;

/// What an inode stands for: a semantic directory (its query path) or a
/// file listed in one, by name, with the real file behind it, if any.
#[derive(Debug, Clone)]
pub struct InodeEntry {
    pub semantic_path: String,
    pub name: String,
    pub real_path: Option<String>,
    pub is_dir: bool,
}

/// An inode entry taken by value, with its number.
pub struct InodeView {
    pub ino: u64,
    pub semantic_path: Seq<char>,
    pub name: Seq<char>,
    pub real_path: Option<Seq<char>>,
    pub is_dir: bool,
}

struct InodeSlot {
    ino: u64,
    entry: InodeEntry,
}

/// The view of an inode entry numbered `ino`.
pub open spec fn inode_view(ino: u64, e: InodeEntry) -> InodeView {
    InodeView {
        ino,
        semantic_path: e.semantic_path@,
        name: e.name@,
        real_path: match e.real_path {
            Some(p) => Some(p@),
            None => None,
        },
        is_dir: e.is_dir,
    }
}

spec fn slot_views(s: Seq<InodeSlot>) -> Seq<InodeView> {
    s.map_values(|x: InodeSlot| inode_view(x.ino, x.entry))
}

/// The position of the inode for `name` under the semantic path `path`.
pub open spec fn pair_position(s: Seq<InodeView>, path: Seq<char>, name: Seq<char>) -> Option<int> {
    if exists|i: int| 0 <= i < s.len() && s[i].semantic_path == path && s[i].name == name {
        Some(choose|i: int| 0 <= i < s.len() && s[i].semantic_path == path && s[i].name == name)
    } else {
        None
    }
}

/// The position of the inode numbered `ino`.
pub open spec fn ino_position(s: Seq<InodeView>, ino: u64) -> Option<int> {
    if exists|i: int| 0 <= i < s.len() && s[i].ino == ino {
        Some(choose|i: int| 0 <= i < s.len() && s[i].ino == ino)
    } else {
        None
    }
}

/// No two inodes share a number or a (semantic path, name) pair, and every
/// number is below the next one to hand out.
pub open spec fn table_wf(s: Seq<InodeView>, next: u64) -> bool {
    &&& forall|i: int, j: int|
        0 <= i < s.len() && 0 <= j < s.len() && i != j ==> #[trigger] s[i].ino != #[trigger] s[j].ino
    &&& forall|i: int, j: int|
        0 <= i < s.len() && 0 <= j < s.len() && i != j ==> (#[trigger] s[i].semantic_path
            != #[trigger] s[j].semantic_path || s[i].name != s[j].name)
    &&& forall|i: int| 0 <= i < s.len() ==> #[trigger] s[i].ino < next
}

/// The inodes of a mounted view.
pub struct InodeTable {
    slots: Vec<InodeSlot>,
    next_inode: u64,
}

impl InodeTable {
    /// The inodes, in the order they were handed out.
    pub closed spec fn inodes(&self) -> Seq<InodeView> {
        slot_views(self.slots@)
    }

    /// The number the next new inode gets.
    pub closed spec fn next(&self) -> u64 {
        self.next_inode
    }

    #[verifier::type_invariant]
    closed spec fn inv(&self) -> bool {
        table_wf(slot_views(self.slots@), self.next_inode)
    }

    /// A table with the root directory alone, as inode 1; the next inode
    /// is 2.
    pub fn new() -> (r: InodeTable)
        ensures
            r.inodes().len() == 1,
            r.inodes()[0].ino == ROOT_INO,
            r.inodes()[0].semantic_path.len() == 0,
            r.inodes()[0].name.len() == 0,
            r.inodes()[0].real_path is None,
            r.inodes()[0].is_dir,
            r.next() == 2,
    {
        let root = InodeEntry {
            semantic_path: String::new(),
            name: String::new(),
            real_path: None,
            is_dir: true,
        };
        let slots = vec![InodeSlot { ino: ROOT_INO, entry: root }];
        let r = InodeTable { slots, next_inode: 2 };
        assert(r.inodes().len() == 1);
        r
    }

    /// Whether another inode can be handed out.
    pub fn can_allocate(&self) -> (r: bool)
        ensures
            r == (self.next() < u64::MAX),
    {
        self.next_inode < u64::MAX
    }

    /// The inode of `name` under the semantic path `semantic_path`: the one
    /// it already has, or a new one with the next number.
    pub fn get_or_create(
        &mut self,
        semantic_path: &str,
        name: &str,
        real_path: Option<String>,
        is_dir: bool,
    ) -> (r: u64)
        requires
            old(self).next() < u64::MAX,
        ensures
            match pair_position(old(self).inodes(), semantic_path@, name@) {
                Some(i) => r == old(self).inodes()[i].ino && final(self).inodes() == old(
                    self,
                ).inodes() && final(self).next() == old(self).next(),
                None => r == old(self).next() && final(self).next() == old(self).next() + 1
                    && final(self).inodes() == old(self).inodes().push(
                    InodeView {
                        ino: r,
                        semantic_path: semantic_path@,
                        name: name@,
                        real_path: match real_path {
                            Some(p) => Some(p@),
                            None => None,
                        },
                        is_dir,
                    },
                ),
            },
    {
        proof {
            use_type_invariant(&*self);
        }
        let ghost s = self.inodes();
        let p = chars_of(semantic_path);
        let n = chars_of(name);
        let mut i: usize = 0;
        while i < self.slots.len()
            invariant
                i <= self.slots@.len(),
                s == slot_views(self.slots@),
                table_wf(s, self.next_inode),
                p@ == semantic_path@,
                n@ == name@,
                forall|j: int|
                    0 <= j < i ==> !(s[j].semantic_path == semantic_path@ && s[j].name == name@),
            decreases self.slots@.len() - i,
        {
            if chars_eq_str(&p, self.slots[i].entry.semantic_path.as_str()) && chars_eq_str(
                &n,
                self.slots[i].entry.name.as_str(),
            ) {
                assert(pair_position(s, semantic_path@, name@) == Some(i as int)) by {
                    let k = choose|k: int|
                        0 <= k < s.len() && s[k].semantic_path == semantic_path@ && s[k].name
                            == name@;
                    if k != i as int {
                        assert(s[k].semantic_path != s[i as int].semantic_path || s[k].name
                            != s[i as int].name);
                    }
                }
                return self.slots[i].ino;
            }
            i += 1;
        }
        let ino = self.next_inode;
        let entry = InodeEntry {
            semantic_path: semantic_path.to_string(),
            name: name.to_string(),
            real_path,
            is_dir,
        };
        let mut slots: Vec<InodeSlot> = Vec::new();
        std::mem::swap(&mut slots, &mut self.slots);
        slots.push(InodeSlot { ino, entry });
        let ghost t = slot_views(slots@);
        assert(t =~= s.push(inode_view(ino, entry)));
        assert(table_wf(t, (ino + 1) as u64)) by {
            assert forall|a: int, b: int|
                0 <= a < t.len() && 0 <= b < t.len() && a != b implies #[trigger] t[a].ino
                != #[trigger] t[b].ino by {
                if a < s.len() {
                    assert(t[a] == s[a]);
                }
                if b < s.len() {
                    assert(t[b] == s[b]);
                }
            }
            assert forall|a: int, b: int|
                0 <= a < t.len() && 0 <= b < t.len() && a != b implies (#[trigger] t[a].semantic_path
                != #[trigger] t[b].semantic_path || t[a].name != t[b].name) by {
                if a < s.len() {
                    assert(t[a] == s[a]);
                }
                if b < s.len() {
                    assert(t[b] == s[b]);
                }
            }
            assert forall|a: int| 0 <= a < t.len() implies #[trigger] t[a].ino < ino + 1 by {
                if a < s.len() {
                    assert(t[a] == s[a]);
                }
            }
        }
        self.next_inode = ino + 1;
        self.slots = slots;
        ino
    }

    /// The number of inodes.
    pub fn len(&self) -> (r: usize)
        ensures
            r == self.inodes().len(),
    {
        self.slots.len()
    }

    /// What the inode `ino` stands for, if it exists.
    pub fn get(&self, ino: u64) -> (r: Option<InodeEntry>)
        ensures
            match ino_position(self.inodes(), ino) {
                Some(i) => r matches Some(e) && inode_view(ino, e) == self.inodes()[i],
                None => r is None,
            },
    {
        proof {
            use_type_invariant(self);
        }
        let ghost s = self.inodes();
        let mut i: usize = 0;
        while i < self.slots.len()
            invariant
                i <= self.slots@.len(),
                s == slot_views(self.slots@),
                table_wf(s, self.next_inode),
                forall|j: int| 0 <= j < i ==> s[j].ino != ino,
            decreases self.slots@.len() - i,
        {
            if self.slots[i].ino == ino {
                assert(ino_position(s, ino) == Some(i as int)) by {
                    let k = choose|k: int| 0 <= k < s.len() && s[k].ino == ino;
                    if k != i as int {
                        assert(s[k].ino != s[i as int].ino);
                    }
                }
                let e = &self.slots[i].entry;
                let copy = InodeEntry {
                    semantic_path: e.semantic_path.clone(),
                    name: e.name.clone(),
                    real_path: match &e.real_path {
                        Some(p) => Some(p.clone()),
                        None => None,
                    },
                    is_dir: e.is_dir,
                };
                return Some(copy);
            }
            i += 1;
        }
        None
    }
}

/// Asking again for the inode of a name under a semantic path gives the
/// same inode and changes nothing.
pub proof fn lemma_inode_lookup_is_stable(
    s: Seq<InodeView>,
    next: u64,
    path: Seq<char>,
    name: Seq<char>,
    entry: InodeView,
)
    requires
        table_wf(s, next),
        pair_position(s, path, name) is None,
        entry.ino == next,
        entry.semantic_path == path,
        entry.name == name,
    ensures
        pair_position(s.push(entry), path, name) == Some(s.len() as int),
        ino_position(s.push(entry), next) == Some(s.len() as int),
{
    let t = s.push(entry);
    assert(t[s.len() as int] == entry);
    assert(pair_position(t, path, name) == Some(s.len() as int)) by {
        let k = choose|k: int| 0 <= k < t.len() && t[k].semantic_path == path && t[k].name == name;
        if k < s.len() {
            assert(t[k] == s[k]);
        }
    }
    assert(ino_position(t, next) == Some(s.len() as int)) by {
        let k = choose|k: int| 0 <= k < t.len() && t[k].ino == next;
        if k < s.len() {
            assert(t[k] == s[k]);
        }
    }
}

/// The semantic path of the directory `name` inside the one at `parent`:
/// the name alone under the root, else the two joined by `'/'`.
pub open spec fn child_path(parent: Seq<char>, name: Seq<char>) -> Seq<char> {
    if parent.len() == 0 {
        name
    } else {
        parent + seq!['/'] + name
    }
}

/// The semantic path of the directory `name` inside the one at `parent`.
pub fn child_semantic_path(parent: &str, name: &str) -> (r: String)
    ensures
        r@ == child_path(parent@, name@),
{
    let mut c = chars_of(parent);
    if c.len() == 0 {
        return name.to_string();
    }
    c.push('/');
    extend_chars(&mut c, &chars_of(name));
    string_of(&c)
}

/// What the view answers to a write.
#[derive(Debug, Clone, Copy, PartialEq, Eq, Structural)]
pub enum WritePlan {
    /// Refused: the view is read-only, the inode has no real file, or a
    /// write from the start has no write handler.
    Denied,
    /// No such inode.
    NotFound,
    /// A write from the start, through the logged write handler.
    Logged,
    /// A write at an offset, straight to the real file.
    Direct,
}

/// What the view does with a write at `offset` to an inode that exists
/// (`found`) and has a real file (`has_real_path`).
pub open spec fn write_plan_for(
    read_only: bool,
    found: bool,
    has_real_path: bool,
    offset: i64,
    has_handler: bool,
) -> WritePlan {
    if read_only {
        WritePlan::Denied
    } else if !found {
        WritePlan::NotFound
    } else if !has_real_path {
        WritePlan::Denied
    } else if offset == 0 {
        if has_handler {
            WritePlan::Logged
        } else {
            WritePlan::Denied
        }
    } else {
        WritePlan::Direct
    }
}

/// What the view does with a write.
pub fn write_plan(read_only: bool, found: bool, has_real_path: bool, offset: i64, has_handler: bool) -> (r:
    WritePlan)
    ensures
        r == write_plan_for(read_only, found, has_real_path, offset, has_handler),
{
    if read_only {
        WritePlan::Denied
    } else if !found {
        WritePlan::NotFound
    } else if !has_real_path {
        WritePlan::Denied
    } else if offset == 0 {
        if has_handler {
            WritePlan::Logged
        } else {
            WritePlan::Denied
        }
    } else {
        WritePlan::Direct
    }
}

/// What the view answers to a rename or an unlink.
#[derive(Debug, Clone, Copy, PartialEq, Eq, Structural)]
pub enum ChangePlan {
    /// Refused: the view is read-only, or there is no write handler.
    Denied,
    /// The entry named could not be resolved to a real file.
    NotFound,
    /// Handed to the logged write handler.
    Handled,
}

/// What the view does with a rename or an unlink of an entry that was
/// resolved to a real file (`found`): a read-only view refuses before it
/// resolves anything.
pub open spec fn change_plan_for(read_only: bool, found: bool, has_handler: bool) -> ChangePlan {
    if read_only {
        ChangePlan::Denied
    } else if !found {
        ChangePlan::NotFound
    } else if has_handler {
        ChangePlan::Handled
    } else {
        ChangePlan::Denied
    }
}

/// What the view does with a rename or an unlink.
pub fn change_plan(read_only: bool, found: bool, has_handler: bool) -> (r: ChangePlan)
    ensures
        r == change_plan_for(read_only, found, has_handler),
{
    if read_only {
        ChangePlan::Denied
    } else if !found {
        ChangePlan::NotFound
    } else if has_handler {
        ChangePlan::Handled
    } else {
        ChangePlan::Denied
    }
}

/// A read-only view refuses every write, rename and unlink, whatever the
/// inode, the offset or the handler.
pub proof fn lemma_read_only_refuses_changes(
    found: bool,
    has_real_path: bool,
    offset: i64,
    has_handler: bool,
)
    ensures
        write_plan_for(true, found, has_real_path, offset, has_handler) == WritePlan::Denied,
        change_plan_for(true, found, has_handler) == ChangePlan::Denied,
{
}

} // verus!
