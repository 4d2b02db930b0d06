//! Choosing the files of a directory tree to index: hidden entries and
//! entries that match an ignore pattern are skipped, and so are files
//! larger than the size limit.
use vstd::prelude::*;
use crate::strings::chars_of;
use crate::strings::chars_eq;
use crate::strings::contains_chars;
use crate::strings::contains_sub;
use crate::strings::ends_with;
use crate::strings::ends_with_chars;
use crate::strings::occurs_at;
use crate::strings::starts_with;
use crate::strings::sub_chars;

verus! {

/// Whether `pattern` rules out the entry `name` at `path`: `"*.ext"` when
/// the name contains `ext`, `"*suffix"` when the name ends with `suffix`,
/// any other pattern when the path contains it or the name equals it.
pub open spec fn pattern_ignores(name: Seq<char>, path: Seq<char>, pattern: Seq<char>) -> bool {
    if starts_with(pattern, seq!['*', '.']) {
        contains_sub(name, pattern.skip(2))
    } else if starts_with(pattern, seq!['*']) {
        ends_with(name, pattern.skip(1))
    } else {
        contains_sub(path, pattern) || name == pattern
    }
}

/// Whether the entry `name` at `path` is skipped: it is hidden (its name
/// starts with `'.'`) or some pattern rules it out.
pub open spec fn ignored(name: Seq<char>, path: Seq<char>, patterns: Seq<Seq<char>>) -> bool {
    (name.len() > 0 && name[0] == '.') || exists|i: int|
        0 <= i < patterns.len() && #[trigger] pattern_ignores(name, path, patterns[i])
}

/// An entry is skipped as soon as any one of the patterns rules it out,
/// wherever that pattern stands in the list; and a hidden entry is always
/// skipped.
pub proof fn lemma_any_pattern_ignores(name: Seq<char>, path: Seq<char>, patterns: Seq<Seq<char>>, i: int)
    requires
        0 <= i < patterns.len(),
        pattern_ignores(name, path, patterns[i]),
    ensures
        ignored(name, path, patterns),
{
}

/// A hidden entry (its name starts with `'.'`) is skipped whatever the
/// patterns; an entry that no pattern rules out and that is not hidden is
/// kept.
pub proof fn lemma_hidden_or_ruled_out(name: Seq<char>, path: Seq<char>, patterns: Seq<Seq<char>>)
    ensures
        name.len() > 0 && name[0] == '.' ==> ignored(name, path, patterns),
        !(name.len() > 0 && name[0] == '.') && (forall|i: int|
            0 <= i < patterns.len() ==> !pattern_ignores(name, path, #[trigger] patterns[i]))
            ==> !ignored(name, path, patterns),
{
}

/// What each kind of pattern rules out: `"*.ext"` an entry whose name
/// contains `ext`, `"*suffix"` (not starting `"*."`) an entry whose name
/// ends with `suffix`, and any other pattern an entry whose path contains
/// it or whose name is it. In particular a pattern that is an entry's
/// name (such as `"target"` for the entry `target`) always rules it out.
pub proof fn lemma_pattern_kinds(name: Seq<char>, path: Seq<char>, pattern: Seq<char>)
    ensures
        forall|ext: Seq<char>|
            pattern == seq!['*', '.'] + ext ==> (pattern_ignores(name, path, pattern)
                <==> contains_sub(name, ext)),
        forall|suffix: Seq<char>|
            pattern == seq!['*'] + suffix && !starts_with(suffix, seq!['.']) ==> (
            pattern_ignores(name, path, pattern) <==> ends_with(name, suffix)),
        !starts_with(pattern, seq!['*']) ==> (pattern_ignores(name, path, pattern) <==> (
        contains_sub(path, pattern) || name == pattern)),
        pattern_ignores(name, path, name),
{
    assert forall|ext: Seq<char>| pattern == seq!['*', '.'] + ext implies (pattern_ignores(
        name,
        path,
        pattern,
    ) <==> contains_sub(name, ext)) by {
        assert(pattern.take(2) =~= seq!['*', '.']);
        assert(pattern.skip(2) =~= ext);
    }
    assert forall|suffix: Seq<char>|
        pattern == seq!['*'] + suffix && !starts_with(suffix, seq!['.']) implies (pattern_ignores(
        name,
        path,
        pattern,
    ) <==> ends_with(name, suffix)) by {
        assert(pattern.take(1) =~= seq!['*']);
        assert(pattern.skip(1) =~= suffix);
        if starts_with(pattern, seq!['*', '.']) {
            assert(pattern.take(2)[1] == '.');
            assert(suffix.take(1) =~= seq!['.']);
        }
    }
    if starts_with(pattern, seq!['*', '.']) && !starts_with(pattern, seq!['*']) {
        assert(pattern.take(2)[0] == '*');
        assert(pattern.take(1) =~= seq!['*']);
    }
    if starts_with(name, seq!['*', '.']) {
        assert(occurs_at(name, name.skip(2), 2)) by {
            assert(name.subrange(2, name.len() as int) =~= name.skip(2));
        }
    } else if starts_with(name, seq!['*']) {
        assert(name.skip(name.len() - name.skip(1).len()) =~= name.skip(1));
    }
}

/// The views of a sequence of strings.
pub open spec fn string_views(v: Seq<String>) -> Seq<Seq<char>> {
    v.map_values(|s: String| s@)
}

fn pattern_ignores_exec(name: &[char], path: &[char], pattern: &[char]) -> (r: bool)
    ensures
        r == pattern_ignores(name@, path@, pattern@),
{
    if pattern.len() >= 2 && pattern[0] == '*' && pattern[1] == '.' {
        assert(pattern@.take(2) =~= seq!['*', '.']);
        let ext = sub_chars(pattern, 2, pattern.len());
        assert(ext@ =~= pattern@.skip(2));
        contains_chars(name, &ext)
    } else if pattern.len() >= 1 && pattern[0] == '*' {
        assert(pattern@.take(1) =~= seq!['*']);
        proof {
            if starts_with(pattern@, seq!['*', '.']) {
                assert(pattern@.take(2)[1] == '.');
            }
        }
        let suffix = sub_chars(pattern, 1, pattern.len());
        assert(suffix@ =~= pattern@.skip(1));
        ends_with_chars(name, &suffix)
    } else {
        proof {
            if starts_with(pattern@, seq!['*', '.']) {
                assert(pattern@.take(2)[0] == '*');
                assert(pattern@.take(2)[1] == '.');
            }
            if starts_with(pattern@, seq!['*']) {
                assert(pattern@.take(1)[0] == '*');
            }
        }
        contains_chars(path, pattern) || chars_eq(name, pattern)
    }
}

/// Whether the entry `name` at `path` is skipped: hidden entries are
/// always skipped, and so is any entry that a pattern rules out.
pub fn should_ignore(name: &str, path: &str, patterns: &[String]) -> (r: bool)
    ensures
        r == ignored(name@, path@, string_views(patterns@)),
{
    let n = chars_of(name);
    if n.len() > 0 && n[0] == '.' {
        return true;
    }
    let p = chars_of(path);
    let mut i: usize = 0;
    while i < patterns.len()
        invariant
            i <= patterns@.len(),
            n@ == name@,
            p@ == path@,
            !(name@.len() > 0 && name@[0] == '.'),
            forall|j: int|
                0 <= j < i ==> !pattern_ignores(name@, path@, #[trigger] string_views(patterns@)[j]),
        decreases patterns@.len() - i,
    {
        let pat = chars_of(patterns[i].as_str());
        if pattern_ignores_exec(&n, &p, &pat) {
            assert(string_views(patterns@)[i as int] == pat@);
            return true;
        }
        i += 1;
    }
    false
}

/// An entry of a directory listing.
pub struct DirEntry {
    pub name: String,
    pub path: String,
    pub kind: EntryKind,
}

/// What a directory entry is: a directory with its listing, a file with
/// its size when it could be read, or neither.
pub enum EntryKind {
    Directory(Vec<DirEntry>),
    File(Option<u64>),
    Other,
}

/// The paths of the files to index under `entries`, depth first in listing
/// order: ignored entries are skipped with all they hold, and files whose
/// known size exceeds `max_size` are skipped.
pub open spec fn crawl_list(entries: Seq<DirEntry>, patterns: Seq<Seq<char>>, max_size: u64) -> Seq<
    Seq<char>,
>
    decreases entries,
{
    if entries.len() == 0 {
        seq![]
    } else {
        let e = entries.last();
        let rest = crawl_list(entries.drop_last(), patterns, max_size);
        if ignored(e.name@, e.path@, patterns) {
            rest
        } else {
            match e.kind {
                EntryKind::Directory(children) => {
                    proof {
                        assert(decreases_to!(entries => entries[entries.len() - 1]));
                    }
                    rest + crawl_list(children@, patterns, max_size)
                },
                EntryKind::File(size) => if size matches Some(s) && s > max_size {
                    rest
                } else {
                    rest.push(e.path@)
                },
                EntryKind::Other => rest,
            }
        }
    }
}

/// The paths of every file entry in `entries` and below, depth first in
/// listing order.
pub open spec fn all_files(entries: Seq<DirEntry>) -> Seq<Seq<char>>
    decreases entries,
{
    if entries.len() == 0 {
        seq![]
    } else {
        let e = entries.last();
        let rest = all_files(entries.drop_last());
        match e.kind {
            EntryKind::Directory(children) => {
                proof {
                    assert(decreases_to!(entries => entries[entries.len() - 1]));
                }
                rest + all_files(children@)
            },
            EntryKind::File(_) => rest.push(e.path@),
            EntryKind::Other => rest,
        }
    }
}

/// Whether the entry `e` yields `p` when the tree is crawled: `e` is not
/// ignored, and it is a file at `p` whose known size is within `max_size`,
/// or a directory under which the crawl yields `p`.
pub open spec fn entry_yields(e: DirEntry, patterns: Seq<Seq<char>>, max_size: u64, p: Seq<
    char,
>) -> bool {
    !ignored(e.name@, e.path@, patterns) && match e.kind {
        EntryKind::Directory(children) => crawl_list(children@, patterns, max_size).contains(p),
        EntryKind::File(size) => !(size matches Some(s) && s > max_size) && e.path@ == p,
        EntryKind::Other => false,
    }
}

/// The crawl yields exactly the paths that some entry of the listing
/// yields: a file that is not ignored and not too large, or what the crawl
/// of a directory that is not ignored yields. So a path is yielded only
/// where neither it nor any directory above it is hidden or ruled out by a
/// pattern.
pub proof fn lemma_crawl_members(
    entries: Seq<DirEntry>,
    patterns: Seq<Seq<char>>,
    max_size: u64,
    p: Seq<char>,
)
    ensures
        crawl_list(entries, patterns, max_size).contains(p) <==> exists|k: int|
            0 <= k < entries.len() && #[trigger] entry_yields(entries[k], patterns, max_size, p),
    decreases entries.len(),
{
    if entries.len() > 0 {
        let init = entries.drop_last();
        let e = entries.last();
        lemma_crawl_members(init, patterns, max_size, p);
        let rest = crawl_list(init, patterns, max_size);
        let all = crawl_list(entries, patterns, max_size);
        if all.contains(p) {
            if rest.contains(p) {
                let k = choose|k: int|
                    0 <= k < init.len() && #[trigger] entry_yields(init[k], patterns, max_size, p);
                assert(entries[k] == init[k]);
                assert(entry_yields(entries[k], patterns, max_size, p));
            } else {
                let j = choose|j: int| 0 <= j < all.len() && all[j] == p;
                assert(j >= rest.len()) by {
                    if j < rest.len() {
                        assert(all[j] == rest[j]);
                    }
                }
                match e.kind {
                    EntryKind::Directory(children) => {
                        let sub = crawl_list(children@, patterns, max_size);
                        assert(all[j] == sub[j - rest.len()]);
                        assert(sub.contains(p));
                    },
                    _ => {},
                }
                assert(entry_yields(entries[entries.len() - 1], patterns, max_size, p));
            }
        }
        if exists|k: int|
            0 <= k < entries.len() && #[trigger] entry_yields(entries[k], patterns, max_size, p) {
            let k = choose|k: int|
                0 <= k < entries.len() && #[trigger] entry_yields(entries[k], patterns, max_size, p);
            if k < init.len() {
                assert(init[k] == entries[k]);
                assert(entry_yields(init[k], patterns, max_size, p));
                let j = choose|j: int| 0 <= j < rest.len() && rest[j] == p;
                assert(all[j] == rest[j]);
            } else {
                match e.kind {
                    EntryKind::Directory(children) => {
                        let sub = crawl_list(children@, patterns, max_size);
                        let j = choose|j: int| 0 <= j < sub.len() && sub[j] == p;
                        assert(all[rest.len() + j] == sub[j]);
                    },
                    EntryKind::File(_) => {
                        assert(all[rest.len() as int] == p);
                    },
                    EntryKind::Other => {},
                }
            }
        }
    }
}

/// No path occurs twice in `s`.
pub open spec fn distinct_paths(s: Seq<Seq<char>>) -> bool {
    forall|i: int, j: int| 0 <= i < j < s.len() ==> #[trigger] s[i] != #[trigger] s[j]
}

proof fn lemma_distinct_concat(a: Seq<Seq<char>>, b: Seq<Seq<char>>)
    requires
        distinct_paths(a),
        distinct_paths(b),
        forall|x: Seq<char>| a.contains(x) ==> !b.contains(x),
    ensures
        distinct_paths(a + b),
{
    let c = a + b;
    assert forall|i: int, j: int| 0 <= i < j < c.len() implies #[trigger] c[i] != #[trigger] c[j] by {
        if j < a.len() {
            assert(c[i] == a[i] && c[j] == a[j]);
        } else if i >= a.len() {
            assert(c[i] == b[i - a.len()] && c[j] == b[j - a.len()]);
        } else {
            assert(c[i] == a[i] && c[j] == b[j - a.len()]);
            if c[i] == c[j] {
                assert(a.contains(c[i]));
                assert(b.contains(c[i]));
            }
        }
    }
}

proof fn lemma_distinct_parts(a: Seq<Seq<char>>, b: Seq<Seq<char>>)
    requires
        distinct_paths(a + b),
    ensures
        distinct_paths(a),
        distinct_paths(b),
        forall|x: Seq<char>| a.contains(x) ==> !b.contains(x),
{
    let c = a + b;
    assert forall|i: int, j: int| 0 <= i < j < a.len() implies #[trigger] a[i] != #[trigger] a[j] by {
        assert(c[i] == a[i] && c[j] == a[j]);
    }
    assert forall|i: int, j: int| 0 <= i < j < b.len() implies #[trigger] b[i] != #[trigger] b[j] by {
        assert(c[i + a.len()] == b[i] && c[j + a.len()] == b[j]);
    }
    assert forall|x: Seq<char>| a.contains(x) implies !b.contains(x) by {
        let i = choose|i: int| 0 <= i < a.len() && a[i] == x;
        if b.contains(x) {
            let j = choose|j: int| 0 <= j < b.len() && b[j] == x;
            assert(c[i] == a[i] && c[j + a.len()] == b[j]);
        }
    }
}

/// Where the file entries of a listing have distinct paths, the crawl
/// yields no path twice, and yields only paths of file entries.
pub proof fn lemma_crawl_distinct(entries: Seq<DirEntry>, patterns: Seq<Seq<char>>, max_size: u64)
    requires
        distinct_paths(all_files(entries)),
    ensures
        distinct_paths(crawl_list(entries, patterns, max_size)),
        forall|p: Seq<char>|
            #[trigger] crawl_list(entries, patterns, max_size).contains(p) ==> all_files(
                entries,
            ).contains(p),
    decreases entries,
{
    if entries.len() > 0 {
        let init = entries.drop_last();
        let e = entries.last();
        let a_rest = all_files(init);
        let c_rest = crawl_list(init, patterns, max_size);
        let all = all_files(entries);
        let crawl = crawl_list(entries, patterns, max_size);
        let (ax, cx): (Seq<Seq<char>>, Seq<Seq<char>>) = match e.kind {
            EntryKind::Directory(children) => {
                assert(decreases_to!(entries => entries[entries.len() - 1]));
                (all_files(children@), crawl_list(children@, patterns, max_size))
            },
            EntryKind::File(size) => (
                seq![e.path@],
                if size matches Some(s) && s > max_size {
                    seq![]
                } else {
                    seq![e.path@]
                },
            ),
            EntryKind::Other => (seq![], seq![]),
        };
        let cy = if ignored(e.name@, e.path@, patterns) {
            Seq::<Seq<char>>::empty()
        } else {
            cx
        };
        assert(all == a_rest + ax) by {
            match e.kind {
                EntryKind::Directory(_) => {},
                EntryKind::File(_) => {
                    assert(a_rest.push(e.path@) == a_rest + seq![e.path@]);
                },
                EntryKind::Other => {
                    assert(a_rest == a_rest + Seq::<Seq<char>>::empty());
                },
            }
        }
        assert(crawl == c_rest + cy) by {
            if ignored(e.name@, e.path@, patterns) {
                assert(c_rest == c_rest + Seq::<Seq<char>>::empty());
            } else {
                match e.kind {
                    EntryKind::Directory(_) => {},
                    EntryKind::File(size) => {
                        if size matches Some(s) && s > max_size {
                            assert(c_rest == c_rest + Seq::<Seq<char>>::empty());
                        } else {
                            assert(c_rest.push(e.path@) == c_rest + seq![e.path@]);
                        }
                    },
                    EntryKind::Other => {
                        assert(c_rest == c_rest + Seq::<Seq<char>>::empty());
                    },
                }
            }
        }
        lemma_distinct_parts(a_rest, ax);
        lemma_crawl_distinct(init, patterns, max_size);
        assert(distinct_paths(cy) && forall|p: Seq<char>| cy.contains(p) ==> ax.contains(p)) by {
            if !ignored(e.name@, e.path@, patterns) {
                match e.kind {
                    EntryKind::Directory(children) => {
                        assert(decreases_to!(entries => entries[entries.len() - 1]));
                        lemma_crawl_distinct(children@, patterns, max_size);
                    },
                    _ => {},
                }
            }
        }
        assert forall|x: Seq<char>| c_rest.contains(x) implies !cy.contains(x) by {
            assert(a_rest.contains(x));
            if cy.contains(x) {
                assert(ax.contains(x));
            }
        }
        lemma_distinct_concat(c_rest, cy);
        assert forall|p: Seq<char>| #[trigger] crawl.contains(p) implies all.contains(p) by {
            let j = choose|j: int| 0 <= j < crawl.len() && crawl[j] == p;
            if j < c_rest.len() {
                assert(crawl[j] == c_rest[j]);
                assert(c_rest.contains(p));
                let i = choose|i: int| 0 <= i < a_rest.len() && a_rest[i] == p;
                assert(all[i] == a_rest[i]);
            } else {
                assert(crawl[j] == cy[j - c_rest.len()]);
                assert(cy.contains(p));
                assert(ax.contains(p));
                let i = choose|i: int| 0 <= i < ax.len() && ax[i] == p;
                assert(all[a_rest.len() + i] == ax[i]);
            }
        }
    }
}

fn crawl_into(
    entries: &Vec<DirEntry>,
    patterns: &[String],
    max_size: u64,
    files: &mut Vec<String>,
)
    ensures
        string_views(final(files)@) == string_views(old(files)@) + crawl_list(
            entries@,
            string_views(patterns@),
            max_size,
        ),
    decreases entries@,
{
    let ghost pats = string_views(patterns@);
    let mut i: usize = 0;
    assert(entries@.take(0) =~= Seq::<DirEntry>::empty());
    while i < entries.len()
        invariant
            i <= entries@.len(),
            pats == string_views(patterns@),
            string_views(files@) == string_views(old(files)@) + crawl_list(
                entries@.take(i as int),
                pats,
                max_size,
            ),
        decreases entries@.len() - i,
    {
        let e = &entries[i];
        let ghost t = entries@.take(i + 1);
        assert(t.drop_last() =~= entries@.take(i as int));
        assert(t.last() == entries@[i as int]);
        let ghost before = string_views(files@);
        if !should_ignore(e.name.as_str(), e.path.as_str(), patterns) {
            match &e.kind {
                EntryKind::Directory(children) => {
                    assert(decreases_to!(entries@ => entries@[i as int]));
                    crawl_into(children, patterns, max_size, files);
                    assert(string_views(files@) =~= string_views(old(files)@) + crawl_list(
                        t,
                        pats,
                        max_size,
                    ));
                },
                EntryKind::File(size) => {
                    let too_big = match size {
                        Some(s) => *s > max_size,
                        None => false,
                    };
                    if !too_big {
                        files.push(e.path.clone());
                        assert(string_views(files@) =~= before.push(e.path@));
                    }
                    assert(string_views(files@) =~= string_views(old(files)@) + crawl_list(
                        t,
                        pats,
                        max_size,
                    ));
                },
                EntryKind::Other => {},
            }
        }
        i += 1;
    }
    assert(entries@.take(entries@.len() as int) =~= entries@);
}

/// The paths of the files to index under the listing `root` of a
/// directory, depth first: hidden and ignored entries are skipped with all
/// they hold, and so are files larger than `max_file_size`.
pub fn crawl_directory(root: &Vec<DirEntry>, ignore_patterns: &[String], max_file_size: u64) -> (r:
    Vec<String>)
    ensures
        string_views(r@) == crawl_list(root@, string_views(ignore_patterns@), max_file_size),
{
    let mut files: Vec<String> = Vec::new();
    crawl_into(root, ignore_patterns, max_file_size, &mut files);
    assert(string_views(files@) =~= crawl_list(
        root@,
        string_views(ignore_patterns@),
        max_file_size,
    ));
    files
}

} // verus!
