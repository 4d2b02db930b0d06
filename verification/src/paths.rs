//! The parts of a `/`-separated path that the indexer reads: the final
//! file name and its extension, as `std::path::Path` defines them.
use vstd::prelude::*;
use crate::strings::split_char;
use crate::strings::split_chars;
use crate::strings::views;
use crate::strings::chars_eq_str;
use crate::strings::chars_eq;
use crate::strings::chars_of;
use crate::strings::starts_with;
use crate::strings::sub_chars;

verus! {

/// The last part of `parts` that is neither empty nor `"."`.
pub open spec fn last_name(parts: Seq<Seq<char>>) -> Option<Seq<char>>
    decreases parts.len(),
{
    if parts.len() == 0 {
        None
    } else if parts.last().len() == 0 || parts.last() == "."@ {
        last_name(parts.drop_last())
    } else {
        Some(parts.last())
    }
}

/// The final component of `path`, unless the path ends in `".."` or has no
/// named component (what `Path::file_name` returns).
pub open spec fn file_name(path: Seq<char>) -> Option<Seq<char>> {
    match last_name(split_char(path, '/')) {
        Some(n) => if n == ".."@ {
            None
        } else {
            Some(n)
        },
        None => None,
    }
}

/// The position of the last `'.'` in `n`.
pub open spec fn last_dot(n: Seq<char>) -> Option<int>
    decreases n.len(),
{
    if n.len() == 0 {
        None
    } else if n.last() == '.' {
        Some(n.len() - 1)
    } else {
        last_dot(n.drop_last())
    }
}

/// What follows the last `'.'` of a file name, unless there is no `'.'`
/// or the only one starts the name (what `Path::extension` returns).
pub open spec fn name_extension(n: Seq<char>) -> Option<Seq<char>> {
    match last_dot(n) {
        Some(i) => if i == 0 {
            None
        } else {
            Some(n.skip(i + 1))
        },
        None => None,
    }
}

/// The extension of the final component of `path`.
pub open spec fn path_extension(path: Seq<char>) -> Option<Seq<char>> {
    match file_name(path) {
        Some(n) => name_extension(n),
        None => None,
    }
}

proof fn lemma_last_dot_bound(n: Seq<char>)
    ensures
        last_dot(n) matches Some(i) ==> 0 <= i < n.len() && n[i] == '.',
    decreases n.len(),
{
    if n.len() > 0 && n.last() != '.' {
        lemma_last_dot_bound(n.drop_last());
    }
}

/// The final component of `path`.
pub fn file_name_of(path: &[char]) -> (r: Option<Vec<char>>)
    ensures
        match r {
            Some(v) => file_name(path@) == Some(v@),
            None => file_name(path@) is None,
        },
{
    let parts = split_chars(path, '/');
    let ghost ps = views(parts@);
    let mut k = parts.len();
    assert(ps.take(k as int) =~= ps);
    while k > 0
        invariant
            k <= parts.len(),
            ps == views(parts@),
            ps == split_char(path@, '/'),
            last_name(ps) == last_name(ps.take(k as int)),
        decreases k,
    {
        let ghost pk = ps.take(k as int);
        assert(pk.last() == parts@[k - 1]@);
        assert(pk.drop_last() =~= ps.take(k - 1));
        if parts[k - 1].len() == 0 || chars_eq_str(&parts[k - 1], ".") {
            k -= 1;
        } else {
            if chars_eq_str(&parts[k - 1], "..") {
                return None;
            }
            return Some(sub_chars(&parts[k - 1], 0, parts[k - 1].len()));
        }
    }
    None
}

/// What follows the last `'.'` of the file name `n`.
pub fn name_extension_of(n: &[char]) -> (r: Option<Vec<char>>)
    ensures
        match r {
            Some(v) => name_extension(n@) == Some(v@),
            None => name_extension(n@) is None,
        },
{
    let mut k = n.len();
    assert(n@.take(k as int) =~= n@);
    while k > 0
        invariant
            k <= n.len(),
            last_dot(n@) == last_dot(n@.take(k as int)),
            forall|j: int| k <= j < n.len() ==> n@[j] != '.',
        decreases k,
    {
        assert(n@.take(k as int).drop_last() =~= n@.take(k - 1));
        if n[k - 1] == '.' {
            if k - 1 == 0 {
                return None;
            }
            return Some(sub_chars(n, k, n.len()));
        }
        k -= 1;
    }
    None
}

/// The extension of the final component of `path`.
pub fn extension_of(path: &[char]) -> (r: Option<Vec<char>>)
    ensures
        match r {
            Some(v) => path_extension(path@) == Some(v@),
            None => path_extension(path@) is None,
        },
{
    match file_name_of(path) {
        Some(n) => name_extension_of(&n),
        None => None,
    }
}

/// What `std::path::Path` compares two paths by: whether the path is
/// rooted, whether it starts with the current directory, and its named
/// parts (what `Path::components` yields).
pub struct PathKey {
    pub rooted: bool,
    pub current: bool,
    pub parts: Seq<Seq<char>>,
}

/// The parts of `parts` that are neither empty nor `"."`, in order.
pub open spec fn named_parts(parts: Seq<Seq<char>>) -> Seq<Seq<char>>
    decreases parts.len(),
{
    if parts.len() == 0 {
        seq![]
    } else if parts.last().len() == 0 || parts.last() == "."@ {
        named_parts(parts.drop_last())
    } else {
        named_parts(parts.drop_last()).push(parts.last())
    }
}

/// The components of `path`: a leading `'/'` is the root; without one, a
/// leading `"."` part is the current directory; empty and other `"."`
/// parts are dropped, so repeated and trailing separators do not count.
pub open spec fn path_key(path: Seq<char>) -> PathKey {
    let rooted = path.len() > 0 && path[0] == '/';
    PathKey {
        rooted,
        current: !rooted && (path == "."@ || starts_with(path, "./"@)),
        parts: named_parts(split_char(path, '/')),
    }
}

fn named_parts_of(path: &[char]) -> (r: Vec<Vec<char>>)
    ensures
        views(r@) == named_parts(split_char(path@, '/')),
{
    let ps = split_chars(path, '/');
    let ghost sp = split_char(path@, '/');
    let mut r: Vec<Vec<char>> = Vec::new();
    let mut i: usize = 0;
    assert(views(ps@).take(0) =~= Seq::<Seq<char>>::empty());
    while i < ps.len()
        invariant
            i <= ps.len(),
            views(ps@) == sp,
            views(r@) == named_parts(sp.take(i as int)),
        decreases ps.len() - i,
    {
        let ghost t = sp.take(i + 1);
        assert(t.drop_last() =~= sp.take(i as int));
        assert(t.last() == ps@[i as int]@);
        if !(ps[i].len() == 0 || chars_eq_str(&ps[i], ".")) {
            let ghost before = views(r@);
            let part = sub_chars(&ps[i], 0, ps[i].len());
            assert(part@ =~= ps@[i as int]@);
            r.push(part);
            assert(views(r@) =~= before.push(ps@[i as int]@));
        }
        i += 1;
    }
    assert(sp.take(ps.len() as int) =~= sp);
    r
}

fn key_flags(path: &[char]) -> (r: (bool, bool))
    ensures
        r.0 == path_key(path@).rooted,
        r.1 == path_key(path@).current,
{
    let n = path.len();
    let rooted = n > 0 && path[0] == '/';
    let dot = chars_eq_str(path, ".");
    let dot_slash = n >= 2 && path[0] == '.' && path[1] == '/';
    proof {
        reveal_strlit("./");
        if starts_with(path@, "./"@) {
            assert(path@.take(2)[0] == '.' && path@.take(2)[1] == '/');
        }
        if dot_slash {
            assert(path@.take(2) =~= "./"@);
        }
    }
    (rooted, !rooted && (dot || dot_slash))
}

/// Whether `a` and `b` name the same path, as `std::path::Path` compares
/// them: the same root, leading current directory and named parts.
pub fn same_path(a: &str, b: &str) -> (r: bool)
    ensures
        r == (path_key(a@) == path_key(b@)),
{
    let ca = chars_of(a);
    let cb = chars_of(b);
    let fa = key_flags(&ca);
    let fb = key_flags(&cb);
    if fa.0 != fb.0 || fa.1 != fb.1 {
        return false;
    }
    let pa = named_parts_of(&ca);
    let pb = named_parts_of(&cb);
    if pa.len() != pb.len() {
        assert(views(pa@).len() != views(pb@).len());
        return false;
    }
    let mut i: usize = 0;
    while i < pa.len()
        invariant
            i <= pa.len() == pb.len(),
            views(pa@) == path_key(a@).parts,
            views(pb@) == path_key(b@).parts,
            forall|j: int| 0 <= j < i ==> pa@[j]@ == pb@[j]@,
        decreases pa.len() - i,
    {
        if !chars_eq(&pa[i], &pb[i]) {
            assert(views(pa@)[i as int] == pa@[i as int]@);
            assert(views(pb@)[i as int] == pb@[i as int]@);
            assert(path_key(a@).parts[i as int] != path_key(b@).parts[i as int]);
            return false;
        }
        i += 1;
    }
    assert(views(pa@) =~= views(pb@));
    true
}

} // verus!
