//! The last steps of a search: keeping the fused results that pass the
//! metadata filters, cutting them to the number asked for, and ordering
//! them by name or by modification time, stably. Scores stay opaque.
use vstd::prelude::*;

verus! {

// ---------------------------------------------------------------------------
// Selection
// ---------------------------------------------------------------------------
/// The results of `fused` whose file is in `allowed` (all of them where
/// there is no filter), in order.
pub open spec fn allowed_only<S>(fused: Seq<(i64, S)>, allowed: Option<Seq<i64>>) -> Seq<(i64, S)>
    decreases fused.len(),
{
    if fused.len() == 0 {
        seq![]
    } else {
        let rest = allowed_only(fused.drop_last(), allowed);
        let keep = match allowed {
            Some(ids) => ids.contains(fused.last().0),
            None => true,
        };
        if keep {
            rest.push(fused.last())
        } else {
            rest
        }
    }
}

/// The first `top_k` results of `fused` that pass the filter `allowed`.
pub open spec fn selected<S>(fused: Seq<(i64, S)>, allowed: Option<Seq<i64>>, top_k: usize) -> Seq<
    (i64, S),
> {
    let kept = allowed_only(fused, allowed);
    if kept.len() <= top_k {
        kept
    } else {
        kept.take(top_k as int)
    }
}

/// The selected results are at most `top_k`, all pass the filter, and
/// keep the order of the fused list.
pub proof fn lemma_selected_results<S>(fused: Seq<(i64, S)>, allowed: Option<Seq<i64>>, top_k: usize)
    ensures
        selected(fused, allowed, top_k).len() <= top_k,
        forall|k: int|
            0 <= k < selected(fused, allowed, top_k).len() ==> (allowed matches Some(ids) ==> ids.contains(
                (#[trigger] selected(fused, allowed, top_k)[k]).0,
            )),
        forall|k: int|
            0 <= k < selected(fused, allowed, top_k).len() ==> exists|j: int|
                0 <= j < fused.len() && #[trigger] selected(fused, allowed, top_k)[k] == fused[j],
{
    lemma_allowed_only(fused, allowed);
}

proof fn lemma_allowed_only<S>(fused: Seq<(i64, S)>, allowed: Option<Seq<i64>>)
    ensures
        allowed_only(fused, allowed).len() <= fused.len(),
        forall|k: int|
            0 <= k < allowed_only(fused, allowed).len() ==> (allowed matches Some(ids) ==> ids.contains(
                (#[trigger] allowed_only(fused, allowed)[k]).0,
            )),
        forall|k: int|
            0 <= k < allowed_only(fused, allowed).len() ==> exists|j: int|
                0 <= j < fused.len() && #[trigger] allowed_only(fused, allowed)[k] == fused[j],
    decreases fused.len(),
{
    if fused.len() > 0 {
        let q = fused.drop_last();
        lemma_allowed_only(q, allowed);
        let rest = allowed_only(q, allowed);
        let w = allowed_only(fused, allowed);
        assert forall|k: int| 0 <= k < w.len() implies exists|j: int|
            0 <= j < fused.len() && #[trigger] w[k] == fused[j] by {
            if k < rest.len() {
                let j = choose|j: int| 0 <= j < q.len() && rest[k] == q[j];
                assert(w[k] == fused[j]);
            } else {
                assert(w[k] == fused[fused.len() - 1]);
            }
        }
        assert forall|k: int| 0 <= k < w.len() implies (allowed matches Some(ids) ==> ids.contains(
            (#[trigger] w[k]).0,
        )) by {
            if k < rest.len() {
                assert(w[k] == rest[k]);
            }
        }
    }
}

fn ids_contain(ids: &Vec<i64>, id: i64) -> (r: bool)
    ensures
        r == ids@.contains(id),
{
    let mut i: usize = 0;
    while i < ids.len()
        invariant
            i <= ids.len(),
            forall|j: int| 0 <= j < i ==> ids@[j] != id,
        decreases ids.len() - i,
    {
        if ids[i] == id {
            return true;
        }
        i += 1;
    }
    false
}

/// The first `top_k` results of `fused`, in order, whose file is in
/// `allowed` where there is such a filter.
pub fn select_ranked<S: Copy>(fused: &Vec<(i64, S)>, allowed: &Option<Vec<i64>>, top_k: usize) -> (r: Vec<
    (i64, S),
>)
    ensures
        r@ == selected(
            fused@,
            match allowed {
                Some(ids) => Some(ids@),
                None => None,
            },
            top_k,
        ),
{
    let ghost a = match allowed {
        Some(ids) => Some(ids@),
        None => None,
    };
    let mut kept: Vec<(i64, S)> = Vec::new();
    let mut i: usize = 0;
    while i < fused.len()
        invariant
            i <= fused.len(),
            a == match allowed {
                Some(ids) => Some(ids@),
                None => None::<Seq<i64>>,
            },
            kept@ == allowed_only(fused@.take(i as int), a),
        decreases fused.len() - i,
    {
        let item = fused[i];
        let keep = match allowed {
            Some(ids) => ids_contain(ids, item.0),
            None => true,
        };
        assert(fused@.take(i + 1).drop_last() =~= fused@.take(i as int));
        assert(fused@.take(i + 1).last() == fused@[i as int]);
        if keep {
            kept.push(item);
        }
        i += 1;
    }
    assert(fused@.take(fused.len() as int) =~= fused@);
    if kept.len() > top_k {
        kept.truncate(top_k);
    }
    kept
}

// ---------------------------------------------------------------------------
// Stable ordering
// ---------------------------------------------------------------------------
/// The first position of `order` that holds an element that goes after
/// `x`, by `greater`; the end where there is none.
pub open spec fn first_after(order: Seq<int>, x: int, greater: spec_fn(int, int) -> bool) -> int
    decreases order.len(),
{
    if order.len() == 0 {
        0
    } else if greater(order[0], x) {
        0
    } else {
        1 + first_after(order.drop_first(), x, greater)
    }
}

/// The stable order of the first `n` elements under `greater`: each
/// element in turn goes before the first element placed so far that goes
/// after it, which keeps equal elements in their order.
pub open spec fn stable_order(n: int, greater: spec_fn(int, int) -> bool) -> Seq<int>
    decreases n,
{
    if n <= 0 {
        seq![]
    } else {
        let o = stable_order(n - 1, greater);
        o.insert(first_after(o, n - 1, greater), n - 1)
    }
}

proof fn lemma_first_after_bound(order: Seq<int>, x: int, greater: spec_fn(int, int) -> bool)
    ensures
        0 <= first_after(order, x, greater) <= order.len(),
        forall|j: int|
            0 <= j < first_after(order, x, greater) ==> !greater(#[trigger] order[j], x),
        first_after(order, x, greater) < order.len() ==> greater(
            order[first_after(order, x, greater)],
            x,
        ),
    decreases order.len(),
{
    if order.len() > 0 && !greater(order[0], x) {
        lemma_first_after_bound(order.drop_first(), x, greater);
        assert forall|j: int| 0 <= j < first_after(order, x, greater) implies !greater(
            #[trigger] order[j],
            x,
        ) by {
            if j > 0 {
                assert(order[j] == order.drop_first()[j - 1]);
            }
        }
    }
}

proof fn lemma_stable_order_len(n: int, greater: spec_fn(int, int) -> bool)
    requires
        n >= 0,
    ensures
        stable_order(n, greater).len() == n,
    decreases n,
{
    if n > 0 {
        lemma_stable_order_len(n - 1, greater);
        lemma_first_after_bound(stable_order(n - 1, greater), n - 1, greater);
    }
}

/// The order of values by time: oldest first, or newest first.
pub open spec fn time_greater(times: Seq<i64>, newest_first: bool) -> spec_fn(int, int) -> bool {
    |a: int, b: int| if newest_first {
        times[a] < times[b]
    } else {
        times[a] > times[b]
    }
}

/// Whether `a` comes after `b` in lexicographic order of code points (the
/// order of their UTF-8 bytes).
pub open spec fn lex_greater(a: Seq<char>, b: Seq<char>) -> bool
    decreases a.len(),
{
    if a.len() == 0 {
        false
    } else if b.len() == 0 {
        true
    } else if a[0] != b[0] {
        (a[0] as u32) > (b[0] as u32)
    } else {
        lex_greater(a.drop_first(), b.drop_first())
    }
}

/// The order of names: A to Z, or Z to A.
pub open spec fn name_greater(names: Seq<Seq<char>>, descending: bool) -> spec_fn(int, int) -> bool {
    |a: int, b: int| if descending {
        lex_greater(names[b], names[a])
    } else {
        lex_greater(names[a], names[b])
    }
}

fn chars_greater(a: &[char], b: &[char]) -> (r: bool)
    ensures
        r == lex_greater(a@, b@),
{
    let mut i: usize = 0;
    assert(a@.skip(0) =~= a@);
    assert(b@.skip(0) =~= b@);
    while i < a.len() && i < b.len() && a[i] == b[i]
        invariant
            i <= a.len(),
            i <= b.len(),
            lex_greater(a@, b@) == lex_greater(a@.skip(i as int), b@.skip(i as int)),
        decreases a.len() - i,
    {
        assert(a@.skip(i as int).drop_first() =~= a@.skip(i + 1));
        assert(b@.skip(i as int).drop_first() =~= b@.skip(i + 1));
        i += 1;
    }
    if i == a.len() {
        assert(a@.skip(i as int).len() == 0);
        false
    } else if i == b.len() {
        assert(b@.skip(i as int).len() == 0);
        true
    } else {
        assert(a@.skip(i as int)[0] == a@[i as int]);
        assert(b@.skip(i as int)[0] == b@[i as int]);
        (a[i] as u32) > (b[i] as u32)
    }
}

/// The views of positions, as integers.
pub open spec fn positions(v: Seq<usize>) -> Seq<int> {
    v.map_values(|i: usize| i as int)
}

proof fn lemma_insert_positions(v: Seq<usize>, p: int, x: usize)
    requires
        0 <= p <= v.len(),
    ensures
        positions(v.insert(p, x)) == positions(v).insert(p, x as int),
{
    assert(positions(v.insert(p, x)) =~= positions(v).insert(p, x as int));
}

/// The positions of `times` in stable order of time: oldest first, or
/// newest first, equal times keeping their order.
pub fn order_by_time(times: &Vec<i64>, newest_first: bool) -> (r: Vec<usize>)
    ensures
        positions(r@) == stable_order(times@.len() as int, time_greater(times@, newest_first)),
        is_stable_sort(positions(r@), times@.len() as int, time_greater(times@, newest_first)),
{
    proof {
        lemma_time_order_is_strict_weak(times@, newest_first);
        lemma_stable_order_sorts(times@.len() as int, time_greater(times@, newest_first));
    }
    let ghost g = time_greater(times@, newest_first);
    let mut order: Vec<usize> = Vec::new();
    let mut i: usize = 0;
    while i < times.len()
        invariant
            i <= times.len(),
            g == time_greater(times@, newest_first),
            positions(order@) == stable_order(i as int, g),
            forall|k: int| 0 <= k < order@.len() ==> #[trigger] order@[k] < i,
        decreases times.len() - i,
    {
        proof {
            lemma_stable_order_len(i as int, g);
        }
        let ghost o = positions(order@);
        let mut p: usize = 0;
        assert(o.skip(0) =~= o);
        while p < order.len()
            invariant
                p <= order@.len(),
                i < times@.len(),
                o == positions(order@),
                g == time_greater(times@, newest_first),
                forall|k: int| 0 <= k < order@.len() ==> #[trigger] order@[k] < i,
                first_after(o, i as int, g) == p + first_after(o.skip(p as int), i as int, g),
            ensures
                p <= order@.len(),
                first_after(o, i as int, g) == p,
            decreases order@.len() - p,
        {
            let j = order[p];
            assert(o.skip(p as int)[0] == j as int);
            let after = if newest_first {
                times[j] < times[i]
            } else {
                times[j] > times[i]
            };
            assert(after == g(j as int, i as int));
            if after {
                assert(first_after(o.skip(p as int), i as int, g) == 0);
                break;
            }
            assert(o.skip(p as int).drop_first() =~= o.skip(p + 1));
            p += 1;
        }
        proof {
            lemma_insert_positions(order@, p as int, i);
        }
        let ghost before = order@;
        order.insert(p, i);
        assert forall|k: int| 0 <= k < order@.len() implies #[trigger] order@[k] < i + 1 by {
            if k < p {
                assert(order@[k] == before[k]);
            } else if k > p {
                assert(order@[k] == before[k - 1]);
            }
        }
        i += 1;
    }
    order
}

/// The positions of `names` in stable order of name: A to Z, or Z to A,
/// equal names keeping their order.
pub fn order_by_name(names: &Vec<String>, descending: bool) -> (r: Vec<usize>)
    ensures
        positions(r@) == stable_order(
            names@.len() as int,
            name_greater(crate::strings::string_views(names@), descending),
        ),
        is_stable_sort(
            positions(r@),
            names@.len() as int,
            name_greater(crate::strings::string_views(names@), descending),
        ),
{
    proof {
        lemma_name_order_is_strict_weak(crate::strings::string_views(names@), descending);
        lemma_stable_order_sorts(
            names@.len() as int,
            name_greater(crate::strings::string_views(names@), descending),
        );
    }
    let ghost ns = crate::strings::string_views(names@);
    let ghost g = name_greater(ns, descending);
    let mut order: Vec<usize> = Vec::new();
    let mut i: usize = 0;
    while i < names.len()
        invariant
            i <= names.len(),
            ns == crate::strings::string_views(names@),
            g == name_greater(ns, descending),
            positions(order@) == stable_order(i as int, g),
            forall|k: int| 0 <= k < order@.len() ==> #[trigger] order@[k] < i,
        decreases names.len() - i,
    {
        proof {
            lemma_stable_order_len(i as int, g);
        }
        let name_i = crate::strings::chars_of(names[i].as_str());
        let ghost o = positions(order@);
        let mut p: usize = 0;
        assert(o.skip(0) =~= o);
        while p < order.len()
            invariant
                p <= order@.len(),
                i < names@.len(),
                name_i@ == ns[i as int],
                ns == crate::strings::string_views(names@),
                o == positions(order@),
                g == name_greater(ns, descending),
                forall|k: int| 0 <= k < order@.len() ==> #[trigger] order@[k] < i,
                first_after(o, i as int, g) == p + first_after(o.skip(p as int), i as int, g),
            ensures
                p <= order@.len(),
                first_after(o, i as int, g) == p,
            decreases order@.len() - p,
        {
            let j = order[p];
            assert(o.skip(p as int)[0] == j as int);
            let name_j = crate::strings::chars_of(names[j].as_str());
            assert(name_j@ == ns[j as int]);
            let after = if descending {
                chars_greater(&name_i, &name_j)
            } else {
                chars_greater(&name_j, &name_i)
            };
            assert(after == g(j as int, i as int));
            if after {
                assert(first_after(o.skip(p as int), i as int, g) == 0);
                break;
            }
            assert(o.skip(p as int).drop_first() =~= o.skip(p + 1));
            p += 1;
        }
        proof {
            lemma_insert_positions(order@, p as int, i);
        }
        let ghost before = order@;
        order.insert(p, i);
        assert forall|k: int| 0 <= k < order@.len() implies #[trigger] order@[k] < i + 1 by {
            if k < p {
                assert(order@[k] == before[k]);
            } else if k > p {
                assert(order@[k] == before[k - 1]);
            }
        }
        i += 1;
    }
    order
}

/// `greater` orders `0..n` as a strict weak order: nothing goes after
/// itself, going after is transitive, and so is being no later.
pub open spec fn strict_weak(greater: spec_fn(int, int) -> bool, n: int) -> bool {
    &&& forall|a: int| 0 <= a < n ==> !#[trigger] greater(a, a)
    &&& forall|a: int, b: int, c: int|
        0 <= a < n && 0 <= b < n && 0 <= c < n && #[trigger] greater(a, b) && #[trigger] greater(b, c)
            ==> greater(a, c)
    &&& forall|a: int, b: int, c: int|
        0 <= a < n && 0 <= b < n && 0 <= c < n && #[trigger] greater(a, c) ==> greater(a, b)
            || #[trigger] greater(b, c)
}

/// `order` lists each of `0..n` once, no element before one it goes
/// after, and equivalent elements in the order they came in.
pub open spec fn is_stable_sort(order: Seq<int>, n: int, greater: spec_fn(int, int) -> bool) -> bool {
    &&& order.len() == n
    &&& forall|k: int| 0 <= k < n ==> 0 <= #[trigger] order[k] < n
    &&& forall|p: int, q: int| 0 <= p < q < n ==> #[trigger] order[p] != #[trigger] order[q]
    &&& forall|p: int, q: int| 0 <= p < q < n ==> !greater(#[trigger] order[p], #[trigger] order[q])
    &&& forall|p: int, q: int|
        0 <= p < q < n && !greater(#[trigger] order[q], #[trigger] order[p]) ==> order[p] < order[q]
}

/// Under a strict weak order, the stable order is a stable sort: a
/// permutation, in order, with equivalent elements kept in their order.
pub proof fn lemma_stable_order_sorts(n: int, greater: spec_fn(int, int) -> bool)
    requires
        n >= 0,
        strict_weak(greater, n),
    ensures
        is_stable_sort(stable_order(n, greater), n, greater),
    decreases n,
{
    if n > 0 {
        let m = n - 1;
        assert(strict_weak(greater, m));
        lemma_stable_order_sorts(m, greater);
        let o = stable_order(m, greater);
        let f = first_after(o, m, greater);
        lemma_first_after_bound(o, m, greater);
        let r = o.insert(f, m);
        assert(r == stable_order(n, greater));
        assert forall|k: int| 0 <= k < n implies 0 <= #[trigger] r[k] < n by {
            if k < f {
                assert(r[k] == o[k]);
            } else if k > f {
                assert(r[k] == o[k - 1]);
            }
        }
        assert forall|p: int, q: int| 0 <= p < q < n implies #[trigger] r[p] != #[trigger] r[q] by {
            if q < f {
                assert(r[p] == o[p] && r[q] == o[q]);
            } else if q == f {
                assert(r[p] == o[p]);
            } else if p < f {
                assert(r[p] == o[p] && r[q] == o[q - 1]);
            } else if p == f {
                assert(r[q] == o[q - 1]);
            } else {
                assert(r[p] == o[p - 1] && r[q] == o[q - 1]);
            }
        }
        assert forall|p: int, q: int| 0 <= p < q < n implies !greater(
            #[trigger] r[p],
            #[trigger] r[q],
        ) by {
            if q < f {
                assert(r[p] == o[p] && r[q] == o[q]);
            } else if q == f {
                assert(r[p] == o[p]);
                assert(!greater(o[p], m));
            } else if p < f {
                assert(r[p] == o[p] && r[q] == o[q - 1]);
            } else if p == f {
                let j = q - 1;
                assert(r[q] == o[j]);
                if greater(m, o[j]) {
                    assert(greater(o[f], m));
                    assert(greater(o[f], o[j]));
                }
            } else {
                assert(r[p] == o[p - 1] && r[q] == o[q - 1]);
            }
        }
        assert forall|p: int, q: int|
            0 <= p < q < n && !greater(#[trigger] r[q], #[trigger] r[p]) implies r[p] < r[q] by {
            if q < f {
                assert(r[p] == o[p] && r[q] == o[q]);
            } else if q == f {
                assert(r[p] == o[p]);
            } else if p < f {
                assert(r[p] == o[p] && r[q] == o[q - 1]);
            } else if p == f {
                let j = q - 1;
                assert(r[q] == o[j]);
                assert(greater(o[f], m));
                if j > f {
                    assert(!greater(o[f], o[j]));
                    assert(greater(o[f], o[j]) || greater(o[j], m));
                }
                assert(greater(o[j], m));
            } else {
                assert(r[p] == o[p - 1] && r[q] == o[q - 1]);
            }
        }
    }
}

/// Ordering by time is a strict weak order.
pub proof fn lemma_time_order_is_strict_weak(times: Seq<i64>, newest_first: bool)
    ensures
        strict_weak(time_greater(times, newest_first), times.len() as int),
{
}

proof fn lemma_lex_irreflexive(a: Seq<char>)
    ensures
        !lex_greater(a, a),
    decreases a.len(),
{
    if a.len() > 0 {
        lemma_lex_irreflexive(a.drop_first());
    }
}

proof fn lemma_lex_transitive(a: Seq<char>, b: Seq<char>, c: Seq<char>)
    requires
        lex_greater(a, b),
        lex_greater(b, c),
    ensures
        lex_greater(a, c),
    decreases a.len(),
{
    if a.len() > 0 && b.len() > 0 && c.len() > 0 && a[0] == b[0] && b[0] == c[0] {
        lemma_lex_transitive(a.drop_first(), b.drop_first(), c.drop_first());
    }
}

proof fn lemma_lex_total(a: Seq<char>, b: Seq<char>)
    ensures
        lex_greater(a, b) || lex_greater(b, a) || a == b,
    decreases a.len(),
{
    if a.len() > 0 && b.len() > 0 && a[0] == b[0] {
        let a1 = a.drop_first();
        let b1 = b.drop_first();
        lemma_lex_total(a1, b1);
        if a1 == b1 {
            assert(a1.len() == a.len() - 1 && b1.len() == b.len() - 1);
            assert(a.len() == b.len());
            assert forall|i: int| 0 <= i < a.len() implies a[i] == b[i] by {
                if i > 0 {
                    assert(a[i] == a.drop_first()[i - 1]);
                    assert(b[i] == b.drop_first()[i - 1]);
                }
            }
            assert(a =~= b);
        }
    } else if a.len() == 0 && b.len() == 0 {
        assert(a =~= b);
    } else if a.len() > 0 && b.len() > 0 && a[0] != b[0] {
        assert(a[0] as u32 != b[0] as u32) by {
            vstd::utf8::char_u32_cast(a[0], a[0] as u32);
            vstd::utf8::char_u32_cast(b[0], b[0] as u32);
        }
    }
}

/// Ordering by name is a strict weak order.
pub proof fn lemma_name_order_is_strict_weak(names: Seq<Seq<char>>, descending: bool)
    ensures
        strict_weak(name_greater(names, descending), names.len() as int),
{
    let g = name_greater(names, descending);
    let n = names.len() as int;
    assert forall|a: int| 0 <= a < n implies !#[trigger] g(a, a) by {
        lemma_lex_irreflexive(names[a]);
    }
    assert forall|a: int, b: int, c: int|
        0 <= a < n && 0 <= b < n && 0 <= c < n && #[trigger] g(a, b) && #[trigger] g(b, c) implies g(
        a,
        c,
    ) by {
        if descending {
            lemma_lex_transitive(names[c], names[b], names[a]);
        } else {
            lemma_lex_transitive(names[a], names[b], names[c]);
        }
    }
    assert forall|a: int, b: int, c: int|
        0 <= a < n && 0 <= b < n && 0 <= c < n && #[trigger] g(a, c) implies g(a, b)
        || #[trigger] g(b, c) by {
        lemma_lex_total(names[a], names[b]);
        lemma_lex_total(names[b], names[c]);
        if descending {
            if lex_greater(names[a], names[b]) && lex_greater(names[b], names[c]) {
                lemma_lex_transitive(names[a], names[b], names[c]);
                lemma_lex_transitive(names[c], names[a], names[c]);
                lemma_lex_irreflexive(names[c]);
            }
            if lex_greater(names[a], names[b]) && names[b] == names[c] {
                lemma_lex_transitive(names[c], names[a], names[b]);
                lemma_lex_irreflexive(names[b]);
            }
            if names[a] == names[b] && lex_greater(names[b], names[c]) {
                lemma_lex_transitive(names[c], names[b], names[c]);
                lemma_lex_irreflexive(names[c]);
            }
            if names[a] == names[b] && names[b] == names[c] {
                lemma_lex_irreflexive(names[a]);
            }
        } else {
            if lex_greater(names[b], names[a]) && lex_greater(names[c], names[b]) {
                lemma_lex_transitive(names[c], names[b], names[a]);
                lemma_lex_transitive(names[a], names[c], names[a]);
                lemma_lex_irreflexive(names[a]);
            }
            if lex_greater(names[b], names[a]) && names[b] == names[c] {
                lemma_lex_transitive(names[a], names[c], names[a]);
                lemma_lex_irreflexive(names[a]);
            }
            if names[a] == names[b] && lex_greater(names[c], names[b]) {
                lemma_lex_transitive(names[a], names[c], names[a]);
                lemma_lex_irreflexive(names[a]);
            }
            if names[a] == names[b] && names[b] == names[c] {
                lemma_lex_irreflexive(names[a]);
            }
        }
    }
}

} // verus!
