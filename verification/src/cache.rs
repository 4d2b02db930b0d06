//! The in-memory caches: query results, evicted least-recently-used first
//! and dropped when a file they mention changes; and parsed queries, kept
//! for a time to live. Times are nanoseconds since the cache was made.
use vstd::prelude::*;
use crate::events::instant_now;
use crate::events::nanos_since;
use crate::types::FileId;

verus! {

// ---------------------------------------------------------------------------
// Query results
// ---------------------------------------------------------------------------
/// A cached query result with the time it was stored and last read, and
/// the files it mentions.
pub struct CacheSlot<V> {
    pub key: u64,
    pub value: V,
    pub created_at: u128,
    pub last_accessed: u128,
    pub file_ids: Vec<FileId>,
}

/// A cached query result taken by value.
pub struct SlotView<V> {
    pub key: u64,
    pub value: V,
    pub last_accessed: u128,
    pub file_ids: Seq<FileId>,
}

/// The views of a sequence of slots.
pub open spec fn slot_views<V>(s: Seq<CacheSlot<V>>) -> Seq<SlotView<V>> {
    s.map_values(
        |c: CacheSlot<V>|
            SlotView { key: c.key, value: c.value, last_accessed: c.last_accessed, file_ids: c.file_ids@ },
    )
}

/// No two slots have the same key.
pub open spec fn keys_distinct<V>(s: Seq<SlotView<V>>) -> bool {
    forall|i: int, j: int|
        0 <= i < s.len() && 0 <= j < s.len() && i != j ==> #[trigger] s[i].key != #[trigger] s[j].key
}

/// The position of the slot for `key`, if any.
pub open spec fn key_position<V>(s: Seq<SlotView<V>>, key: u64) -> Option<int> {
    if exists|i: int| 0 <= i < s.len() && s[i].key == key {
        Some(choose|i: int| 0 <= i < s.len() && s[i].key == key)
    } else {
        None
    }
}

/// The first of the first `n` slots that was read least recently.
pub open spec fn lru_index<V>(s: Seq<SlotView<V>>, n: int) -> int
    decreases n,
{
    if n <= 1 {
        0
    } else {
        let m = lru_index(s, n - 1);
        if s[n - 1].last_accessed < s[m].last_accessed {
            n - 1
        } else {
            m
        }
    }
}

/// The slots after `entry` is stored: it replaces the slot for its key
/// where there is one; else, at capacity, the slot read least recently
/// goes first and `entry` joins the end.
pub open spec fn after_put<V>(s: Seq<SlotView<V>>, entry: SlotView<V>, max_size: usize) -> Seq<
    SlotView<V>,
> {
    match key_position(s, entry.key) {
        Some(i) => s.update(i, entry),
        None => if s.len() >= max_size && s.len() > 0 {
            s.remove(lru_index(s, s.len() as int)).push(entry)
        } else {
            s.push(entry)
        },
    }
}

/// The slots after the slot for `key`, if any, is read at time `now`.
pub open spec fn after_get<V>(s: Seq<SlotView<V>>, key: u64, now: u128) -> Seq<SlotView<V>> {
    match key_position(s, key) {
        Some(i) => s.update(i, SlotView { last_accessed: now, ..s[i] }),
        None => s,
    }
}

/// The slot of a result stored at time `now`.
pub open spec fn new_slot<V>(key: u64, value: V, now: u128, file_ids: Seq<FileId>) -> SlotView<V> {
    SlotView { key, value, last_accessed: now, file_ids }
}

/// The slots that do not mention the file `file_id`, in order.
pub open spec fn without_file<V>(s: Seq<SlotView<V>>, file_id: FileId) -> Seq<SlotView<V>>
    decreases s.len(),
{
    if s.len() == 0 {
        seq![]
    } else {
        let rest = without_file(s.drop_last(), file_id);
        if s.last().file_ids.contains(file_id) {
            rest
        } else {
            rest.push(s.last())
        }
    }
}

/// The cache of query results, keyed by a hash of the query.
pub struct QueryCache<V> {
    entries: Vec<CacheSlot<V>>,
    max_size: usize,
    origin: std::time::Instant,
    clock: u128,
}

fn ids_contain(v: &Vec<FileId>, id: FileId) -> (r: bool)
    ensures
        r == v@.contains(id),
{
    let mut i: usize = 0;
    while i < v.len()
        invariant
            i <= v.len(),
            forall|j: int| 0 <= j < i ==> v@[j] != id,
        decreases v.len() - i,
    {
        if v[i] == id {
            return true;
        }
        i += 1;
    }
    false
}

impl<V> QueryCache<V> {
    /// The cached results, in the order they were stored.
    pub closed spec fn slots(&self) -> Seq<SlotView<V>> {
        slot_views(self.entries@)
    }

    /// The most results it holds before it evicts.
    pub closed spec fn capacity(&self) -> usize {
        self.max_size
    }

    /// The latest time the cache read from the clock, in nanoseconds since
    /// it was made.
    pub closed spec fn time(&self) -> u128 {
        self.clock
    }

    #[verifier::type_invariant]
    closed spec fn inv(&self) -> bool {
        keys_distinct(slot_views(self.entries@))
    }
}

impl<V: Clone> QueryCache<V> {

    /// An empty cache that holds up to `max_size` results.
    pub fn new(max_size: usize) -> (r: QueryCache<V>)
        ensures
            r.slots().len() == 0,
            r.capacity() == max_size,
            r.time() == 0,
    {
        let r = QueryCache { entries: Vec::new(), max_size, origin: instant_now(), clock: 0 };
        assert(r.slots() =~= Seq::<SlotView<V>>::empty());
        r
    }

    fn position(&self, key: u64) -> (r: Option<usize>)
        requires
            keys_distinct(self.slots()),
        ensures
            match r {
                Some(i) => key_position(self.slots(), key) == Some(i as int),
                None => key_position(self.slots(), key) is None,
            },
    {
        let ghost s = self.slots();
        let mut i: usize = 0;
        while i < self.entries.len()
            invariant
                i <= self.entries@.len(),
                s == slot_views(self.entries@),
                keys_distinct(s),
                forall|j: int| 0 <= j < i ==> s[j].key != key,
            decreases self.entries@.len() - i,
        {
            if self.entries[i].key == key {
                assert(s[i as int].key == key);
                assert(key_position(s, key) == Some(i as int)) by {
                    let k = choose|k: int| 0 <= k < s.len() && s[k].key == key;
                    if k != i as int {
                        assert(s[k].key != s[i as int].key);
                    }
                }
                return Some(i);
            }
            i += 1;
        }
        None
    }

    /// The result cached under `key`, read at time `now`, which becomes
    /// its last access.
    pub fn get_at(&mut self, key: u64, now: u128) -> (r: Option<V>)
        ensures
            final(self).slots() == after_get(old(self).slots(), key, now),
            match key_position(old(self).slots(), key) {
                Some(i) => r matches Some(v) && cloned(old(self).slots()[i].value, v),
                None => r is None,
            },
            final(self).capacity() == old(self).capacity(),
            final(self).time() == old(self).time(),
    {
        proof {
            use_type_invariant(&*self);
        }
        match self.position(key) {
            Some(i) => {
                let ghost s = self.slots();
                let mut entries: Vec<CacheSlot<V>> = Vec::new();
                std::mem::swap(&mut entries, &mut self.entries);
                let old_slot = entries.remove(i);
                let v = old_slot.value.clone();
                let slot = CacheSlot {
                    key: old_slot.key,
                    value: old_slot.value,
                    created_at: old_slot.created_at,
                    last_accessed: now,
                    file_ids: old_slot.file_ids,
                };
                entries.insert(i, slot);
                let ghost t = slot_views(entries@);
                assert(t =~= s.update(i as int, SlotView { last_accessed: now, ..s[i as int] }));
                assert(keys_distinct(t)) by {
                    assert forall|a: int, b: int|
                        0 <= a < t.len() && 0 <= b < t.len() && a != b implies #[trigger] t[a].key
                        != #[trigger] t[b].key by {
                        assert(t[a].key == s[a].key && t[b].key == s[b].key);
                    }
                }
                self.entries = entries;
                Some(v)
            },
            None => None,
        }
    }

    fn lru(&self) -> (r: usize)
        requires
            self.slots().len() > 0,
        ensures
            r as int == lru_index(self.slots(), self.slots().len() as int),
            r < self.slots().len(),
    {
        let ghost s = self.slots();
        let mut m: usize = 0;
        let mut i: usize = 1;
        while i < self.entries.len()
            invariant
                1 <= i <= self.entries@.len(),
                s == slot_views(self.entries@),
                m < i,
                m as int == lru_index(s, i as int),
            decreases self.entries@.len() - i,
        {
            if self.entries[i].last_accessed < self.entries[m].last_accessed {
                m = i;
            }
            i += 1;
        }
        m
    }

    /// Stores `results` under `key` at time `now`, with the files they
    /// mention; at capacity the result read least recently is evicted
    /// first.
    pub fn put_at(&mut self, key: u64, results: V, file_ids: Vec<FileId>, now: u128)
        ensures
            final(self).slots() == after_put(
                old(self).slots(),
                new_slot(key, results, now, file_ids@),
                old(self).capacity(),
            ),
            final(self).capacity() == old(self).capacity(),
            final(self).time() == old(self).time(),
    {
        proof {
            use_type_invariant(&*self);
        }
        let ghost s = self.slots();
        let ghost entry = SlotView { key, value: results, last_accessed: now, file_ids: file_ids@ };
        let slot = CacheSlot { key, value: results, created_at: now, last_accessed: now, file_ids };
        match self.position(key) {
            Some(i) => {
                let mut entries: Vec<CacheSlot<V>> = Vec::new();
                std::mem::swap(&mut entries, &mut self.entries);
                entries.set(i, slot);
                let ghost t = slot_views(entries@);
                assert(t =~= s.update(i as int, entry));
                assert(keys_distinct(t)) by {
                    assert forall|a: int, b: int|
                        0 <= a < t.len() && 0 <= b < t.len() && a != b implies #[trigger] t[a].key
                        != #[trigger] t[b].key by {
                        assert(t[a].key == s[a].key && t[b].key == s[b].key);
                    }
                }
                self.entries = entries;
            },
            None => {
                let mut entries: Vec<CacheSlot<V>> = Vec::new();
                if self.entries.len() >= self.max_size && self.entries.len() > 0 {
                    let k = self.lru();
                    std::mem::swap(&mut entries, &mut self.entries);
                    entries.remove(k);
                    assert(slot_views(entries@) =~= s.remove(k as int));
                } else {
                    std::mem::swap(&mut entries, &mut self.entries);
                }
                let ghost s1 = slot_views(entries@);
                assert(forall|j: int| 0 <= j < s.len() ==> s[j].key != key);
                assert(forall|j: int| 0 <= j < s1.len() ==> s1[j].key != key) by {
                    assert forall|j: int| 0 <= j < s1.len() implies s1[j].key != key by {
                        if s1.len() < s.len() {
                            let k = lru_index(s, s.len() as int);
                            let ij = if j < k { j } else { j + 1 };
                            assert(s1[j] == s[ij]);
                        } else {
                            assert(s1[j] == s[j]);
                        }
                    }
                }
                assert(keys_distinct(s1)) by {
                    assert forall|a: int, b: int|
                        0 <= a < s1.len() && 0 <= b < s1.len() && a != b implies #[trigger] s1[a].key
                        != #[trigger] s1[b].key by {
                        if s1.len() < s.len() {
                            let k = lru_index(s, s.len() as int);
                            let ia = if a < k { a } else { a + 1 };
                            let ib = if b < k { b } else { b + 1 };
                            assert(s1[a] == s[ia] && s1[b] == s[ib]);
                        } else {
                            assert(s1[a] == s[a] && s1[b] == s[b]);
                        }
                    }
                }
                entries.push(slot);
                let ghost t = slot_views(entries@);
                assert(t =~= s1.push(entry));
                assert(keys_distinct(t)) by {
                    assert forall|a: int, b: int|
                        0 <= a < t.len() && 0 <= b < t.len() && a != b implies #[trigger] t[a].key
                        != #[trigger] t[b].key by {
                        if a < s1.len() && b < s1.len() {
                            assert(t[a] == s1[a] && t[b] == s1[b]);
                        } else if a < s1.len() {
                            assert(t[a] == s1[a]);
                        } else {
                            assert(t[b] == s1[b]);
                        }
                    }
                }
                self.entries = entries;
            },
        }
    }

    /// The time now, by the monotonic clock: never before the latest time
    /// read.
    fn tick(&mut self) -> (now: u128)
        ensures
            now >= old(self).time(),
            final(self).time() == now,
            final(self).slots() == old(self).slots(),
            final(self).capacity() == old(self).capacity(),
    {
        proof {
            use_type_invariant(&*self);
        }
        let t = nanos_since(&self.origin);
        let now = if t > self.clock {
            t
        } else {
            self.clock
        };
        self.clock = now;
        now
    }

    /// The result cached under `key`, read now; the time moves on (never
    /// back) to the time of the read.
    pub fn get(&mut self, key: u64) -> (r: Option<V>)
        ensures
            final(self).time() >= old(self).time(),
            after_get(old(self).slots(), key, final(self).time()) == final(self).slots(),
            match key_position(old(self).slots(), key) {
                Some(i) => r matches Some(v) && cloned(old(self).slots()[i].value, v),
                None => r is None,
            },
            final(self).capacity() == old(self).capacity(),
    {
        let now = self.tick();
        self.get_at(key, now)
    }

    /// Stores `results` under `key` now, with the files they mention; the
    /// time moves on (never back) to the time of the store.
    pub fn put(&mut self, key: u64, results: V, file_ids: Vec<FileId>)
        ensures
            final(self).time() >= old(self).time(),
            after_put(
                old(self).slots(),
                new_slot(key, results, final(self).time(), file_ids@),
                old(self).capacity(),
            ) == final(self).slots(),
            final(self).capacity() == old(self).capacity(),
    {
        let now = self.tick();
        self.put_at(key, results, file_ids, now);
    }

    /// Drops every cached result that mentions the file `file_id`.
    pub fn invalidate_file(&mut self, file_id: FileId)
        ensures
            final(self).slots() == without_file(old(self).slots(), file_id),
            final(self).capacity() == old(self).capacity(),
            final(self).time() == old(self).time(),
    {
        proof {
            use_type_invariant(&*self);
        }
        let ghost s = self.slots();
        let mut old_entries: Vec<CacheSlot<V>> = Vec::new();
        std::mem::swap(&mut old_entries, &mut self.entries);
        assert(slot_views(old_entries@) == s);
        let mut kept: Vec<CacheSlot<V>> = Vec::new();
        for slot in it: old_entries
            invariant
                slot_views(it.seq()) == s,
                slot_views(kept@) == without_file(s.take(it.index() as int), file_id),
        {
            let ghost i = it.index();
            let ghost before = slot_views(kept@);
            assert(s.take(i + 1).drop_last() =~= s.take(i as int));
            assert(s.take(i + 1).last() == s[i as int]);
            if !ids_contain(&slot.file_ids, file_id) {
                kept.push(slot);
                assert(slot_views(kept@) =~= before.push(s[i as int]));
            }
        }
        assert(s.take(s.len() as int) =~= s);
        proof {
            lemma_without_file_distinct(s, file_id);
        }
        self.entries = kept;
    }

    /// Drops every cached result.
    pub fn clear(&mut self)
        ensures
            final(self).slots().len() == 0,
            final(self).capacity() == old(self).capacity(),
            final(self).time() == old(self).time(),
    {
        self.entries = Vec::new();
        assert(self.slots() =~= Seq::<SlotView<V>>::empty());
    }

    /// The number of cached results.
    pub fn len(&self) -> (r: usize)
        ensures
            r == self.slots().len(),
    {
        self.entries.len()
    }

    /// The number of cached results and the capacity.
    pub fn hit_rate_info(&self) -> (r: (usize, usize))
        ensures
            r.0 == self.slots().len(),
            r.1 == self.capacity(),
    {
        (self.entries.len(), self.max_size)
    }
}

// ---------------------------------------------------------------------------
// Parsed queries
// ---------------------------------------------------------------------------
/// A parsed query as cached: the text to search for and the filters,
/// serialized.
#[derive(Clone, Debug)]
pub struct ParsedQueryCacheEntry {
    pub semantic_query: String,
    pub filters_json: String,
}

impl ParsedQueryCacheEntry {
    /// A copy of this entry.
    pub fn copy(&self) -> (r: ParsedQueryCacheEntry)
        ensures
            r.semantic_query@ == self.semantic_query@,
            r.filters_json@ == self.filters_json@,
    {
        ParsedQueryCacheEntry {
            semantic_query: self.semantic_query.clone(),
            filters_json: self.filters_json.clone(),
        }
    }
}

/// A cached parsed query with the raw query it came from and the time it
/// was stored.
pub struct ParsedSlot {
    pub query: String,
    pub entry: ParsedQueryCacheEntry,
    pub created: u128,
}

/// A cached parsed query taken by value.
pub struct ParsedView {
    pub query: Seq<char>,
    pub semantic_query: Seq<char>,
    pub filters_json: Seq<char>,
    pub created: u128,
}

/// The views of a sequence of cached parsed queries.
pub open spec fn parsed_views(s: Seq<ParsedSlot>) -> Seq<ParsedView> {
    s.map_values(
        |p: ParsedSlot|
            ParsedView {
                query: p.query@,
                semantic_query: p.entry.semantic_query@,
                filters_json: p.entry.filters_json@,
                created: p.created,
            },
    )
}

/// No two cached parsed queries come from the same raw query.
pub open spec fn queries_distinct(s: Seq<ParsedView>) -> bool {
    forall|i: int, j: int|
        0 <= i < s.len() && 0 <= j < s.len() && i != j ==> #[trigger] s[i].query != #[trigger] s[j].query
}

/// The position of the parsed query cached for `raw`, if any.
pub open spec fn query_position(s: Seq<ParsedView>, raw: Seq<char>) -> Option<int> {
    if exists|i: int| 0 <= i < s.len() && s[i].query == raw {
        Some(choose|i: int| 0 <= i < s.len() && s[i].query == raw)
    } else {
        None
    }
}

/// Whether something stored at `created` is younger than `ttl` at `now`
/// (the time since is zero where the clock reads earlier).
pub open spec fn is_fresh(created: u128, now: u128, ttl: u128) -> bool {
    (if now >= created {
        now - created
    } else {
        0
    }) < ttl
}

/// The parsed query cached for `raw` that is still fresh at `now`.
pub open spec fn fresh_lookup(s: Seq<ParsedView>, raw: Seq<char>, now: u128, ttl: u128) -> Option<
    ParsedView,
> {
    match query_position(s, raw) {
        Some(i) => if is_fresh(s[i].created, now, ttl) {
            Some(s[i])
        } else {
            None
        },
        None => None,
    }
}

/// The cached parsed queries that are still fresh at `now`, in order.
pub open spec fn fresh_only(s: Seq<ParsedView>, now: u128, ttl: u128) -> Seq<ParsedView>
    decreases s.len(),
{
    if s.len() == 0 {
        seq![]
    } else {
        let rest = fresh_only(s.drop_last(), now, ttl);
        if is_fresh(s.last().created, now, ttl) {
            rest.push(s.last())
        } else {
            rest
        }
    }
}

/// The first of the first `n` cached parsed queries that was stored
/// earliest.
pub open spec fn oldest_index(s: Seq<ParsedView>, n: int) -> int
    decreases n,
{
    if n <= 1 {
        0
    } else {
        let m = oldest_index(s, n - 1);
        if s[n - 1].created < s[m].created {
            n - 1
        } else {
            m
        }
    }
}

/// The cached parsed queries after `entry` is stored at `now`: the stale
/// ones go, then at capacity the oldest, then `entry` replaces the one for
/// its raw query or joins the end.
pub open spec fn after_parsed_put(s: Seq<ParsedView>, entry: ParsedView, now: u128, ttl: u128, max_size: usize) -> Seq<
    ParsedView,
> {
    let s1 = fresh_only(s, now, ttl);
    let s2 = if s1.len() >= max_size && s1.len() > 0 {
        s1.remove(oldest_index(s1, s1.len() as int))
    } else {
        s1
    };
    match query_position(s2, entry.query) {
        Some(i) => s2.update(i, entry),
        None => s2.push(entry),
    }
}

/// The cache of parsed queries, keyed by the raw query, each kept for a
/// time to live.
pub struct ParsedQueryCache {
    entries: Vec<ParsedSlot>,
    ttl_nanos: u128,
    max_size: usize,
    origin: std::time::Instant,
    clock: u128,
}

impl ParsedQueryCache {
    /// The cached parsed queries.
    pub closed spec fn slots(&self) -> Seq<ParsedView> {
        parsed_views(self.entries@)
    }

    /// How long an entry stays, in nanoseconds.
    pub closed spec fn ttl(&self) -> u128 {
        self.ttl_nanos
    }

    /// The most entries it holds before it evicts.
    pub closed spec fn capacity(&self) -> usize {
        self.max_size
    }

    /// The latest time the cache read from the clock for a store, in
    /// nanoseconds since it was made.
    pub closed spec fn time(&self) -> u128 {
        self.clock
    }

    #[verifier::type_invariant]
    closed spec fn inv(&self) -> bool {
        queries_distinct(parsed_views(self.entries@))
    }

    /// An empty cache whose entries live `ttl_secs` seconds, holding up to
    /// `max_size` of them.
    pub fn new(ttl_secs: u64, max_size: usize) -> (r: ParsedQueryCache)
        ensures
            r.slots().len() == 0,
            r.ttl() == ttl_secs * 1_000_000_000,
            r.capacity() == max_size,
            r.time() == 0,
    {
        let r = ParsedQueryCache {
            entries: Vec::new(),
            ttl_nanos: ttl_secs as u128 * 1_000_000_000,
            max_size,
            origin: instant_now(),
            clock: 0,
        };
        assert(r.slots() =~= Seq::<ParsedView>::empty());
        r
    }

    fn position_of(entries: &Vec<ParsedSlot>, raw: &[char]) -> (r: Option<usize>)
        requires
            queries_distinct(parsed_views(entries@)),
        ensures
            match r {
                Some(i) => query_position(parsed_views(entries@), raw@) == Some(i as int),
                None => query_position(parsed_views(entries@), raw@) is None,
            },
    {
        let ghost s = parsed_views(entries@);
        let mut i: usize = 0;
        while i < entries.len()
            invariant
                i <= entries@.len(),
                s == parsed_views(entries@),
                queries_distinct(s),
                forall|j: int| 0 <= j < i ==> s[j].query != raw@,
            decreases entries@.len() - i,
        {
            if crate::strings::chars_eq_str(raw, entries[i].query.as_str()) {
                assert(s[i as int].query == raw@);
                assert(query_position(s, raw@) == Some(i as int)) by {
                    let k = choose|k: int| 0 <= k < s.len() && s[k].query == raw@;
                    if k != i as int {
                        assert(s[k].query != s[i as int].query);
                    }
                }
                return Some(i);
            }
            i += 1;
        }
        None
    }

    /// The parsed query cached for `raw_query`, if it is still fresh at
    /// time `now`.
    pub fn get_at(&self, raw_query: &str, now: u128) -> (r: Option<ParsedQueryCacheEntry>)
        ensures
            match fresh_lookup(self.slots(), raw_query@, now, self.ttl()) {
                Some(v) => r matches Some(e) && e.semantic_query@ == v.semantic_query
                    && e.filters_json@ == v.filters_json,
                None => r is None,
            },
    {
        proof {
            use_type_invariant(self);
        }
        let raw = crate::strings::chars_of(raw_query);
        match ParsedQueryCache::position_of(&self.entries, &raw) {
            Some(i) => {
                let created = self.entries[i].created;
                let elapsed = if now >= created {
                    now - created
                } else {
                    0
                };
                if elapsed < self.ttl_nanos {
                    Some(self.entries[i].entry.copy())
                } else {
                    None
                }
            },
            None => None,
        }
    }

    /// Stores `entry` for `raw_query` at time `now`: the stale entries go,
    /// then at capacity the oldest one.
    pub fn put_at(&mut self, raw_query: String, entry: ParsedQueryCacheEntry, now: u128)
        ensures
            final(self).slots() == after_parsed_put(
                old(self).slots(),
                ParsedView {
                    query: raw_query@,
                    semantic_query: entry.semantic_query@,
                    filters_json: entry.filters_json@,
                    created: now,
                },
                now,
                old(self).ttl(),
                old(self).capacity(),
            ),
            final(self).ttl() == old(self).ttl(),
            final(self).capacity() == old(self).capacity(),
            final(self).time() == old(self).time(),
    {
        proof {
            use_type_invariant(&*self);
        }
        let ghost s = self.slots();
        let ghost ttl = self.ttl_nanos;
        let ghost view = ParsedView {
            query: raw_query@,
            semantic_query: entry.semantic_query@,
            filters_json: entry.filters_json@,
            created: now,
        };
        let mut old_entries: Vec<ParsedSlot> = Vec::new();
        std::mem::swap(&mut old_entries, &mut self.entries);
        let mut kept: Vec<ParsedSlot> = Vec::new();
        for slot in it: old_entries
            invariant
                parsed_views(it.seq()) == s,
                ttl == self.ttl_nanos,
                parsed_views(kept@) == fresh_only(s.take(it.index() as int), now, ttl),
        {
            let ghost i = it.index();
            let ghost before = parsed_views(kept@);
            assert(s.take(i + 1).drop_last() =~= s.take(i as int));
            assert(s.take(i + 1).last() == s[i as int]);
            let elapsed = if now >= slot.created {
                now - slot.created
            } else {
                0
            };
            if elapsed < self.ttl_nanos {
                kept.push(slot);
                assert(parsed_views(kept@) =~= before.push(s[i as int]));
            }
        }
        assert(s.take(s.len() as int) =~= s);
        let ghost s1 = parsed_views(kept@);
        proof {
            lemma_fresh_only_distinct(s, now, ttl);
        }
        if kept.len() >= self.max_size && kept.len() > 0 {
            let mut m: usize = 0;
            let mut i: usize = 1;
            while i < kept.len()
                invariant
                    1 <= i <= kept@.len(),
                    s1 == parsed_views(kept@),
                    m < i,
                    m as int == oldest_index(s1, i as int),
                decreases kept@.len() - i,
            {
                if kept[i].created < kept[m].created {
                    m = i;
                }
                i += 1;
            }
            kept.remove(m);
            assert(parsed_views(kept@) =~= s1.remove(m as int));
        }
        let ghost s2 = parsed_views(kept@);
        assert(queries_distinct(s2)) by {
            assert forall|a: int, b: int|
                0 <= a < s2.len() && 0 <= b < s2.len() && a != b implies #[trigger] s2[a].query
                != #[trigger] s2[b].query by {
                if s2.len() < s1.len() {
                    let k = oldest_index(s1, s1.len() as int);
                    let ia = if a < k { a } else { a + 1 };
                    let ib = if b < k { b } else { b + 1 };
                    assert(s2[a] == s1[ia] && s2[b] == s1[ib]);
                } else {
                    assert(s2[a] == s1[a] && s2[b] == s1[b]);
                }
            }
        }
        let raw = crate::strings::chars_of(raw_query.as_str());
        let slot = ParsedSlot { query: raw_query, entry, created: now };
        match ParsedQueryCache::position_of(&kept, &raw) {
            Some(i) => {
                kept.set(i, slot);
                let ghost t = parsed_views(kept@);
                assert(t =~= s2.update(i as int, view));
                assert(queries_distinct(t)) by {
                    assert forall|a: int, b: int|
                        0 <= a < t.len() && 0 <= b < t.len() && a != b implies #[trigger] t[a].query
                        != #[trigger] t[b].query by {
                        assert(t[a].query == s2[a].query && t[b].query == s2[b].query);
                    }
                }
            },
            None => {
                kept.push(slot);
                let ghost t = parsed_views(kept@);
                assert(t =~= s2.push(view));
                assert(queries_distinct(t)) by {
                    assert forall|a: int, b: int|
                        0 <= a < t.len() && 0 <= b < t.len() && a != b implies #[trigger] t[a].query
                        != #[trigger] t[b].query by {
                        if a < s2.len() && b < s2.len() {
                            assert(t[a] == s2[a] && t[b] == s2[b]);
                        } else if a < s2.len() {
                            assert(t[a] == s2[a]);
                        } else {
                            assert(t[b] == s2[b]);
                        }
                    }
                }
            },
        }
        self.entries = kept;
    }

    /// The time now, by the monotonic clock: never before the latest time
    /// read.
    fn now(&self) -> (now: u128)
        ensures
            now >= self.time(),
    {
        let t = nanos_since(&self.origin);
        if t > self.clock {
            t
        } else {
            self.clock
        }
    }

    /// The parsed query cached for `raw_query`, if it is still fresh now (a
    /// time no earlier than the latest store).
    pub fn get(&self, raw_query: &str) -> (r: Option<ParsedQueryCacheEntry>)
        ensures
            exists|now: u128|
                now >= self.time() && match #[trigger] fresh_lookup(
                    self.slots(),
                    raw_query@,
                    now,
                    self.ttl(),
                ) {
                    Some(v) => r matches Some(e) && e.semantic_query@ == v.semantic_query
                        && e.filters_json@ == v.filters_json,
                    None => r is None,
                },
    {
        let now = self.now();
        self.get_at(raw_query, now)
    }

    /// Stores `entry` for `raw_query` now; the time moves on (never back)
    /// to the time of the store.
    pub fn put(&mut self, raw_query: String, entry: ParsedQueryCacheEntry)
        ensures
            final(self).time() >= old(self).time(),
            after_parsed_put(
                old(self).slots(),
                ParsedView {
                    query: raw_query@,
                    semantic_query: entry.semantic_query@,
                    filters_json: entry.filters_json@,
                    created: final(self).time(),
                },
                final(self).time(),
                old(self).ttl(),
                old(self).capacity(),
            ) == final(self).slots(),
            final(self).ttl() == old(self).ttl(),
            final(self).capacity() == old(self).capacity(),
    {
        let now = self.now();
        self.put_at(raw_query, entry, now);
        proof {
            use_type_invariant(&*self);
        }
        self.clock = now;
    }

    /// Drops every cached parsed query.
    pub fn clear(&mut self)
        ensures
            final(self).slots().len() == 0,
            final(self).ttl() == old(self).ttl(),
            final(self).capacity() == old(self).capacity(),
            final(self).time() == old(self).time(),
    {
        self.entries = Vec::new();
        assert(self.slots() =~= Seq::<ParsedView>::empty());
    }

    /// The number of cached parsed queries.
    pub fn len(&self) -> (r: usize)
        ensures
            r == self.slots().len(),
    {
        self.entries.len()
    }
}

proof fn lemma_fresh_only_from(s: Seq<ParsedView>, now: u128, ttl: u128)
    ensures
        forall|k: int|
            0 <= k < fresh_only(s, now, ttl).len() ==> exists|j: int|
                0 <= j < s.len() && #[trigger] fresh_only(s, now, ttl)[k] == s[j],
    decreases s.len(),
{
    if s.len() > 0 {
        lemma_fresh_only_from(s.drop_last(), now, ttl);
        let rest = fresh_only(s.drop_last(), now, ttl);
        let w = fresh_only(s, now, ttl);
        assert forall|k: int| 0 <= k < w.len() implies exists|j: int|
            0 <= j < s.len() && #[trigger] w[k] == s[j] by {
            if k < rest.len() {
                let j = choose|j: int| 0 <= j < s.drop_last().len() && rest[k] == s.drop_last()[j];
                assert(w[k] == s[j]);
            } else {
                assert(w[k] == s[s.len() - 1]);
            }
        }
    }
}

proof fn lemma_fresh_only_distinct(s: Seq<ParsedView>, now: u128, ttl: u128)
    requires
        queries_distinct(s),
    ensures
        queries_distinct(fresh_only(s, now, ttl)),
    decreases s.len(),
{
    if s.len() > 0 {
        let q = s.drop_last();
        assert(queries_distinct(q)) by {
            assert forall|i: int, j: int|
                0 <= i < q.len() && 0 <= j < q.len() && i != j implies #[trigger] q[i].query
                != #[trigger] q[j].query by {
                assert(q[i] == s[i] && q[j] == s[j]);
            }
        }
        lemma_fresh_only_distinct(q, now, ttl);
        lemma_fresh_only_from(q, now, ttl);
        let rest = fresh_only(q, now, ttl);
        let w = fresh_only(s, now, ttl);
        if is_fresh(s.last().created, now, ttl) {
            assert forall|i: int, j: int|
                0 <= i < w.len() && 0 <= j < w.len() && i != j implies #[trigger] w[i].query
                != #[trigger] w[j].query by {
                if i < rest.len() && j < rest.len() {
                    assert(w[i] == rest[i] && w[j] == rest[j]);
                } else if i < rest.len() {
                    let a = choose|a: int| 0 <= a < q.len() && #[trigger] rest[i] == q[a];
                    assert(w[i] == s[a]);
                    assert(w[j] == s[s.len() - 1]);
                } else {
                    let b = choose|b: int| 0 <= b < q.len() && #[trigger] rest[j] == q[b];
                    assert(w[j] == s[b]);
                    assert(w[i] == s[s.len() - 1]);
                }
            }
        }
    }
}

proof fn lemma_without_file_from<V>(s: Seq<SlotView<V>>, file_id: FileId)
    ensures
        forall|k: int|
            0 <= k < without_file(s, file_id).len() ==> exists|j: int|
                0 <= j < s.len() && #[trigger] without_file(s, file_id)[k] == s[j],
    decreases s.len(),
{
    if s.len() > 0 {
        lemma_without_file_from(s.drop_last(), file_id);
        let rest = without_file(s.drop_last(), file_id);
        let w = without_file(s, file_id);
        assert forall|k: int| 0 <= k < w.len() implies exists|j: int|
            0 <= j < s.len() && #[trigger] w[k] == s[j] by {
            if k < rest.len() {
                let j = choose|j: int| 0 <= j < s.drop_last().len() && rest[k] == s.drop_last()[j];
                assert(w[k] == s[j]);
            } else {
                assert(w[k] == s[s.len() - 1]);
            }
        }
    }
}

proof fn lemma_without_file_distinct<V>(s: Seq<SlotView<V>>, file_id: FileId)
    requires
        keys_distinct(s),
    ensures
        keys_distinct(without_file(s, file_id)),
    decreases s.len(),
{
    if s.len() > 0 {
        let q = s.drop_last();
        assert(keys_distinct(q)) by {
            assert forall|i: int, j: int|
                0 <= i < q.len() && 0 <= j < q.len() && i != j implies #[trigger] q[i].key
                != #[trigger] q[j].key by {
                assert(q[i] == s[i] && q[j] == s[j]);
            }
        }
        lemma_without_file_distinct(q, file_id);
        lemma_without_file_from(q, file_id);
        let rest = without_file(q, file_id);
        let w = without_file(s, file_id);
        if !s.last().file_ids.contains(file_id) {
            assert forall|i: int, j: int|
                0 <= i < w.len() && 0 <= j < w.len() && i != j implies #[trigger] w[i].key
                != #[trigger] w[j].key by {
                if i < rest.len() && j < rest.len() {
                    assert(w[i] == rest[i] && w[j] == rest[j]);
                } else if i < rest.len() {
                    let a = choose|a: int| 0 <= a < q.len() && #[trigger] rest[i] == q[a];
                    assert(w[i] == s[a]);
                    assert(w[j] == s[s.len() - 1]);
                } else {
                    let b = choose|b: int| 0 <= b < q.len() && #[trigger] rest[j] == q[b];
                    assert(w[j] == s[b]);
                    assert(w[i] == s[s.len() - 1]);
                }
            }
        }
    }
}

/// The slot evicted at capacity is one read least recently.
pub proof fn lemma_lru_is_least_recent<V>(s: Seq<SlotView<V>>, n: int)
    requires
        0 < n <= s.len(),
    ensures
        0 <= lru_index(s, n) < n,
        forall|j: int| 0 <= j < n ==> s[lru_index(s, n)].last_accessed <= #[trigger] s[j].last_accessed,
    decreases n,
{
    if n > 1 {
        lemma_lru_is_least_recent(s, n - 1);
    }
}

/// A stored result is found again under its key, and is the only slot for
/// that key.
pub proof fn lemma_put_then_found<V>(s: Seq<SlotView<V>>, entry: SlotView<V>, max_size: usize)
    requires
        keys_distinct(s),
    ensures
        keys_distinct(after_put(s, entry, max_size)),
        key_position(after_put(s, entry, max_size), entry.key) matches Some(i) && after_put(
            s,
            entry,
            max_size,
        )[i] == entry,
{
    let t = after_put(s, entry, max_size);
    match key_position(s, entry.key) {
        Some(i) => {
            assert(t[i] == entry);
            assert forall|a: int, b: int|
                0 <= a < t.len() && 0 <= b < t.len() && a != b implies #[trigger] t[a].key
                != #[trigger] t[b].key by {
                assert(t[a].key == s[a].key && t[b].key == s[b].key);
            }
            assert(key_position(t, entry.key) == Some(i)) by {
                let j = choose|j: int| 0 <= j < t.len() && t[j].key == entry.key;
                if j != i {
                    assert(t[j].key != t[i].key);
                }
            }
        },
        None => {
            let s1 = if s.len() >= max_size && s.len() > 0 {
                s.remove(lru_index(s, s.len() as int))
            } else {
                s
            };
            if s.len() >= max_size && s.len() > 0 {
                lemma_lru_is_least_recent(s, s.len() as int);
            }
            let k = lru_index(s, s.len() as int);
            assert(t == s1.push(entry));
            assert forall|a: int| 0 <= a < s1.len() implies #[trigger] s1[a].key != entry.key by {
                if s1.len() < s.len() {
                    let ia = if a < k { a } else { a + 1 };
                    assert(s1[a] == s[ia]);
                } else {
                    assert(s1[a] == s[a]);
                }
            }
            assert forall|a: int, b: int|
                0 <= a < s1.len() && 0 <= b < s1.len() && a != b implies #[trigger] s1[a].key
                != #[trigger] s1[b].key by {
                if s1.len() < s.len() {
                    let ia = if a < k { a } else { a + 1 };
                    let ib = if b < k { b } else { b + 1 };
                    assert(s1[a] == s[ia] && s1[b] == s[ib]);
                } else {
                    assert(s1[a] == s[a] && s1[b] == s[b]);
                }
            }
            let i = s1.len() as int;
            assert(t[i] == entry);
            assert forall|a: int, b: int|
                0 <= a < t.len() && 0 <= b < t.len() && a != b implies #[trigger] t[a].key
                != #[trigger] t[b].key by {
                if a < s1.len() && b < s1.len() {
                    assert(t[a] == s1[a] && t[b] == s1[b]);
                } else if a < s1.len() {
                    assert(t[a] == s1[a]);
                } else {
                    assert(t[b] == s1[b]);
                }
            }
            assert(key_position(t, entry.key) == Some(i)) by {
                let j = choose|j: int| 0 <= j < t.len() && t[j].key == entry.key;
                if j != i {
                    assert(t[j] == s1[j]);
                }
            }
        },
    }
}

/// Storing a result under a key already cached keeps every other slot as
/// it was: nothing is evicted.
pub proof fn lemma_put_existing_keeps_others<V>(
    s: Seq<SlotView<V>>,
    entry: SlotView<V>,
    max_size: usize,
)
    requires
        key_position(s, entry.key) is Some,
    ensures
        after_put(s, entry, max_size).len() == s.len(),
        forall|j: int|
            0 <= j < s.len() && s[j].key != entry.key ==> #[trigger] after_put(
                s,
                entry,
                max_size,
            )[j] == s[j],
{
}

/// Storing a result never makes the cache hold more than its capacity (or
/// one result, for a capacity of zero).
pub proof fn lemma_put_keeps_capacity<V>(s: Seq<SlotView<V>>, entry: SlotView<V>, max_size: usize)
    requires
        s.len() <= if max_size == 0 { 1 } else { max_size as int },
    ensures
        after_put(s, entry, max_size).len() <= if max_size == 0 { 1 } else { max_size as int },
{
    if s.len() >= max_size && s.len() > 0 {
        lemma_lru_is_least_recent(s, s.len() as int);
    }
}

/// Dropping the results that mention a file keeps exactly those that do
/// not.
pub proof fn lemma_invalidate_keeps_others<V>(s: Seq<SlotView<V>>, file_id: FileId)
    ensures
        forall|k: int|
            0 <= k < without_file(s, file_id).len() ==> !(#[trigger] without_file(s, file_id)[k]).file_ids.contains(file_id),
        forall|j: int|
            0 <= j < s.len() && !(#[trigger] s[j]).file_ids.contains(file_id) ==> without_file(
                s,
                file_id,
            ).contains(s[j]),
    decreases s.len(),
{
    if s.len() > 0 {
        let q = s.drop_last();
        lemma_invalidate_keeps_others(q, file_id);
        let rest = without_file(q, file_id);
        let w = without_file(s, file_id);
        assert forall|k: int| 0 <= k < w.len() implies !(#[trigger] w[k]).file_ids.contains(
            file_id,
        ) by {
            if k < rest.len() {
                assert(w[k] == rest[k]);
            }
        }
        assert forall|j: int| 0 <= j < s.len() && !(#[trigger] s[j]).file_ids.contains(
            file_id,
        ) implies w.contains(s[j]) by {
            if j < q.len() {
                assert(q[j] == s[j]);
                let k = choose|k: int| 0 <= k < rest.len() && rest[k] == q[j];
                assert(w[k] == rest[k]);
            } else {
                assert(w[w.len() - 1] == s[j]);
            }
        }
    }
}

/// A parsed query just stored is found again while its time to live lasts
/// (at once, unless that time is zero).
pub proof fn lemma_parsed_put_then_found(
    s: Seq<ParsedView>,
    entry: ParsedView,
    now: u128,
    ttl: u128,
    max_size: usize,
)
    requires
        queries_distinct(s),
        entry.created == now,
    ensures
        fresh_lookup(after_parsed_put(s, entry, now, ttl, max_size), entry.query, now, ttl) == if ttl
            > 0 {
            Some(entry)
        } else {
            None::<ParsedView>
        },
{
    lemma_fresh_only_distinct(s, now, ttl);
    let s1 = fresh_only(s, now, ttl);
    let s2 = if s1.len() >= max_size && s1.len() > 0 {
        s1.remove(oldest_index(s1, s1.len() as int))
    } else {
        s1
    };
    if s1.len() >= max_size && s1.len() > 0 {
        lemma_oldest_in_range(s1, s1.len() as int);
    }
    let k = oldest_index(s1, s1.len() as int);
    assert(queries_distinct(s2)) by {
        assert forall|a: int, b: int|
            0 <= a < s2.len() && 0 <= b < s2.len() && a != b implies #[trigger] s2[a].query
            != #[trigger] s2[b].query by {
            if s2.len() < s1.len() {
                let ia = if a < k { a } else { a + 1 };
                let ib = if b < k { b } else { b + 1 };
                assert(s2[a] == s1[ia] && s2[b] == s1[ib]);
            } else {
                assert(s2[a] == s1[a] && s2[b] == s1[b]);
            }
        }
    }
    let t = after_parsed_put(s, entry, now, ttl, max_size);
    match query_position(s2, entry.query) {
        Some(i) => {
            assert(t[i] == entry);
            assert forall|a: int, b: int|
                0 <= a < t.len() && 0 <= b < t.len() && a != b implies #[trigger] t[a].query
                != #[trigger] t[b].query by {
                assert(t[a].query == s2[a].query && t[b].query == s2[b].query);
            }
            assert(query_position(t, entry.query) == Some(i));
        },
        None => {
            let i = s2.len() as int;
            assert(t[i] == entry);
            assert forall|a: int, b: int|
                0 <= a < t.len() && 0 <= b < t.len() && a != b implies #[trigger] t[a].query
                != #[trigger] t[b].query by {
                if a < s2.len() && b < s2.len() {
                    assert(t[a] == s2[a] && t[b] == s2[b]);
                } else if a < s2.len() {
                    assert(t[a] == s2[a]);
                } else {
                    assert(t[b] == s2[b]);
                }
            }
            assert(query_position(t, entry.query) == Some(i)) by {
                let j = choose|j: int| 0 <= j < t.len() && t[j].query == entry.query;
                if j != i {
                    assert(t[j].query != t[i].query);
                }
            }
        },
    }
}

proof fn lemma_oldest_in_range(s: Seq<ParsedView>, n: int)
    requires
        0 < n <= s.len(),
    ensures
        0 <= oldest_index(s, n) < n,
    decreases n,
{
    if n > 1 {
        lemma_oldest_in_range(s, n - 1);
    }
}

} // verus!
