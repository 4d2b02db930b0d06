//! Parsing a natural-language path into a structured search query: date and
//! extension filters are recognised with regular expressions, a sort order
//! is read from keywords, and what is left, less stop words, is the text to
//! search for.
use vstd::prelude::*;
use crate::events::duration_nanos;
use crate::numbers::int_text_value;
use crate::numbers::parse_int;
use crate::strings::chars_eq_str;
use crate::strings::chars_of;
use crate::strings::contains_str;
use crate::strings::extend_chars;
use crate::strings::is_blank;
use crate::strings::join;
use crate::strings::join_chars;
use crate::strings::string_of;
use crate::strings::sub_chars;
use crate::strings::trim;
use crate::strings::trim_chars;
use crate::strings::views;
use crate::strings::words;
use crate::strings::words_of;
use crate::strings::contains_sub;
use crate::types::MetadataFilter;

verus! {

/// A condition that a search result must meet.
#[derive(Debug, Clone)]
pub enum QueryFilter {
    DateRange { start: i64, end: i64 },
    Extension(Vec<String>),
    Size { min: Option<u64>, max: Option<u64> },
    MimeType(Vec<String>),
}

/// A query filter with its strings taken by value.
pub enum QueryFilterView {
    DateRange { start: i64, end: i64 },
    Extension(Seq<Seq<char>>),
    Size { min: Option<u64>, max: Option<u64> },
    MimeType(Seq<Seq<char>>),
}

/// The views of a sequence of strings.
pub open spec fn strs(v: Seq<String>) -> Seq<Seq<char>> {
    v.map_values(|s: String| s@)
}

impl View for QueryFilter {
    type V = QueryFilterView;

    open spec fn view(&self) -> QueryFilterView {
        match self {
            QueryFilter::DateRange { start, end } => QueryFilterView::DateRange {
                start: *start,
                end: *end,
            },
            QueryFilter::Extension(exts) => QueryFilterView::Extension(strs(exts@)),
            QueryFilter::Size { min, max } => QueryFilterView::Size { min: *min, max: *max },
            QueryFilter::MimeType(types) => QueryFilterView::MimeType(strs(types@)),
        }
    }
}

/// The metadata condition that a query filter stands for.
pub open spec fn metadata_filter_of(f: QueryFilterView, m: MetadataFilter) -> bool {
    match (f, m) {
        (
            QueryFilterView::DateRange { start, end },
            MetadataFilter::DateRange { start: s2, end: e2 },
        ) => start == s2 && end == e2,
        (QueryFilterView::Extension(e), MetadataFilter::Extension(e2)) => e == strs(e2@),
        (
            QueryFilterView::Size { min, max },
            MetadataFilter::Size { min: min2, max: max2 },
        ) => min == min2 && max == max2,
        (QueryFilterView::MimeType(t), MetadataFilter::MimeType(t2)) => t == strs(t2@),
        _ => false,
    }
}

fn clone_strings(v: &Vec<String>) -> (r: Vec<String>)
    ensures
        strs(r@) == strs(v@),
{
    let mut r: Vec<String> = Vec::new();
    let mut i: usize = 0;
    while i < v.len()
        invariant
            i <= v.len(),
            strs(r@) == strs(v@).take(i as int),
        decreases v.len() - i,
    {
        let ghost before = strs(r@);
        r.push(v[i].clone());
        assert(strs(r@) =~= before.push(v@[i as int]@));
        assert(strs(v@).take(i + 1) =~= strs(v@).take(i as int).push(v@[i as int]@));
        i += 1;
    }
    assert(strs(v@).take(v.len() as int) =~= strs(v@));
    r
}

impl QueryFilter {
    /// The metadata condition this filter stands for.
    pub fn to_metadata_filter(&self) -> (r: MetadataFilter)
        ensures
            metadata_filter_of(self@, r),
    {
        match self {
            QueryFilter::DateRange { start, end } => MetadataFilter::DateRange {
                start: *start,
                end: *end,
            },
            QueryFilter::Extension(exts) => MetadataFilter::Extension(clone_strings(exts)),
            QueryFilter::Size { min, max } => MetadataFilter::Size { min: *min, max: *max },
            QueryFilter::MimeType(types) => MetadataFilter::MimeType(clone_strings(types)),
        }
    }
}

/// How results are ordered.
#[derive(Debug, Clone, Copy, PartialEq, Eq, Structural)]
pub enum SortOrder {
    Relevance,
    DateDesc,
    DateAsc,
    NameAsc,
    NameDesc,
}

impl Default for SortOrder {
    fn default() -> (r: SortOrder)
        ensures
            r == SortOrder::Relevance,
    {
        SortOrder::Relevance
    }
}

/// A query read from a natural-language path.
#[derive(Debug, Clone)]
pub struct ParsedQuery {
    pub semantic_query: String,
    pub filters: Vec<QueryFilter>,
    pub sort: SortOrder,
    pub raw_input: String,
}

/// A parsed query with its strings and filters taken by value.
pub struct ParsedQueryView {
    pub semantic_query: Seq<char>,
    pub filters: Seq<QueryFilterView>,
    pub sort: SortOrder,
    pub raw_input: Seq<char>,
}

/// The views of a sequence of query filters.
pub open spec fn filter_views(v: Seq<QueryFilter>) -> Seq<QueryFilterView> {
    v.map_values(|f: QueryFilter| f@)
}

impl View for ParsedQuery {
    type V = ParsedQueryView;

    open spec fn view(&self) -> ParsedQueryView {
        ParsedQueryView {
            semantic_query: self.semantic_query@,
            filters: filter_views(self.filters@),
            sort: self.sort,
            raw_input: self.raw_input@,
        }
    }
}

// ---------------------------------------------------------------------------
// The clock
// ---------------------------------------------------------------------------
/// The time a query is read at: the UTC Unix timestamp, and the local year
/// and month.
#[derive(Debug, Clone, Copy)]
pub struct Clock {
    pub utc_now: i64,
    pub local_year: i32,
    pub local_month: u32,
}

/// The bound on the magnitude of every timestamp that the date library can
/// produce (its dates lie within about 262,000 years of year 0).
pub open spec fn timestamp_bound() -> int {
    10_000_000_000_000
}

/// The range of years that the date library represents.
pub open spec fn year_in_range(y: int) -> bool {
    -262_143 <= y <= 262_142
}

/// Whether `c` is a time that the system clock can report.
pub open spec fn clock_plausible(c: Clock) -> bool {
    &&& -timestamp_bound() <= c.utc_now <= timestamp_bound()
    &&& year_in_range(c.local_year as int)
    &&& 1 <= c.local_month <= 12
}

/// `std::time::SystemTime`, a reading of the system clock.
#[verifier::external_type_specification]
#[verifier::external_body]
pub struct ExSystemTime(std::time::SystemTime);

/// `std::time::SystemTimeError`, the error of a time that lies before
/// another.
#[verifier::external_type_specification]
#[verifier::external_body]
pub struct ExSystemTimeError(std::time::SystemTimeError);

/// `SystemTime::now()`: the current reading of the system clock. It depends
/// on the clock; nothing is stated of it.
#[verifier::external_body]
fn system_now() -> std::time::SystemTime {
    std::time::SystemTime::now()
}

/// `SystemTime::duration_since(UNIX_EPOCH)`: how long after 1970 the time
/// `t` lies, or, as the error, that it lies before. The time is opaque
/// here; nothing is stated of the span.
#[verifier::external_body]
fn since_unix_epoch(t: &std::time::SystemTime) -> Result<
    std::time::Duration,
    std::time::SystemTimeError,
> {
    t.duration_since(std::time::UNIX_EPOCH)
}

/// `SystemTimeError::duration()`: how long before 1970 the time lay.
#[verifier::external_body]
fn before_unix_epoch(e: &std::time::SystemTimeError) -> std::time::Duration {
    e.duration()
}

/// The current UTC Unix timestamp: the whole seconds since 1970, rounded
/// down (so negative before 1970); `None` where the clock lies beyond
/// `timestamp_bound()` seconds from 1970.
pub fn utc_now_timestamp() -> (r: Option<i64>)
    ensures
        r matches Some(t) ==> -timestamp_bound() <= t <= timestamp_bound(),
{
    let now = system_now();
    match since_unix_epoch(&now) {
        Ok(d) => {
            let secs = duration_nanos(&d) / 1_000_000_000;
            if secs <= 10_000_000_000_000 {
                Some(secs as i64)
            } else {
                None
            }
        },
        Err(e) => {
            let n = duration_nanos(&before_unix_epoch(&e));
            let secs = if n % 1_000_000_000 == 0 {
                n / 1_000_000_000
            } else {
                n / 1_000_000_000 + 1
            };
            if secs <= 10_000_000_000_000 {
                Some(-(secs as i64))
            } else {
                None
            }
        },
    }
}

/// `chrono::Local.timestamp_opt(secs, 0)` (the `TimeZone` method) read as
/// its year and month (`Datelike::year`, `Datelike::month`): the local
/// calendar month at the Unix time `secs`. It rests on the machine's time
/// zone (chrono reads `TZ` or the system's zone file, and falls back to
/// UTC), so only the month's documented range is stated; `None` where
/// chrono gives no single local time. Within the bound on `secs` the zone
/// lookup stays in the range chrono computes; that the zone data itself
/// is well formed is taken from the system.
#[verifier::external_body]
fn local_year_month_at(secs: i64) -> (r: Option<(i32, u32)>)
    requires
        -timestamp_bound() <= secs <= timestamp_bound(),
    ensures
        r matches Some(ym) ==> 1 <= ym.1 <= 12,
{
    let t = chrono::TimeZone::timestamp_opt(&chrono::Local, secs, 0).single()?;
    Some((chrono::Datelike::year(&t), chrono::Datelike::month(&t)))
}

/// A clock reading, where there is one, is a time the system clock can
/// report.
pub open spec fn clock_ok(c: Option<Clock>) -> bool {
    c matches Some(k) ==> clock_plausible(k)
}

/// Reads the system clock: the UTC Unix timestamp and the local year and
/// month; `None` where the clock cannot be read as a date.
pub fn read_clock() -> (c: Option<Clock>)
    ensures
        clock_ok(c),
{
    let utc_now = match utc_now_timestamp() {
        Some(t) => t,
        None => {
            return None;
        },
    };
    let (local_year, local_month) = match local_year_month_at(utc_now) {
        Some(ym) => ym,
        None => {
            return None;
        },
    };
    if -262_143 <= local_year && local_year <= 262_142 {
        Some(Clock { utc_now, local_year, local_month })
    } else {
        None
    }
}

/// Whether `y` is a leap year of the proleptic Gregorian calendar.
pub open spec fn is_leap_year(y: int) -> bool {
    (y % 4 == 0 && y % 100 != 0) || y % 400 == 0
}

/// The number of days of month `m` of year `y`.
pub open spec fn days_in_month(y: int, m: int) -> int {
    if m == 2 {
        if is_leap_year(y) {
            29
        } else {
            28
        }
    } else if m == 4 || m == 6 || m == 9 || m == 11 {
        30
    } else {
        31
    }
}

/// The days from 1970-01-01 to the date `y-m-d` of the proleptic Gregorian
/// calendar (negative before it), counted by 400-year eras that start on
/// 1 March.
pub open spec fn days_from_civil(y: int, m: int, d: int) -> int {
    let yy = if m <= 2 {
        y - 1
    } else {
        y
    };
    let era = yy / 400;
    let yoe = yy - era * 400;
    let doy = (153 * (m + if m > 2 {
        -3int
    } else {
        9int
    }) + 2) / 5 + d - 1;
    let doe = yoe * 365 + yoe / 4 - yoe / 100 + doy;
    era * 146097 + doe - 719468
}

/// The UTC Unix timestamp of the given date and time: `None` where the year
/// lies outside the calendar's range, the month or day does not exist, or
/// the time is not within a day (no leap second).
pub open spec fn utc_timestamp_of(y: i32, m: u32, d: u32, h: u32, mi: u32, s: u32) -> Option<i64> {
    if year_in_range(y as int) && 1 <= m <= 12 && 1 <= d <= days_in_month(y as int, m as int) && h
        < 24 && mi < 60 && s < 60 {
        Some((days_from_civil(y as int, m as int, d as int) * 86400 + h * 3600 + mi * 60 + s) as i64)
    } else {
        None
    }
}

/// `chrono::NaiveDate::from_ymd_opt(y, m, d)`, then `and_hms_opt(h, mi, s)`,
/// `and_utc()` and `timestamp()`: the timestamp of a date of the proleptic
/// Gregorian calendar with years -262143 to 262142, at a time of day
/// without leap second; `None` where there is no such date or time. Every
/// such timestamp lies within `timestamp_bound()`.
#[verifier::external_body]
fn utc_timestamp(y: i32, m: u32, d: u32, h: u32, mi: u32, s: u32) -> (r: Option<i64>)
    ensures
        r == utc_timestamp_of(y, m, d, h, mi, s),
        r matches Some(t) ==> -timestamp_bound() <= t <= timestamp_bound(),
{
    chrono::NaiveDate::from_ymd_opt(y, m, d).and_then(|date| date.and_hms_opt(h, mi, s)).map(
        |t| t.and_utc().timestamp(),
    )
}

/// The timestamp of the given date and time, or 0 where there is none.
pub open spec fn timestamp_or_zero(y: i32, m: u32, d: u32, h: u32, mi: u32, s: u32) -> i64 {
    match utc_timestamp_of(y, m, d, h, mi, s) {
        Some(t) => t,
        None => 0,
    }
}

// ---------------------------------------------------------------------------
// Regular expressions
// ---------------------------------------------------------------------------
/// The capture groups of the leftmost-first match of `pattern` in `text`,
/// each as a range of character positions, or `None` where nothing matches.
pub uninterp spec fn regex_captures_of(pattern: Seq<char>, text: Seq<char>) -> Option<
    Seq<Option<(usize, usize)>>,
>;

/// The successive non-overlapping matches of `pattern` in `text`, each as a
/// range of character positions.
pub uninterp spec fn regex_matches_of(pattern: Seq<char>, text: Seq<char>) -> Seq<(usize, usize)>;

/// Group 0 is the whole match, and every group lies within the text.
pub open spec fn captures_well_formed(g: Seq<Option<(usize, usize)>>, n: nat) -> bool {
    &&& g.len() >= 1
    &&& g[0] is Some
    &&& forall|i: int| 0 <= i < g.len() ==> (#[trigger] g[i] matches Some(r) ==> r.0 <= r.1 <= n)
}

/// Matches lie within the text, in order, without overlapping.
pub open spec fn matches_well_formed(m: Seq<(usize, usize)>, n: nat) -> bool {
    &&& forall|i: int| 0 <= i < m.len() ==> #[trigger] m[i].0 <= m[i].1 <= n
    &&& forall|i: int, j: int| 0 <= i < j < m.len() ==> #[trigger] m[i].1 <= #[trigger] m[j].0
}

/// `regex::Regex::new(pattern)` and `Regex::captures(text)`: the groups of
/// the leftmost-first match, each byte range turned into the range of
/// character positions it covers. The result is named; besides, group 0
/// (the whole match) is always present and every group lies within the
/// text, as the crate documents. A pattern that does not compile gives
/// `None`.
#[verifier::external_body]
fn regex_captures(pattern: &str, text: &str) -> (r: Option<Vec<Option<(usize, usize)>>>)
    ensures
        match r {
            Some(g) => regex_captures_of(pattern@, text@) == Some(g@),
            None => regex_captures_of(pattern@, text@) is None,
        },
        r matches Some(g) ==> captures_well_formed(g@, text@.len()),
{
    let caps = regex::Regex::new(pattern).ok()?.captures(text)?;
    Some(
        caps.iter().map(
            |m| m.map(|m| (text[..m.start()].chars().count(), text[..m.end()].chars().count())),
        ).collect(),
    )
}

/// `regex::Regex::new(pattern)` and `Regex::find_iter(text)`: the
/// successive non-overlapping matches, each byte range turned into the
/// range of character positions it covers. The result is named; besides,
/// the matches come in order, do not overlap and lie within the text, as the
/// crate documents. A pattern that does not compile gives no match.
#[verifier::external_body]
fn regex_find_all(pattern: &str, text: &str) -> (r: Vec<(usize, usize)>)
    ensures
        r@ == regex_matches_of(pattern@, text@),
        matches_well_formed(r@, text@.len()),
{
    match regex::Regex::new(pattern) {
        Ok(re) => re.find_iter(text).map(
            |m| (text[..m.start()].chars().count(), text[..m.end()].chars().count()),
        ).collect(),
        Err(_) => Vec::new(),
    }
}

/// The range of group `i`, if the group took part in the match.
pub open spec fn group_range(g: Seq<Option<(usize, usize)>>, i: int) -> Option<(usize, usize)> {
    if 0 <= i < g.len() {
        g[i]
    } else {
        None
    }
}

/// The text of group `i`, if the group took part in the match.
pub open spec fn group_text(text: Seq<char>, g: Seq<Option<(usize, usize)>>, i: int) -> Option<
    Seq<char>,
> {
    match group_range(g, i) {
        Some(r) => Some(text.subrange(r.0 as int, r.1 as int)),
        None => None,
    }
}

/// `text` with the characters from `s` to `e` taken out.
pub open spec fn without_range(text: Seq<char>, s: int, e: int) -> Seq<char> {
    text.take(s) + text.skip(e)
}

/// `text` with its whole match taken out (what `Regex::replace` with an
/// empty replacement returns).
pub open spec fn without_match(text: Seq<char>, g: Seq<Option<(usize, usize)>>) -> Seq<char> {
    match group_range(g, 0) {
        Some(r) => without_range(text, r.0 as int, r.1 as int),
        None => text,
    }
}

/// `text` with each of the ranges `rs` replaced by `rep` (what
/// `Regex::replace_all` returns for the matches `rs`).
pub open spec fn replace_ranges(text: Seq<char>, rs: Seq<(usize, usize)>, rep: Seq<char>) -> Seq<
    char,
>
    decreases rs.len(),
{
    if rs.len() == 0 {
        text
    } else {
        replace_ranges(text.take(rs.last().0 as int), rs.drop_last(), rep) + rep + text.skip(
            rs.last().1 as int,
        )
    }
}

fn captures(pattern: &str, text: &[char]) -> (r: Option<Vec<Option<(usize, usize)>>>)
    ensures
        match r {
            Some(g) => regex_captures_of(pattern@, text@) == Some(g@),
            None => regex_captures_of(pattern@, text@) is None,
        },
        r matches Some(g) ==> captures_well_formed(g@, text@.len()),
{
    let t = string_of(text);
    regex_captures(pattern, t.as_str())
}

fn group_chars(text: &[char], g: &Vec<Option<(usize, usize)>>, i: usize) -> (r: Option<Vec<char>>)
    requires
        captures_well_formed(g@, text@.len()),
    ensures
        match r {
            Some(v) => group_text(text@, g@, i as int) == Some(v@),
            None => group_text(text@, g@, i as int) is None,
        },
{
    if i < g.len() {
        match g[i] {
            Some((s, e)) => {
                assert(g@[i as int] matches Some(r) ==> r.0 <= r.1 <= text@.len());
                Some(sub_chars(text, s, e))
            },
            None => None,
        }
    } else {
        None
    }
}

fn without_chars(text: &[char], g: &Vec<Option<(usize, usize)>>) -> (r: Vec<char>)
    requires
        captures_well_formed(g@, text@.len()),
    ensures
        r@ == without_match(text@, g@),
{
    match g[0] {
        Some((s, e)) => {
            assert(g@[0] matches Some(r) ==> r.0 <= r.1 <= text@.len());
            let mut r = sub_chars(text, 0, s);
            let tail = sub_chars(text, e, text.len());
            extend_chars(&mut r, &tail);
            assert(text@.take(s as int) == text@.subrange(0, s as int));
            assert(text@.skip(e as int) == text@.subrange(e as int, text@.len() as int));
            r
        },
        None => sub_chars(text, 0, text.len()),
    }
}

proof fn lemma_replace_ranges_extend(a: Seq<char>, b: Seq<char>, rs: Seq<(usize, usize)>, rep: Seq<
    char,
>)
    requires
        forall|i: int| 0 <= i < rs.len() ==> #[trigger] rs[i].0 <= rs[i].1 <= a.len(),
    ensures
        replace_ranges(a + b, rs, rep) == replace_ranges(a, rs, rep) + b,
{
    if rs.len() == 0 {
    } else {
        let s = rs.last().0 as int;
        let e = rs.last().1 as int;
        assert(rs[rs.len() - 1].0 <= rs[rs.len() - 1].1 <= a.len());
        assert((a + b).take(s) == a.take(s));
        assert((a + b).skip(e) == a.skip(e) + b);
        assert(replace_ranges(a + b, rs, rep) == replace_ranges(a.take(s), rs.drop_last(), rep)
            + rep + (a.skip(e) + b));
    }
}

fn replace_ranges_exec(text: &[char], rs: &Vec<(usize, usize)>, rep: &[char]) -> (r: Vec<char>)
    requires
        matches_well_formed(rs@, text@.len()),
    ensures
        r@ == replace_ranges(text@, rs@, rep@),
{
    let mut out: Vec<char> = Vec::new();
    let mut pos: usize = 0;
    let mut k: usize = 0;
    assert(text@.take(0) == Seq::<char>::empty());
    assert(rs@.take(0) == Seq::<(usize, usize)>::empty());
    while k < rs.len()
        invariant
            k <= rs.len(),
            pos <= text.len(),
            matches_well_formed(rs@, text@.len()),
            forall|i: int| 0 <= i < k ==> #[trigger] rs@[i].1 <= pos,
            k > 0 ==> pos == rs@[k - 1].1,
            k == 0 ==> pos == 0,
            out@ == replace_ranges(text@.take(pos as int), rs@.take(k as int), rep@),
        decreases rs.len() - k,
    {
        let (s, e) = rs[k];
        assert(rs@[k as int].0 <= rs@[k as int].1 <= text@.len());
        assert(pos <= s) by {
            if k > 0 {
                assert(rs@[k - 1].1 <= rs@[k as int].0);
            }
        }
        let gap = sub_chars(text, pos, s);
        proof {
            let rk = rs@.take(k as int);
            assert forall|i: int| 0 <= i < rk.len() implies #[trigger] rk[i].0 <= rk[i].1
                <= text@.take(pos as int).len() by {
                assert(rk[i] == rs@[i]);
                assert(rs@[i].0 <= rs@[i].1 <= text@.len());
                assert(rs@[i].1 <= pos);
            }
            lemma_replace_ranges_extend(
                text@.take(pos as int),
                text@.subrange(pos as int, s as int),
                rk,
                rep@,
            );
            assert(text@.take(pos as int) + text@.subrange(pos as int, s as int) == text@.take(
                s as int,
            ));
            let rk1 = rs@.take(k + 1);
            assert(rk1.drop_last() == rk);
            assert(rk1.last() == rs@[k as int]);
            assert(text@.take(e as int).take(s as int) == text@.take(s as int));
            assert(text@.take(e as int).skip(e as int) == Seq::<char>::empty());
            assert(replace_ranges(text@.take(e as int), rk1, rep@) == replace_ranges(
                text@.take(s as int),
                rk,
                rep@,
            ) + rep@ + Seq::<char>::empty());
        }
        extend_chars(&mut out, &gap);
        extend_chars(&mut out, rep);
        assert(out@ == replace_ranges(text@.take(e as int), rs@.take(k + 1), rep@));
        pos = e;
        k += 1;
    }
    let tail = sub_chars(text, pos, text.len());
    proof {
        let rk = rs@.take(k as int);
        assert(rk == rs@);
        assert forall|i: int| 0 <= i < rk.len() implies #[trigger] rk[i].0 <= rk[i].1
            <= text@.take(pos as int).len() by {
            assert(rs@[i].0 <= rs@[i].1 <= text@.len());
            assert(rs@[i].1 <= pos);
        }
        lemma_replace_ranges_extend(
            text@.take(pos as int),
            text@.subrange(pos as int, text@.len() as int),
            rk,
            rep@,
        );
        assert(text@.take(pos as int) + text@.subrange(pos as int, text@.len() as int) == text@);
    }
    extend_chars(&mut out, &tail);
    out
}

// ---------------------------------------------------------------------------
// Date filters
// ---------------------------------------------------------------------------
/// A year, as in "2024년에 작성한".
pub open spec fn year_pattern() -> Seq<char> {
    "(\\d{4})년?에?\\s*(작성한|만든|생성한)?"@
}

fn year_pattern_str() -> (r: &'static str)
    ensures
        r@ == year_pattern(),
{
    "(\\d{4})년?에?\\s*(작성한|만든|생성한)?"
}

/// A recent span of days, weeks or months, as in "최근 7일".
pub open spec fn recent_pattern() -> Seq<char> {
    "(최근|지난)\\s*(\\d+)\\s*(일|주|개월|달)"@
}

fn recent_pattern_str() -> (r: &'static str)
    ensures
        r@ == recent_pattern(),
{
    "(최근|지난)\\s*(\\d+)\\s*(일|주|개월|달)"
}

/// Last month or this month, as in "지난달".
pub open spec fn month_pattern() -> Seq<char> {
    "(지난달|저번달|이번\\s*달)"@
}

fn month_pattern_str() -> (r: &'static str)
    ensures
        r@ == month_pattern(),
{
    "(지난달|저번달|이번\\s*달)"
}

/// Whether `v` fits in an `i32`.
pub open spec fn fits_i32(v: int) -> bool {
    i32::MIN <= v <= i32::MAX
}

/// Whether `v` fits in an `i64`.
pub open spec fn fits_i64(v: int) -> bool {
    i64::MIN <= v <= i64::MAX
}

/// The year written in group 1 of a year match.
pub open spec fn year_value(text: Seq<char>, g: Seq<Option<(usize, usize)>>) -> Option<int> {
    match group_text(text, g, 1) {
        Some(d) => int_text_value(d, true),
        None => None,
    }
}

/// The number of days that a recent-span match stands for: the count in
/// group 2 times the length of the unit in group 3 (a day for "일", seven
/// for "주", thirty for "개월" and "달"); `None` where the count is no
/// `i64` or the arithmetic leaves `i64`.
pub open spec fn recent_days(text: Seq<char>, g: Seq<Option<(usize, usize)>>) -> Option<int> {
    match (group_text(text, g, 2), group_text(text, g, 3)) {
        (Some(d), Some(u)) => match int_text_value(d, true) {
            Some(n) => {
                let days = if u == "일"@ {
                    n
                } else if u == "주"@ {
                    n * 7
                } else if u == "개월"@ || u == "달"@ {
                    n * 30
                } else {
                    n
                };
                if fits_i64(n) && fits_i64(days) && fits_i64(days * 86400) {
                    Some(days)
                } else {
                    None
                }
            },
            None => None,
        },
        _ => None,
    }
}

/// The year and month a last-month or this-month match stands for.
pub open spec fn month_target(w: Seq<char>, c: Clock) -> (i32, u32) {
    if w == "이번달"@ || w == "이번 달"@ {
        (c.local_year, c.local_month)
    } else if c.local_month == 1 {
        ((c.local_year - 1) as i32, 12u32)
    } else {
        (c.local_year, (c.local_month - 1) as u32)
    }
}

/// The last second of the given month: one before the first second of the
/// next month, or 0 where that has no timestamp.
pub open spec fn month_end(y: i32, m: u32) -> i64 {
    let next = if m == 12 {
        utc_timestamp_of((y + 1) as i32, 1, 1, 0, 0, 0)
    } else {
        utc_timestamp_of(y, (m + 1) as u32, 1, 0, 0, 0)
    };
    match next {
        Some(t) => (t - 1) as i64,
        None => 0,
    }
}

/// The date filter that the year match `g` gives in `text`, and the rest
/// of the text: the calendar year in UTC; `None` where the year is no
/// `i32` (its digits are not ASCII).
pub open spec fn year_step(text: Seq<char>, g: Seq<Option<(usize, usize)>>) -> Option<
    (QueryFilterView, Seq<char>),
> {
    match year_value(text, g) {
        Some(v) => if fits_i32(v) {
            Some(
                (
                    QueryFilterView::DateRange {
                        start: timestamp_or_zero(v as i32, 1, 1, 0, 0, 0),
                        end: timestamp_or_zero(v as i32, 12, 31, 23, 59, 59),
                    },
                    trim(without_match(text, g)),
                ),
            )
        } else {
            None
        },
        None => None,
    }
}

/// The date filter that the recent-span match `g` gives in `text` at the
/// clock reading `c`, and the rest of the text: from that many days before
/// now until now; `None` where the clock could not be read, the count does
/// not parse, or the start leaves `i64`.
pub open spec fn recent_step(text: Seq<char>, g: Seq<Option<(usize, usize)>>, c: Option<Clock>) -> Option<
    (QueryFilterView, Seq<char>),
> {
    match (recent_days(text, g), c) {
        (Some(d), Some(k)) => if fits_i64(k.utc_now - d * 86400) {
            Some(
                (
                    QueryFilterView::DateRange { start: (k.utc_now - d * 86400) as i64, end: k.utc_now },
                    trim(without_match(text, g)),
                ),
            )
        } else {
            None
        },
        _ => None,
    }
}

/// The date filter that the month match `g` gives in `text` at the clock
/// reading `c`, and the rest of the text: last month or this month, in
/// local time; `None` where the clock could not be read.
pub open spec fn month_step(text: Seq<char>, g: Seq<Option<(usize, usize)>>, c: Option<Clock>) -> Option<
    (QueryFilterView, Seq<char>),
> {
    match (group_text(text, g, 1), c) {
        (Some(w), Some(k)) => {
            let (y, m) = month_target(w, k);
            Some(
                (
                    QueryFilterView::DateRange {
                        start: timestamp_or_zero(y, m, 1, 0, 0, 0),
                        end: month_end(y, m),
                    },
                    trim(without_match(text, g)),
                ),
            )
        },
        _ => None,
    }
}

/// The date filter found in `text` at the clock reading `c`, and the rest
/// of the text: the first of a year, a recent span and a month that
/// matches decides; where it cannot be read, there is no date filter.
pub open spec fn date_step(text: Seq<char>, c: Option<Clock>) -> Option<(QueryFilterView, Seq<char>)> {
    match regex_captures_of(year_pattern(), text) {
        Some(g) => year_step(text, g),
        None => match regex_captures_of(recent_pattern(), text) {
            Some(g) => recent_step(text, g, c),
            None => match regex_captures_of(month_pattern(), text) {
                Some(g) => month_step(text, g, c),
                None => None,
            },
        },
    }
}

/// The year filter that the captures `g` of the year pattern give in
/// `text`, and the rest of the text.
pub fn year_filter(text: &str, g: &Vec<Option<(usize, usize)>>) -> (r: Option<(QueryFilter, String)>)
    requires
        captures_well_formed(g@, text@.len()),
    ensures
        match r {
            Some((f, rest)) => year_step(text@, g@) == Some((f@, rest@)),
            None => year_step(text@, g@) is None,
        },
{
    let t = chars_of(text);
    let d = match group_chars(&t, g, 1) {
        Some(d) => d,
        None => {
            return None;
        },
    };
    let v = match parse_int(&d, true) {
        Some(v) => v,
        None => {
            return None;
        },
    };
    if v < -2147483648 || v > 2147483647 {
        return None;
    }
    let y = v as i32;
    let start = match utc_timestamp(y, 1, 1, 0, 0, 0) {
        Some(ts) => ts,
        None => 0,
    };
    let end = match utc_timestamp(y, 12, 31, 23, 59, 59) {
        Some(ts) => ts,
        None => 0,
    };
    let rest = trim_chars(&without_chars(&t, g));
    Some((QueryFilter::DateRange { start, end }, string_of(&rest)))
}

/// The recent-span filter that the captures `g` of the recent pattern give
/// in `text` at the clock reading `clock`, and the rest of the text.
pub fn recent_filter(text: &str, g: &Vec<Option<(usize, usize)>>, clock: &Option<Clock>) -> (r:
    Option<(QueryFilter, String)>)
    requires
        captures_well_formed(g@, text@.len()),
        clock_ok(*clock),
    ensures
        match r {
            Some((f, rest)) => recent_step(text@, g@, *clock) == Some((f@, rest@)),
            None => recent_step(text@, g@, *clock) is None,
        },
{
    let t = chars_of(text);
    let k = match clock {
        Some(k) => k,
        None => {
            return None;
        },
    };
    let (d, u) = match (group_chars(&t, g, 2), group_chars(&t, g, 3)) {
        (Some(d), Some(u)) => (d, u),
        _ => {
            return None;
        },
    };
    let n = match parse_int(&d, true) {
        Some(n) => n,
        None => {
            return None;
        },
    };
    let days: i128 = if chars_eq_str(&u, "일") {
        n
    } else if chars_eq_str(&u, "주") {
        n * 7
    } else if chars_eq_str(&u, "개월") || chars_eq_str(&u, "달") {
        n * 30
    } else {
        n
    };
    let lo: i128 = -9223372036854775808;
    let hi: i128 = 9223372036854775807;
    if n < lo || n > hi || days < lo || days > hi || days * 86400 < lo || days * 86400 > hi {
        return None;
    }
    let start = k.utc_now as i128 - days * 86400;
    if start < lo || start > hi {
        return None;
    }
    let rest = trim_chars(&without_chars(&t, g));
    Some((QueryFilter::DateRange { start: start as i64, end: k.utc_now }, string_of(&rest)))
}

/// The month filter that the captures `g` of the month pattern give in
/// `text` at the clock reading `clock`, and the rest of the text.
pub fn month_filter(text: &str, g: &Vec<Option<(usize, usize)>>, clock: &Option<Clock>) -> (r:
    Option<(QueryFilter, String)>)
    requires
        captures_well_formed(g@, text@.len()),
        clock_ok(*clock),
    ensures
        match r {
            Some((f, rest)) => month_step(text@, g@, *clock) == Some((f@, rest@)),
            None => month_step(text@, g@, *clock) is None,
        },
{
    let t = chars_of(text);
    let k = match clock {
        Some(k) => k,
        None => {
            return None;
        },
    };
    let w = match group_chars(&t, g, 1) {
        Some(w) => w,
        None => {
            return None;
        },
    };
    let (y, m): (i32, u32) = if chars_eq_str(&w, "이번달") || chars_eq_str(&w, "이번 달") {
        (k.local_year, k.local_month)
    } else if k.local_month == 1 {
        (k.local_year - 1, 12)
    } else {
        (k.local_year, k.local_month - 1)
    };
    let start = match utc_timestamp(y, m, 1, 0, 0, 0) {
        Some(ts) => ts,
        None => 0,
    };
    let next = if m == 12 {
        utc_timestamp(y + 1, 1, 1, 0, 0, 0)
    } else {
        utc_timestamp(y, m + 1, 1, 0, 0, 0)
    };
    let end = match next {
        Some(ts) => ts - 1,
        None => 0,
    };
    let rest = trim_chars(&without_chars(&t, g));
    Some((QueryFilter::DateRange { start, end }, string_of(&rest)))
}

/// The date filter in `text` at the clock reading `clock`, and the rest of
/// the text.
pub fn extract_date_filter_at(text: &str, clock: &Option<Clock>) -> (r: Option<(QueryFilter, String)>)
    requires
        clock_ok(*clock),
    ensures
        match r {
            Some((f, rest)) => date_step(text@, *clock) == Some((f@, rest@)),
            None => date_step(text@, *clock) is None,
        },
{
    let t = chars_of(text);
    if let Some(g) = captures(year_pattern_str(), &t) {
        return year_filter(text, &g);
    }
    if let Some(g) = captures(recent_pattern_str(), &t) {
        return recent_filter(text, &g, clock);
    }
    if let Some(g) = captures(month_pattern_str(), &t) {
        return month_filter(text, &g, clock);
    }
    None
}

/// The date filter in `text` read at the current time, and the rest of the
/// text. Whatever the clock gave, the result is the date filter at some
/// reading of it (or at none, where it could not be read).
pub fn extract_date_filter(text: &str) -> (r: Option<(QueryFilter, String)>)
    ensures
        exists|c: Option<Clock>|
            clock_ok(c) && match r {
                Some((f, rest)) => date_step(text@, c) == Some((f@, rest@)),
                None => date_step(text@, c) is None,
            },
{
    let clock = read_clock();
    extract_date_filter_at(text, &clock)
}

// ---------------------------------------------------------------------------
// Extension filters
// ---------------------------------------------------------------------------
/// The number of languages and file kinds that extension filters know.
pub open spec fn ext_kinds() -> int {
    20
}

/// The pattern that names the `k`-th language or file kind.
pub open spec fn ext_pattern(k: int) -> Seq<char> {
    if k == 0 {
        "(?i)TypeScript"@
    } else
    if k == 1 {
        "(?i)JavaScript"@
    } else
    if k == 2 {
        "(?i)Python"@
    } else
    if k == 3 {
        "(?i)Rust"@
    } else
    if k == 4 {
        "(?i)Go\\b"@
    } else
    if k == 5 {
        "(?i)Java\\b"@
    } else
    if k == 6 {
        "(?i)C\\+\\+"@
    } else
    if k == 7 {
        "(?i)C#|C\\s*Sharp"@
    } else
    if k == 8 {
        "(?i)Ruby"@
    } else
    if k == 9 {
        "(?i)PHP"@
    } else
    if k == 10 {
        "(?i)Swift"@
    } else
    if k == 11 {
        "(?i)Kotlin"@
    } else
    if k == 12 {
        "(?i)마크다운|Markdown"@
    } else
    if k == 13 {
        "(?i)텍스트\\s*파일|text\\s*file"@
    } else
    if k == 14 {
        "(?i)JSON"@
    } else
    if k == 15 {
        "(?i)YAML|YML"@
    } else
    if k == 16 {
        "(?i)TOML"@
    } else
    if k == 17 {
        "(?i)CSV"@
    } else
    if k == 18 {
        "(?i)이미지|image|사진|photo"@
    } else
    if k == 19 {
        "(?i)PDF"@
    } else {
        seq![]
    }
}

/// The file extensions of the `k`-th language or file kind.
pub open spec fn ext_names(k: int) -> Seq<Seq<char>> {
    if k == 0 {
        seq!["ts"@, "tsx"@]
    } else
    if k == 1 {
        seq!["js"@, "jsx"@]
    } else
    if k == 2 {
        seq!["py"@]
    } else
    if k == 3 {
        seq!["rs"@]
    } else
    if k == 4 {
        seq!["go"@]
    } else
    if k == 5 {
        seq!["java"@]
    } else
    if k == 6 {
        seq!["cpp"@, "cc"@, "cxx"@, "hpp"@]
    } else
    if k == 7 {
        seq!["cs"@]
    } else
    if k == 8 {
        seq!["rb"@]
    } else
    if k == 9 {
        seq!["php"@]
    } else
    if k == 10 {
        seq!["swift"@]
    } else
    if k == 11 {
        seq!["kt"@]
    } else
    if k == 12 {
        seq!["md"@]
    } else
    if k == 13 {
        seq!["txt"@]
    } else
    if k == 14 {
        seq!["json"@]
    } else
    if k == 15 {
        seq!["yaml"@, "yml"@]
    } else
    if k == 16 {
        seq!["toml"@]
    } else
    if k == 17 {
        seq!["csv"@]
    } else
    if k == 18 {
        seq!["png"@, "jpg"@, "jpeg"@, "webp"@, "gif"@]
    } else
    if k == 19 {
        seq!["pdf"@]
    } else {
        seq![]
    }
}

fn ext_mapping(k: usize) -> (r: (&'static str, Vec<String>))
    requires
        k < 20,
    ensures
        r.0@ == ext_pattern(k as int),
        strs(r.1@) == ext_names(k as int),
{
    let r: (&'static str, Vec<String>) =     if k == 0 {
        ("(?i)TypeScript", vec!["ts".to_owned(), "tsx".to_owned()])
    } else
    if k == 1 {
        ("(?i)JavaScript", vec!["js".to_owned(), "jsx".to_owned()])
    } else
    if k == 2 {
        ("(?i)Python", vec!["py".to_owned()])
    } else
    if k == 3 {
        ("(?i)Rust", vec!["rs".to_owned()])
    } else
    if k == 4 {
        ("(?i)Go\\b", vec!["go".to_owned()])
    } else
    if k == 5 {
        ("(?i)Java\\b", vec!["java".to_owned()])
    } else
    if k == 6 {
        ("(?i)C\\+\\+", vec!["cpp".to_owned(), "cc".to_owned(), "cxx".to_owned(), "hpp".to_owned()])
    } else
    if k == 7 {
        ("(?i)C#|C\\s*Sharp", vec!["cs".to_owned()])
    } else
    if k == 8 {
        ("(?i)Ruby", vec!["rb".to_owned()])
    } else
    if k == 9 {
        ("(?i)PHP", vec!["php".to_owned()])
    } else
    if k == 10 {
        ("(?i)Swift", vec!["swift".to_owned()])
    } else
    if k == 11 {
        ("(?i)Kotlin", vec!["kt".to_owned()])
    } else
    if k == 12 {
        ("(?i)마크다운|Markdown", vec!["md".to_owned()])
    } else
    if k == 13 {
        ("(?i)텍스트\\s*파일|text\\s*file", vec!["txt".to_owned()])
    } else
    if k == 14 {
        ("(?i)JSON", vec!["json".to_owned()])
    } else
    if k == 15 {
        ("(?i)YAML|YML", vec!["yaml".to_owned(), "yml".to_owned()])
    } else
    if k == 16 {
        ("(?i)TOML", vec!["toml".to_owned()])
    } else
    if k == 17 {
        ("(?i)CSV", vec!["csv".to_owned()])
    } else
    if k == 18 {
        ("(?i)이미지|image|사진|photo", vec!["png".to_owned(), "jpg".to_owned(), "jpeg".to_owned(), "webp".to_owned(), "gif".to_owned()])
    } else
    if k == 19 {
        ("(?i)PDF", vec!["pdf".to_owned()])
    } else {
        ("", vec![])
    };
    proof {
        assert(strs(r.1@) =~= ext_names(k as int));
    }
    r
}

/// The filler words taken out around a recognised language name.
pub open spec fn filler_pattern() -> Seq<char> {
    "(?i)\\s*(파일|file|코드|code)\\s*"@
}

fn filler_pattern_str() -> (r: &'static str)
    ensures
        r@ == filler_pattern(),
{
    "(?i)\\s*(파일|file|코드|code)\\s*"
}

/// `text` with the language name `g` taken out, then each filler word
/// replaced by a space, trimmed after each step.
pub open spec fn extension_rest(text: Seq<char>, g: Seq<Option<(usize, usize)>>) -> Seq<char> {
    let first = trim(without_match(text, g));
    trim(replace_ranges(first, regex_matches_of(filler_pattern(), first), " "@))
}

/// `text` with the whole match of the captures `g` taken out, trimmed.
pub fn without_name(text: &str, g: &Vec<Option<(usize, usize)>>) -> (r: String)
    requires
        captures_well_formed(g@, text@.len()),
    ensures
        r@ == trim(without_match(text@, g@)),
{
    let t = chars_of(text);
    string_of(&trim_chars(&without_chars(&t, g)))
}

/// `text` with each of the filler matches `fillers` replaced by a space,
/// trimmed.
pub fn replace_fillers(text: &str, fillers: &Vec<(usize, usize)>) -> (r: String)
    requires
        matches_well_formed(fillers@, text@.len()),
    ensures
        r@ == trim(replace_ranges(text@, fillers@, " "@)),
{
    let t = chars_of(text);
    let space: Vec<char> = vec![' '];
    assert(space@ == " "@) by {
        reveal_strlit(" ");
    }
    let spaced = replace_ranges_exec(&t, fillers, &space);
    string_of(&trim_chars(&spaced))
}

/// The extension filter for the first language or file kind, from the
/// `k`-th on, that `text` names, and the rest of the text.
pub open spec fn extension_step_from(text: Seq<char>, k: int) -> Option<
    (QueryFilterView, Seq<char>),
>
    decreases ext_kinds() - k,
{
    if k < 0 || k >= ext_kinds() {
        None
    } else {
        match regex_captures_of(ext_pattern(k), text) {
            Some(g) => Some((QueryFilterView::Extension(ext_names(k)), extension_rest(text, g))),
            None => extension_step_from(text, k + 1),
        }
    }
}

/// The extension filter for the first language or file kind that `text`
/// names, and the rest of the text.
pub open spec fn extension_step(text: Seq<char>) -> Option<(QueryFilterView, Seq<char>)> {
    extension_step_from(text, 0)
}

proof fn lemma_extension_step_skip(text: Seq<char>, j: int, k: int)
    requires
        0 <= j <= k < ext_kinds(),
        forall|i: int| j <= i < k ==> regex_captures_of(ext_pattern(i), text) is None,
    ensures
        extension_step_from(text, j) == extension_step_from(text, k),
    decreases k - j,
{
    if j < k {
        lemma_extension_step_skip(text, j + 1, k);
    }
}

/// A query asks for the files of the first language or file kind it
/// names, with that kind's documented extensions: a text that names Java
/// (and none before it in the table) asks for `.java` files only, one that
/// names TypeScript for `.ts` and `.tsx`, and so on through the table.
pub proof fn lemma_named_language_extensions(text: Seq<char>, k: int)
    requires
        0 <= k < ext_kinds(),
        regex_captures_of(ext_pattern(k), text) is Some,
        forall|j: int| 0 <= j < k ==> regex_captures_of(ext_pattern(j), text) is None,
    ensures
        extension_step(text) matches Some((QueryFilterView::Extension(e), _)) && {
            &&& (k == 0 ==> ext_pattern(k) == "(?i)TypeScript"@ && e == seq!["ts"@, "tsx"@])
            &&& (k == 1 ==> ext_pattern(k) == "(?i)JavaScript"@ && e == seq!["js"@, "jsx"@])
            &&& (k == 2 ==> ext_pattern(k) == "(?i)Python"@ && e == seq!["py"@])
            &&& (k == 3 ==> ext_pattern(k) == "(?i)Rust"@ && e == seq!["rs"@])
            &&& (k == 4 ==> ext_pattern(k) == "(?i)Go\\b"@ && e == seq!["go"@])
            &&& (k == 5 ==> ext_pattern(k) == "(?i)Java\\b"@ && e == seq!["java"@])
            &&& (k == 6 ==> ext_pattern(k) == "(?i)C\\+\\+"@ && e == seq!["cpp"@, "cc"@, "cxx"@, "hpp"@])
            &&& (k == 7 ==> ext_pattern(k) == "(?i)C#|C\\s*Sharp"@ && e == seq!["cs"@])
            &&& (k == 8 ==> ext_pattern(k) == "(?i)Ruby"@ && e == seq!["rb"@])
            &&& (k == 9 ==> ext_pattern(k) == "(?i)PHP"@ && e == seq!["php"@])
            &&& (k == 10 ==> ext_pattern(k) == "(?i)Swift"@ && e == seq!["swift"@])
            &&& (k == 11 ==> ext_pattern(k) == "(?i)Kotlin"@ && e == seq!["kt"@])
            &&& (k == 12 ==> ext_pattern(k) == "(?i)마크다운|Markdown"@ && e == seq!["md"@])
            &&& (k == 13 ==> ext_pattern(k) == "(?i)텍스트\\s*파일|text\\s*file"@ && e == seq!["txt"@])
            &&& (k == 14 ==> ext_pattern(k) == "(?i)JSON"@ && e == seq!["json"@])
            &&& (k == 15 ==> ext_pattern(k) == "(?i)YAML|YML"@ && e == seq!["yaml"@, "yml"@])
            &&& (k == 16 ==> ext_pattern(k) == "(?i)TOML"@ && e == seq!["toml"@])
            &&& (k == 17 ==> ext_pattern(k) == "(?i)CSV"@ && e == seq!["csv"@])
            &&& (k == 18 ==> ext_pattern(k) == "(?i)이미지|image|사진|photo"@ && e == seq!["png"@, "jpg"@, "jpeg"@, "webp"@, "gif"@])
            &&& (k == 19 ==> ext_pattern(k) == "(?i)PDF"@ && e == seq!["pdf"@])
        },
{
    lemma_extension_step_skip(text, 0, k);
}

/// The extension filter for the first language or file kind that `text`
/// names, and the rest of the text.
pub fn extract_extension_filter(text: &str) -> (r: Option<(QueryFilter, String)>)
    ensures
        match r {
            Some((f, rest)) => extension_step(text@) == Some((f@, rest@)),
            None => extension_step(text@) is None,
        },
{
    let t = chars_of(text);
    let mut k: usize = 0;
    while k < 20
        invariant
            k <= 20,
            t@ == text@,
            extension_step(text@) == extension_step_from(text@, k as int),
        decreases 20 - k,
    {
        let (pattern, exts) = ext_mapping(k);
        if let Some(g) = captures(pattern, &t) {
            let first = without_name(text, &g);
            let fillers = regex_find_all(filler_pattern_str(), first.as_str());
            let rest = replace_fillers(first.as_str(), &fillers);
            proof {
                assert(regex_captures_of(ext_pattern(k as int), text@) is Some);
                assert(extension_step_from(text@, k as int) == Some(
                    (QueryFilterView::Extension(ext_names(k as int)), extension_rest(text@, g@)),
                ));
                assert(rest@ == extension_rest(text@, g@));
            }
            return Some((QueryFilter::Extension(exts), rest));
        }
        k += 1;
    }
    None
}

// ---------------------------------------------------------------------------
// The whole query
// ---------------------------------------------------------------------------
/// Whether `t` is wrapped in double or single quotes: it has two
/// characters or more, and its first and last are the same quote. A lone
/// quote wraps nothing and is kept.
pub open spec fn is_quoted(t: Seq<char>) -> bool {
    t.len() >= 2 && ((t[0] == '"' && t.last() == '"') || (t[0] == '\'' && t.last() == '\''))
}

/// `t` without its wrapping quotes.
pub open spec fn unquote(t: Seq<char>) -> Seq<char> {
    if is_quoted(t) {
        t.subrange(1, t.len() - 1)
    } else {
        t
    }
}

/// The text a query is read from: the input trimmed and unquoted.
pub open spec fn query_text(input: Seq<char>) -> Seq<char> {
    unquote(trim(input))
}

/// Words that carry no meaning for the search.
pub open spec fn is_stopword(w: Seq<char>) -> bool {
    ||| w == "중"@
    ||| w == "에서"@
    ||| w == "관련"@
    ||| w == "파일"@
    ||| w == "있는"@
    ||| w == "포함된"@
    ||| w == "작성한"@
    ||| w == "만든"@
    ||| w == "에"@
    ||| w == "의"@
    ||| w == "을"@
    ||| w == "를"@
    ||| w == "이"@
    ||| w == "가"@
    ||| w == "은"@
    ||| w == "는"@
    ||| w == "으로"@
    ||| w == "동안"@
    ||| w == "수정한"@
}

/// `ws` without its stop words.
pub open spec fn drop_stopwords(ws: Seq<Seq<char>>) -> Seq<Seq<char>>
    decreases ws.len(),
{
    if ws.len() == 0 {
        seq![]
    } else {
        let p = drop_stopwords(ws.drop_last());
        if is_stopword(ws.last()) {
            p
        } else {
            p.push(ws.last())
        }
    }
}

/// The sort order that the keywords in `t` ask for: newest first for
/// "최신" or "최근", oldest first for "오래된", by name for "이름순",
/// else by relevance.
pub open spec fn sort_of(t: Seq<char>) -> SortOrder {
    if contains_sub(t, "최신"@) || contains_sub(t, "최근"@) {
        SortOrder::DateDesc
    } else if contains_sub(t, "오래된"@) {
        SortOrder::DateAsc
    } else if contains_sub(t, "이름순"@) {
        SortOrder::NameAsc
    } else {
        SortOrder::Relevance
    }
}

/// The text to search for: the words of `t` other than stop words,
/// separated by single spaces.
pub open spec fn semantic_text(t: Seq<char>) -> Seq<char> {
    trim(join(drop_stopwords(words(t)), " "@))
}

/// The query read from `input` at time `c`: a date filter first, then an
/// extension filter from what is left, the sort order from the keywords in
/// the rest, and the rest without stop words as the text to search for.
pub open spec fn spec_parse_query(input: Seq<char>, c: Option<Clock>) -> ParsedQueryView {
    let t0 = query_text(input);
    let (f1, t1) = match date_step(t0, c) {
        Some((f, r)) => (seq![f], r),
        None => (Seq::<QueryFilterView>::empty(), t0),
    };
    let (f2, t2) = match extension_step(t1) {
        Some((f, r)) => (f1.push(f), r),
        None => (f1, t1),
    };
    ParsedQueryView {
        semantic_query: semantic_text(t2),
        filters: f2,
        sort: sort_of(t2),
        raw_input: input,
    }
}

fn is_stopword_exec(w: &[char]) -> (r: bool)
    ensures
        r == is_stopword(w@),
{
    chars_eq_str(w, "중") || chars_eq_str(w, "에서") || chars_eq_str(w, "관련") || chars_eq_str(w, "파일") || chars_eq_str(w, "있는") || chars_eq_str(w, "포함된") || chars_eq_str(w, "작성한") || chars_eq_str(w, "만든") || chars_eq_str(w, "에") || chars_eq_str(w, "의") || chars_eq_str(w, "을") || chars_eq_str(w, "를") || chars_eq_str(w, "이") || chars_eq_str(w, "가") || chars_eq_str(w, "은") || chars_eq_str(w, "는") || chars_eq_str(w, "으로") || chars_eq_str(w, "동안") || chars_eq_str(w, "수정한")
}

fn semantic_chars(t: &[char]) -> (r: Vec<char>)
    ensures
        r@ == semantic_text(t@),
{
    let ws = words_of(t);
    let mut kept: Vec<Vec<char>> = Vec::new();
    let mut i: usize = 0;
    assert(views(ws@).take(0) =~= Seq::<Seq<char>>::empty());
    while i < ws.len()
        invariant
            i <= ws.len(),
            views(kept@) == drop_stopwords(views(ws@).take(i as int)),
        decreases ws.len() - i,
    {
        let ghost pre = views(ws@).take(i + 1);
        assert(pre.drop_last() =~= views(ws@).take(i as int));
        assert(pre.last() == ws@[i as int]@);
        if !is_stopword_exec(&ws[i]) {
            let ghost before = views(kept@);
            let w = sub_chars(&ws[i], 0, ws[i].len());
            assert(w@ =~= ws@[i as int]@);
            kept.push(w);
            assert(views(kept@) =~= before.push(ws@[i as int]@));
        }
        i += 1;
    }
    assert(views(ws@).take(ws.len() as int) =~= views(ws@));
    let space: Vec<char> = vec![' '];
    assert(space@ == " "@) by {
        reveal_strlit(" ");
    }
    let joined = join_chars(&kept, &space);
    trim_chars(&joined)
}

fn sort_of_exec(t: &[char]) -> (r: SortOrder)
    ensures
        r == sort_of(t@),
{
    if contains_str(t, "최신") || contains_str(t, "최근") {
        SortOrder::DateDesc
    } else if contains_str(t, "오래된") {
        SortOrder::DateAsc
    } else if contains_str(t, "이름순") {
        SortOrder::NameAsc
    } else {
        SortOrder::Relevance
    }
}

fn query_text_exec(input: &str) -> (r: Vec<char>)
    ensures
        r@ == query_text(input@),
{
    let t = trim_chars(&chars_of(input));
    let n = t.len();
    if n >= 2 && ((t[0] == '"' && t[n - 1] == '"') || (t[0] == '\'' && t[n - 1] == '\'')) {
        sub_chars(&t, 1, n - 1)
    } else {
        t
    }
}

/// The query read from `input` at the clock reading `clock`.
pub fn parse_query_at(input: &str, clock: &Option<Clock>) -> (r: ParsedQuery)
    requires
        clock_ok(*clock),
    ensures
        r@ == spec_parse_query(input@, *clock),
{
    let t0 = query_text_exec(input);
    let mut filters: Vec<QueryFilter> = Vec::new();
    let mut text = string_of(&t0);
    if let Some((f, rest)) = extract_date_filter_at(text.as_str(), clock) {
        filters.push(f);
        text = rest;
    }
    let ghost f1 = filter_views(filters@);
    let ghost t1 = text@;
    if let Some((f, rest)) = extract_extension_filter(text.as_str()) {
        filters.push(f);
        text = rest;
    }
    let ghost f2 = filter_views(filters@);
    let t2 = chars_of(text.as_str());
    let sort = sort_of_exec(&t2);
    let semantic = semantic_chars(&t2);
    let raw = chars_of(input);
    let r = ParsedQuery {
        semantic_query: string_of(&semantic),
        filters,
        sort,
        raw_input: string_of(&raw),
    };
    proof {
        let t0s = query_text(input@);
        let e1: (Seq<QueryFilterView>, Seq<char>) = match date_step(t0s, *clock) {
            Some((f, rr)) => (seq![f], rr),
            None => (Seq::<QueryFilterView>::empty(), t0s),
        };
        assert(f1 =~= e1.0);
        assert(t1 == e1.1);
        let e2: (Seq<QueryFilterView>, Seq<char>) = match extension_step(t1) {
            Some((f, rr)) => (f1.push(f), rr),
            None => (f1, t1),
        };
        assert(f2 =~= e2.0);
        assert(t2@ == e2.1);
    }
    r
}

/// The query read from `input` at the current time. Every input is read;
/// whatever the clock gave, the result is the query at some reading of it
/// (or at none, where it could not be read).
pub fn parse_query(input: &str) -> (r: ParsedQuery)
    ensures
        exists|c: Option<Clock>| clock_ok(c) && r@ == spec_parse_query(input@, c),
        r.raw_input@ == input@,
{
    let clock = read_clock();
    parse_query_at(input, &clock)
}

/// A parsed query keeps the raw input it was read from.
pub proof fn lemma_parse_keeps_raw_input(input: Seq<char>, c: Option<Clock>)
    ensures
        spec_parse_query(input, c).raw_input == input,
{
}

} // verus!
