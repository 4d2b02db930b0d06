//! The settings of the command-line front end that the library reads: the
//! sources to index, the embedding model, the indexing schedule, and the
//! reading of sizes such as `"50MB"`.
use vstd::prelude::*;
use crate::numbers::all_digits;
use crate::numbers::int_text_value;
use crate::numbers::lemma_digits_value_nonneg;
use crate::numbers::parse_int;
use crate::strings::chars_of;
use crate::strings::ends_with;
use crate::strings::ends_with_chars;
use crate::strings::string_of;
use crate::strings::sub_chars;
use crate::strings::trim;
use crate::strings::trim_chars;

verus! {

/// Where the files to index are and which of them to leave out.
#[derive(Debug, Clone)]
pub struct SourceConfig {
    pub paths: Vec<String>,
    pub ignore: Vec<String>,
    pub max_file_size: String,
}

/// Which embedding model to use and how.
#[derive(Debug, Clone)]
pub struct EmbeddingConfig {
    pub provider: String,
    pub model: String,
    pub batch_size: usize,
    pub dimensions: usize,
}

/// Whether to keep watching the sources, and how often.
#[derive(Debug, Clone)]
pub struct IndexConfig {
    pub watch: bool,
    pub interval: String,
}

impl Default for SourceConfig {
    /// No paths; the usual build and tool directories ignored; files up to
    /// 50MB.
    fn default() -> (r: SourceConfig)
        ensures
            r.paths@.len() == 0,
            r.ignore@.len() == 6,
            r.ignore@[0]@ == "node_modules"@,
            r.ignore@[1]@ == ".git"@,
            r.ignore@[2]@ == "dist"@,
            r.ignore@[3]@ == "__pycache__"@,
            r.ignore@[4]@ == "*.lock"@,
            r.ignore@[5]@ == "target"@,
            r.max_file_size@ == "50MB"@,
    {
        SourceConfig {
            paths: Vec::new(),
            ignore: vec![
                "node_modules".to_string(),
                ".git".to_string(),
                "dist".to_string(),
                "__pycache__".to_string(),
                "*.lock".to_string(),
                "target".to_string(),
            ],
            max_file_size: "50MB".to_string(),
        }
    }
}

impl Default for EmbeddingConfig {
    /// The model picked automatically, `multilingual-e5-base`, in batches
    /// of 100, with 768 dimensions.
    fn default() -> (r: EmbeddingConfig)
        ensures
            r.provider@ == "auto"@,
            r.model@ == "multilingual-e5-base"@,
            r.batch_size == 100,
            r.dimensions == 768,
    {
        EmbeddingConfig {
            provider: "auto".to_string(),
            model: "multilingual-e5-base".to_string(),
            batch_size: 100,
            dimensions: 768,
        }
    }
}

impl Default for IndexConfig {
    /// Watching, every five seconds.
    fn default() -> (r: IndexConfig)
        ensures
            r.watch,
            r.interval@ == "5s"@,
    {
        IndexConfig { watch: true, interval: "5s".to_string() }
    }
}

/// `str::to_uppercase`: the text with each character mapped to its upper
/// case after Unicode.
pub uninterp spec fn uppercase_of(s: Seq<char>) -> Seq<char>;

/// Whether every character of `s` is ASCII.
pub open spec fn is_ascii_text(s: Seq<char>) -> bool {
    forall|i: int| 0 <= i < s.len() ==> (#[trigger] s[i] as int) < 128
}

/// ASCII text in upper case: `a` to `z` become `A` to `Z`, the rest stays.
pub open spec fn ascii_upper(s: Seq<char>) -> Seq<char> {
    s.map_values(|c: char| if 'a' <= c && c <= 'z' { (c as int - 32) as char } else { c })
}

/// `str::to_uppercase`. Its result is named `uppercase_of`; for ASCII text
/// it is the ASCII upper case.
#[verifier::external_body]
fn to_uppercase(s: &str) -> (r: String)
    ensures
        r@ == uppercase_of(s@),
        is_ascii_text(s@) ==> r@ == ascii_upper(s@),
{
    s.to_uppercase()
}

/// The value of the decimal text `t` as a `u64`: an optional `'+'` and
/// digits, at most `u64::MAX`.
pub open spec fn parsed_u64(t: Seq<char>) -> Option<int> {
    match int_text_value(t, false) {
        Some(v) => if v <= u64::MAX {
            Some(v)
        } else {
            None
        },
        None => None,
    }
}

/// The size written as a number, trimmed, before the unit of `unit_len`
/// characters that ends `u`, times `factor`.
pub open spec fn unit_size(u: Seq<char>, unit_len: int, factor: int) -> Option<int> {
    match parsed_u64(trim(u.take(u.len() - unit_len))) {
        Some(n) => Some(n * factor),
        None => None,
    }
}

/// The number of bytes that the upper-case size text `u` stands for: a
/// number of `GB`, `MB` or `KB` (powers of 1024), or a plain number.
pub open spec fn size_of_upper(u: Seq<char>) -> Option<int> {
    if ends_with(u, "GB"@) {
        unit_size(u, 2, 1073741824)
    } else if ends_with(u, "MB"@) {
        unit_size(u, 2, 1048576)
    } else if ends_with(u, "KB"@) {
        unit_size(u, 2, 1024)
    } else {
        parsed_u64(u)
    }
}

/// Whether the size that `u` stands for, if any, fits in a `u64`.
pub open spec fn size_fits(u: Seq<char>) -> bool {
    size_of_upper(u) matches Some(v) ==> v <= u64::MAX
}

/// The upper-case form in which a size text is read.
pub open spec fn size_text(s: Seq<char>) -> Seq<char> {
    uppercase_of(trim(s))
}

fn parse_u64_chars(t: &[char]) -> (r: Option<u64>)
    ensures
        match r {
            Some(v) => parsed_u64(t@) == Some(v as int),
            None => parsed_u64(t@) is None,
        },
{
    proof {
        if t@.len() > 0 && t@[0] == '+' {
            if all_digits(t@.drop_first()) {
                lemma_digits_value_nonneg(t@.drop_first());
            }
        } else if all_digits(t@) {
            lemma_digits_value_nonneg(t@);
        }
    }
    match parse_int(t, false) {
        Some(v) => {
            if 0 <= v && v <= 0xffff_ffff_ffff_ffff {
                Some(v as u64)
            } else {
                None
            }
        },
        None => None,
    }
}

fn unit_size_exec(u: &[char], unit_len: usize, factor: u64) -> (r: Option<u64>)
    requires
        unit_len <= u.len(),
        factor == 1024 || factor == 1048576 || factor == 1073741824,
        unit_size(u@, unit_len as int, factor as int) matches Some(v)
            ==> v <= u64::MAX,
    ensures
        match r {
            Some(v) => unit_size(u@, unit_len as int, factor as int)
                == Some(v as int),
            None => unit_size(u@, unit_len as int, factor as int) is None,
        },
{
    let head = sub_chars(u, 0, u.len() - unit_len);
    assert(head@ == u@.take(u@.len() - unit_len));
    let num = trim_chars(&head);
    match parse_u64_chars(&num) {
        Some(n) => Some(n * factor),
        None => None,
    }
}

/// The number of bytes that the upper-case size text `u` stands for.
pub fn parse_size_upper(u: &[char]) -> (r: Option<u64>)
    requires
        size_fits(u@),
    ensures
        match r {
            Some(v) => size_of_upper(u@) == Some(v as int),
            None => size_of_upper(u@) is None,
        },
{
    proof {
        reveal_strlit("GB");
        reveal_strlit("MB");
        reveal_strlit("KB");
    }
    if ends_with_chars(u, &chars_of("GB")) {
        unit_size_exec(u, 2, 1073741824)
    } else if ends_with_chars(u, &chars_of("MB")) {
        unit_size_exec(u, 2, 1048576)
    } else if ends_with_chars(u, &chars_of("KB")) {
        unit_size_exec(u, 2, 1024)
    } else {
        parse_u64_chars(u)
    }
}

/// The number of bytes that the size text `s` stands for, such as `"50MB"`
/// or `" 2 gb "`: trimmed and read in upper case; `None` where it is no
/// size.
pub fn parse_size(s: &str) -> (r: Option<u64>)
    requires
        size_fits(size_text(s@)),
    ensures
        match r {
            Some(v) => size_of_upper(size_text(s@)) == Some(v as int),
            None => size_of_upper(size_text(s@)) is None,
        },
{
    let t = string_of(&trim_chars(&chars_of(s)));
    let u = chars_of(to_uppercase(t.as_str()).as_str());
    parse_size_upper(&u)
}

/// `parse_size(s)`, or `None` where the size that `s` stands for does not
/// fit in a `u64`.
pub fn checked_size(s: &str) -> (r: Option<Option<u64>>)
    ensures
        r is None <==> !size_fits(size_text(s@)),
        r matches Some(x) ==> match x {
            Some(v) => size_of_upper(size_text(s@)) == Some(v as int),
            None => size_of_upper(size_text(s@)) is None,
        },
{
    let t = string_of(&trim_chars(&chars_of(s)));
    let u = chars_of(to_uppercase(t.as_str()).as_str());
    if fits_u64(&u) {
        Some(parse_size(s))
    } else {
        None
    }
}

fn fits_u64(u: &[char]) -> (r: bool)
    ensures
        r == size_fits(u@),
{
    proof {
        reveal_strlit("GB");
        reveal_strlit("MB");
        reveal_strlit("KB");
    }
    let (unit_len, limit): (usize, u64) = if ends_with_chars(u, &chars_of("GB")) {
        (2, 17179869183)
    } else if ends_with_chars(u, &chars_of("MB")) {
        (2, 17592186044415)
    } else if ends_with_chars(u, &chars_of("KB")) {
        (2, 18014398509481983)
    } else {
        return true;
    };
    let head = sub_chars(u, 0, u.len() - unit_len);
    assert(head@ == u@.take(u@.len() - unit_len));
    let num = trim_chars(&head);
    match parse_u64_chars(&num) {
        Some(n) => n <= limit,
        None => true,
    }
}

/// A setting that the `config` command reads or writes.
#[derive(Debug, Clone, Copy, PartialEq, Eq, Structural)]
pub enum ConfigKey {
    Model,
    Provider,
    Alpha,
    MaxResults,
    CacheSize,
    Ignore,
    MaxFileSize,
    Watch,
}

/// The setting named `key`, by its short or its dotted name.
pub open spec fn key_named(key: Seq<char>) -> Option<ConfigKey> {
    if key == "model"@ || key == "embedding.model"@ {
        Some(ConfigKey::Model)
    } else if key == "provider"@ || key == "embedding.provider"@ {
        Some(ConfigKey::Provider)
    } else if key == "alpha"@ || key == "search.alpha"@ {
        Some(ConfigKey::Alpha)
    } else if key == "max_results"@ || key == "search.max_results"@ {
        Some(ConfigKey::MaxResults)
    } else if key == "cache_size"@ || key == "search.cache_size"@ {
        Some(ConfigKey::CacheSize)
    } else if key == "ignore"@ || key == "source.ignore"@ {
        Some(ConfigKey::Ignore)
    } else if key == "max_file_size"@ || key == "source.max_file_size"@ {
        Some(ConfigKey::MaxFileSize)
    } else if key == "watch"@ || key == "index.watch"@ {
        Some(ConfigKey::Watch)
    } else {
        None
    }
}

/// The setting named `key`, if there is one.
pub fn config_key(key: &str) -> (r: Option<ConfigKey>)
    ensures
        r == key_named(key@),
{
    let k = chars_of(key);
    if crate::strings::chars_eq_str(&k, "model") || crate::strings::chars_eq_str(&k, "embedding.model") {
        Some(ConfigKey::Model)
    } else if crate::strings::chars_eq_str(&k, "provider") || crate::strings::chars_eq_str(
        &k,
        "embedding.provider",
    ) {
        Some(ConfigKey::Provider)
    } else if crate::strings::chars_eq_str(&k, "alpha") || crate::strings::chars_eq_str(&k, "search.alpha") {
        Some(ConfigKey::Alpha)
    } else if crate::strings::chars_eq_str(&k, "max_results") || crate::strings::chars_eq_str(
        &k,
        "search.max_results",
    ) {
        Some(ConfigKey::MaxResults)
    } else if crate::strings::chars_eq_str(&k, "cache_size") || crate::strings::chars_eq_str(
        &k,
        "search.cache_size",
    ) {
        Some(ConfigKey::CacheSize)
    } else if crate::strings::chars_eq_str(&k, "ignore") || crate::strings::chars_eq_str(&k, "source.ignore") {
        Some(ConfigKey::Ignore)
    } else if crate::strings::chars_eq_str(&k, "max_file_size") || crate::strings::chars_eq_str(
        &k,
        "source.max_file_size",
    ) {
        Some(ConfigKey::MaxFileSize)
    } else if crate::strings::chars_eq_str(&k, "watch") || crate::strings::chars_eq_str(&k, "index.watch") {
        Some(ConfigKey::Watch)
    } else {
        None
    }
}

/// The ignore patterns written as `value`: its comma-separated pieces,
/// each trimmed.
pub open spec fn ignore_patterns(value: Seq<char>) -> Seq<Seq<char>> {
    crate::strings::split_char(value, ',').map_values(|p: Seq<char>| trim(p))
}

/// The ignore patterns written as `value`.
pub fn parse_ignore_list(value: &str) -> (r: Vec<String>)
    ensures
        crate::strings::string_views(r@) == ignore_patterns(value@),
{
    let pieces = crate::strings::split_chars(&chars_of(value), ',');
    let ghost ps = crate::strings::views(pieces@);
    let mut r: Vec<String> = Vec::new();
    let mut i: usize = 0;
    while i < pieces.len()
        invariant
            i <= pieces.len(),
            ps == crate::strings::views(pieces@),
            ps == crate::strings::split_char(value@, ','),
            crate::strings::string_views(r@) =~= ps.take(i as int).map_values(|p: Seq<char>| trim(p)),
        decreases pieces.len() - i,
    {
        let t = string_of(&trim_chars(&pieces[i]));
        let ghost before = crate::strings::string_views(r@);
        r.push(t);
        assert(crate::strings::string_views(r@) =~= before.push(trim(ps[i as int])));
        assert(ps.take(i + 1) =~= ps.take(i as int).push(ps[i as int]));
        i += 1;
    }
    assert(ps.take(pieces.len() as int) =~= ps);
    r
}

} // verus!
