//! Cutting files into hierarchical chunks: the chunk record, the chunker
//! interface, the heading-and-paragraph chunker for text, and the choice of
//! chunker by file extension.
use vstd::prelude::*;
use crate::paths::extension_of;
use crate::paths::path_extension;
use crate::strings::chars_eq_str;
use crate::strings::chars_of;
use crate::strings::extend_chars;
use crate::strings::is_blank;
use crate::strings::lines;
use crate::strings::lines_of;
use crate::strings::string_of;
use crate::strings::trim;
use crate::strings::lemma_trim_idempotent;
use crate::strings::lemma_trim_shorter;
use crate::strings::trim_chars;
use crate::strings::views;
use crate::types::ChunkType;
use crate::code_chunker::CodeChunker;
use crate::code_chunker::code_chunks;
use crate::code_chunker::code_extensions;

verus! {

/// A chunk cut from a file, before it is stored.
#[derive(Debug, Clone)]
pub struct ChunkData {
    pub content: String,
    pub chunk_type: ChunkType,
    pub parent_index: Option<usize>,
    pub start_line: Option<usize>,
    pub end_line: Option<usize>,
    pub name: Option<String>,
}

/// A chunk with its strings taken by value.
pub struct ChunkDataView {
    pub content: Seq<char>,
    pub chunk_type: ChunkType,
    pub parent_index: Option<usize>,
    pub start_line: Option<usize>,
    pub end_line: Option<usize>,
    pub name: Option<Seq<char>>,
}

/// The view of an optional string.
pub open spec fn opt_view(s: Option<String>) -> Option<Seq<char>> {
    match s {
        Some(s) => Some(s@),
        None => None,
    }
}

impl View for ChunkData {
    type V = ChunkDataView;

    open spec fn view(&self) -> ChunkDataView {
        ChunkDataView {
            content: self.content@,
            chunk_type: self.chunk_type,
            parent_index: self.parent_index,
            start_line: self.start_line,
            end_line: self.end_line,
            name: opt_view(self.name),
        }
    }
}

/// The views of a sequence of chunks.
pub open spec fn chunk_views(v: Seq<ChunkData>) -> Seq<ChunkDataView> {
    v.map_values(|c: ChunkData| c@)
}

/// Every chunk's parent comes before it.
pub open spec fn parents_precede(cs: Seq<ChunkDataView>) -> bool {
    forall|i: int| 0 <= i < cs.len() ==> (#[trigger] cs[i].parent_index matches Some(p) ==> p < i)
}

/// The views of a sequence of string slices.
pub open spec fn str_views(v: Seq<&str>) -> Seq<Seq<char>> {
    v.map_values(|s: &str| s@)
}

/// Whether a chunker for the extensions `exts` takes the file at `path`.
pub open spec fn handles(exts: Seq<Seq<char>>, path: Seq<char>) -> bool {
    match path_extension(path) {
        Some(e) => exts.contains(e),
        None => false,
    }
}

/// Splits files of certain kinds into chunks.
pub trait Chunker {
    /// The extensions of the files this chunker takes.
    spec fn extensions(&self) -> Seq<Seq<char>>;

    /// The extensions of the files this chunker takes.
    fn supported_extensions(&self) -> (r: Vec<&'static str>)
        ensures
            str_views(r@) == self.extensions(),
    ;

    /// Whether this chunker takes the file at `path`, by its extension.
    fn can_handle(&self, path: &str) -> (r: bool)
        ensures
            r == handles(self.extensions(), path@),
    {
        let p = chars_of(path);
        let ext = match extension_of(&p) {
            Some(e) => e,
            None => {
                return false;
            },
        };
        let exts = self.supported_extensions();
        let mut i: usize = 0;
        while i < exts.len()
            invariant
                i <= exts.len(),
                str_views(exts@) == self.extensions(),
                path_extension(path@) == Some(ext@),
                forall|j: int| 0 <= j < i ==> exts@[j]@ != ext@,
            decreases exts.len() - i,
        {
            if chars_eq_str(&ext, exts[i]) {
                assert(self.extensions()[i as int] == ext@);
                return true;
            }
            i += 1;
        }
        assert(!self.extensions().contains(ext@)) by {
            if self.extensions().contains(ext@) {
                let j = choose|j: int|
                    0 <= j < self.extensions().len() && self.extensions()[j] == ext@;
                assert(exts@[j]@ == ext@);
            }
        }
        false
    }

    /// The chunks of `content`, the text of the file at `path`.
    fn chunk(&self, path: &str, content: &str) -> (r: Vec<ChunkData>);
}

// ---------------------------------------------------------------------------
// Text
// ---------------------------------------------------------------------------
/// Chunks text and markdown by headings and paragraphs.
pub struct TextChunker;

/// The progress of the text chunker after some lines: the chunks so far,
/// the index of the current section, the paragraph being gathered and the
/// line it started at.
pub struct TextState {
    pub chunks: Seq<ChunkDataView>,
    pub section: Option<usize>,
    pub text: Seq<char>,
    pub start: usize,
}

/// `s` without its leading `'#'` characters.
pub open spec fn trim_hashes(s: Seq<char>) -> Seq<char>
    decreases s.len(),
{
    if s.len() > 0 && s[0] == '#' {
        trim_hashes(s.drop_first())
    } else {
        s
    }
}

/// `i - 1`, or 0 for 0.
pub open spec fn before(i: usize) -> usize {
    if i == 0 {
        0
    } else {
        (i - 1) as usize
    }
}

/// The paragraph gathered in `st`, ending at line `end`.
pub open spec fn paragraph(st: TextState, end: usize) -> ChunkDataView {
    ChunkDataView {
        content: trim(st.text),
        chunk_type: ChunkType::Paragraph,
        parent_index: st.section,
        start_line: Some(st.start),
        end_line: Some(end),
        name: None,
    }
}

/// The state after line `i`, `line`: a heading (a line starting with `'#'`)
/// closes the paragraph and opens a section; a blank line closes a
/// non-blank paragraph; any other line joins the paragraph.
pub open spec fn text_step(st: TextState, line: Seq<char>, i: usize) -> TextState {
    if line.len() > 0 && line[0] == '#' {
        let flushed = if trim(st.text).len() > 0 {
            st.chunks.push(paragraph(st, before(i)))
        } else {
            st.chunks
        };
        let section = ChunkDataView {
            content: line,
            chunk_type: ChunkType::Section,
            parent_index: None,
            start_line: Some(i),
            end_line: Some(i),
            name: Some(trim(trim_hashes(line))),
        };
        TextState {
            chunks: flushed.push(section),
            section: Some(flushed.len() as usize),
            text: seq![],
            start: (i + 1) as usize,
        }
    } else if trim(line).len() == 0 && trim(st.text).len() > 0 {
        TextState {
            chunks: st.chunks.push(paragraph(st, before(i))),
            section: st.section,
            text: seq![],
            start: (i + 1) as usize,
        }
    } else {
        TextState { text: st.text + line + seq!['\n'], ..st }
    }
}

/// The state after the first `n` of `ls`.
pub open spec fn text_fold(ls: Seq<Seq<char>>, n: int) -> TextState
    decreases n,
{
    if n <= 0 {
        TextState { chunks: seq![], section: None, text: seq![], start: 0 }
    } else {
        text_step(text_fold(ls, n - 1), ls[n - 1], (n - 1) as usize)
    }
}

/// The chunks of a text file: its sections and paragraphs, each paragraph
/// under the section it follows; a file with lines but no such chunk is a
/// single `File` chunk.
pub open spec fn text_chunks(content: Seq<char>) -> Seq<ChunkDataView> {
    let ls = lines(content);
    if ls.len() == 0 {
        seq![]
    } else {
        let st = text_fold(ls, ls.len() as int);
        let last = (ls.len() - 1) as usize;
        let cs = if trim(st.text).len() > 0 {
            st.chunks.push(paragraph(st, last))
        } else {
            st.chunks
        };
        if cs.len() == 0 {
            seq![
                ChunkDataView {
                    content,
                    chunk_type: ChunkType::File,
                    parent_index: None,
                    start_line: Some(0),
                    end_line: Some(last),
                    name: None,
                },
            ]
        } else {
            cs
        }
    }
}

proof fn lemma_text_fold_parents(ls: Seq<Seq<char>>, n: int)
    requires
        0 <= n <= ls.len(),
    ensures
        parents_precede(text_fold(ls, n).chunks),
        text_fold(ls, n).section matches Some(s) ==> s < text_fold(ls, n).chunks.len(),
    decreases n,
{
    if n > 0 {
        lemma_text_fold_parents(ls, n - 1);
        let st = text_fold(ls, n - 1);
        let i = (n - 1) as usize;
        let line = ls[n - 1];
        let para = paragraph(st, before(i));
        let with_para = st.chunks.push(para);
        assert(parents_precede(with_para)) by {
            assert forall|k: int| 0 <= k < with_para.len() implies (
            #[trigger] with_para[k].parent_index matches Some(p) ==> p < k) by {
                if k < st.chunks.len() {
                    assert(with_para[k] == st.chunks[k]);
                }
            }
        }
        if line.len() > 0 && line[0] == '#' {
            let flushed = if trim(st.text).len() > 0 {
                with_para
            } else {
                st.chunks
            };
            let section = ChunkDataView {
                content: line,
                chunk_type: ChunkType::Section,
                parent_index: None,
                start_line: Some(i),
                end_line: Some(i),
                name: Some(trim(trim_hashes(line))),
            };
            let pushed = flushed.push(section);
            assert(parents_precede(pushed)) by {
                assert forall|k: int| 0 <= k < pushed.len() implies (
                #[trigger] pushed[k].parent_index matches Some(p) ==> p < k) by {
                    if k < flushed.len() {
                        assert(pushed[k] == flushed[k]);
                    }
                }
            }
        }
    }
}

/// In the chunks of a text file, each paragraph's section comes before it.
pub proof fn lemma_text_chunks_parents_precede(content: Seq<char>)
    ensures
        parents_precede(text_chunks(content)),
{
    let ls = lines(content);
    if ls.len() > 0 {
        lemma_text_fold_parents(ls, ls.len() as int);
        let st = text_fold(ls, ls.len() as int);
        let pushed = st.chunks.push(paragraph(st, (ls.len() - 1) as usize));
        assert(parents_precede(pushed)) by {
            assert forall|k: int| 0 <= k < pushed.len() implies (
            #[trigger] pushed[k].parent_index matches Some(p) ==> p < k) by {
                if k < st.chunks.len() {
                    assert(pushed[k] == st.chunks[k]);
                }
            }
        }
        let whole = seq![
            ChunkDataView {
                content,
                chunk_type: ChunkType::File,
                parent_index: None,
                start_line: Some(0),
                end_line: Some((ls.len() - 1) as usize),
                name: None,
            },
        ];
        assert(parents_precede(whole)) by {
            assert forall|k: int| 0 <= k < whole.len() implies (
            #[trigger] whole[k].parent_index matches Some(p) ==> p < k) by {
                assert(whole[k].parent_index is None);
            }
        }
    }
}

/// What holds of the `k`-th of the text chunks `cs` of a text of `n`
/// lines: its parent comes before it and is a section; a section has no
/// parent; it spans the lines `start..=end` of the text; a paragraph is
/// trimmed and not empty.
pub open spec fn text_chunk_sound(cs: Seq<ChunkDataView>, k: int, n: int) -> bool {
    &&& (cs[k].parent_index matches Some(j) ==> j < k && cs[j as int].chunk_type
        == ChunkType::Section)
    &&& (cs[k].chunk_type == ChunkType::Section ==> cs[k].parent_index is None)
    &&& (cs[k].start_line matches Some(st) && cs[k].end_line matches Some(e) && st <= e && e < n)
    &&& (cs[k].chunk_type == ChunkType::Paragraph ==> cs[k].content == trim(cs[k].content)
        && cs[k].content.len() > 0)
}

/// Every chunk of `cs` is sound in a text of `n` lines.
pub open spec fn text_chunks_sound(cs: Seq<ChunkDataView>, n: int) -> bool {
    forall|k: int| 0 <= k < cs.len() ==> #[trigger] text_chunk_sound(cs, k, n)
}

proof fn lemma_sound_push(cs: Seq<ChunkDataView>, c: ChunkDataView, m: int, n: int)
    requires
        text_chunks_sound(cs, m),
        m <= n,
        text_chunk_sound(cs.push(c), cs.len() as int, n),
    ensures
        text_chunks_sound(cs.push(c), n),
{
    let t = cs.push(c);
    assert forall|k: int| 0 <= k < t.len() implies #[trigger] text_chunk_sound(t, k, n) by {
        if k < cs.len() {
            assert(text_chunk_sound(cs, k, m));
            assert(t[k] == cs[k]);
            if let Some(j) = cs[k].parent_index {
                assert(t[j as int] == cs[j as int]);
            }
        }
    }
}

proof fn lemma_text_fold_sound(ls: Seq<Seq<char>>, n: int)
    requires
        0 <= n <= ls.len(),
        ls.len() <= usize::MAX,
    ensures
        text_chunks_sound(text_fold(ls, n).chunks, n),
        text_fold(ls, n).section matches Some(s) ==> s < text_fold(ls, n).chunks.len()
            && text_fold(ls, n).chunks[s as int].chunk_type == ChunkType::Section,
        text_fold(ls, n).start <= n,
        text_fold(ls, n).text.len() > 0 ==> text_fold(ls, n).start < n,
        text_fold(ls, n).chunks.len() + (if text_fold(ls, n).text.len() > 0 {
            1int
        } else {
            0int
        }) <= n,
    decreases n,
{
    if n > 0 {
        lemma_text_fold_sound(ls, n - 1);
        let st = text_fold(ls, n - 1);
        let i = (n - 1) as usize;
        let line = ls[n - 1];
        let para = paragraph(st, before(i));
        lemma_trim_idempotent(st.text);
        lemma_trim_shorter(st.text);
        if trim(st.text).len() > 0 {
            assert(text_chunk_sound(st.chunks.push(para), st.chunks.len() as int, n)) by {
                assert(st.chunks.push(para)[st.chunks.len() as int] == para);
                if let Some(s) = st.section {
                    assert(st.chunks.push(para)[s as int] == st.chunks[s as int]);
                }
            }
            lemma_sound_push(st.chunks, para, n - 1, n);
        }
        if line.len() > 0 && line[0] == '#' {
            let flushed = if trim(st.text).len() > 0 {
                st.chunks.push(para)
            } else {
                st.chunks
            };
            let section = ChunkDataView {
                content: line,
                chunk_type: ChunkType::Section,
                parent_index: None,
                start_line: Some(i),
                end_line: Some(i),
                name: Some(trim(trim_hashes(line))),
            };
            if trim(st.text).len() == 0 {
                assert forall|k: int| 0 <= k < flushed.len() implies #[trigger] text_chunk_sound(
                    flushed,
                    k,
                    n,
                ) by {
                    assert(text_chunk_sound(st.chunks, k, n - 1));
                }
            }
            assert(text_chunk_sound(flushed.push(section), flushed.len() as int, n)) by {
                assert(flushed.push(section)[flushed.len() as int] == section);
            }
            lemma_sound_push(flushed, section, n, n);
            assert(flushed.push(section)[flushed.len() as int] == section);
        } else if trim(line).len() == 0 && trim(st.text).len() > 0 {
            if let Some(s) = st.section {
                assert(st.chunks.push(para)[s as int] == st.chunks[s as int]);
            }
        } else {
            assert forall|k: int| 0 <= k < st.chunks.len() implies #[trigger] text_chunk_sound(
                st.chunks,
                k,
                n,
            ) by {
                assert(text_chunk_sound(st.chunks, k, n - 1));
            }
        }
    }
}

/// The chunks of a text hold together: there are none exactly when the
/// text has no line; a chunk's parent comes before it and is a section; a
/// section has no parent; every chunk spans lines within the text, its
/// first no later than its last; and a paragraph is trimmed and not empty.
pub proof fn lemma_text_chunks_well_formed(content: Seq<char>)
    requires
        lines(content).len() <= usize::MAX,
    ensures
        (text_chunks(content).len() == 0) == (lines(content).len() == 0),
        text_chunks_sound(text_chunks(content), lines(content).len() as int),
{
    let ls = lines(content);
    let n = ls.len() as int;
    if n > 0 {
        lemma_text_fold_sound(ls, n);
        let st = text_fold(ls, n);
        let last = (n - 1) as usize;
        let para = paragraph(st, last);
        lemma_trim_idempotent(st.text);
        lemma_trim_shorter(st.text);
        if trim(st.text).len() > 0 {
            assert(text_chunk_sound(st.chunks.push(para), st.chunks.len() as int, n)) by {
                assert(st.chunks.push(para)[st.chunks.len() as int] == para);
                if let Some(s) = st.section {
                    assert(st.chunks.push(para)[s as int] == st.chunks[s as int]);
                }
            }
            lemma_sound_push(st.chunks, para, n, n);
        }
        let whole = seq![
            ChunkDataView {
                content,
                chunk_type: ChunkType::File,
                parent_index: None,
                start_line: Some(0),
                end_line: Some(last),
                name: None,
            },
        ];
        assert(text_chunks_sound(whole, n)) by {
            assert forall|k: int| 0 <= k < whole.len() implies #[trigger] text_chunk_sound(
                whole,
                k,
                n,
            ) by {
                assert(k == 0);
            }
        }
    }
}

/// The extensions the text chunker takes.
pub open spec fn text_extensions() -> Seq<Seq<char>> {
    seq!["txt"@, "md"@, "rst"@, "adoc"@]
}

impl TextChunker {
    /// A text chunker.
    pub fn new() -> (r: TextChunker) {
        TextChunker
    }
}

fn trim_hashes_chars(s: &[char]) -> (r: Vec<char>)
    ensures
        r@ == trim_hashes(s@),
{
    let mut i: usize = 0;
    assert(s@.subrange(0, s.len() as int) =~= s@);
    while i < s.len() && s[i] == '#'
        invariant
            i <= s.len(),
            trim_hashes(s@) == trim_hashes(s@.subrange(i as int, s.len() as int)),
        decreases s.len() - i,
    {
        assert(s@.subrange(i as int, s.len() as int).drop_first() =~= s@.subrange(
            i + 1,
            s.len() as int,
        ));
        i += 1;
    }
    crate::strings::sub_chars(s, i, s.len())
}

fn paragraph_exec(
    text: &[char],
    section: Option<usize>,
    start: usize,
    end: usize,
    ghost_st: Ghost<TextState>,
) -> (r: ChunkData)
    requires
        ghost_st@.text == text@,
        ghost_st@.section == section,
        ghost_st@.start == start,
    ensures
        r@ == paragraph(ghost_st@, end),
{
    ChunkData {
        content: string_of(&trim_chars(text)),
        chunk_type: ChunkType::Paragraph,
        parent_index: section,
        start_line: Some(start),
        end_line: Some(end),
        name: None,
    }
}

impl Chunker for TextChunker {
    open spec fn extensions(&self) -> Seq<Seq<char>> {
        text_extensions()
    }

    fn supported_extensions(&self) -> (r: Vec<&'static str>) {
        let r = vec!["txt", "md", "rst", "adoc"];
        assert(str_views(r@) =~= text_extensions());
        r
    }

    fn chunk(&self, path: &str, content: &str) -> (r: Vec<ChunkData>)
        ensures
            chunk_views(r@) == text_chunks(content@),
    {
        let c = chars_of(content);
        let ls = lines_of(&c);
        let ghost lsv = views(ls@);
        let mut chunks: Vec<ChunkData> = Vec::new();
        if ls.len() == 0 {
            assert(chunk_views(chunks@) =~= text_chunks(content@));
            return chunks;
        }
        let mut section: Option<usize> = None;
        let mut text: Vec<char> = Vec::new();
        let mut start: usize = 0;
        let mut i: usize = 0;
        while i < ls.len()
            invariant
                i <= ls.len(),
                lsv == views(ls@),
                lsv == lines(content@),
                chunk_views(chunks@) == text_fold(lsv, i as int).chunks,
                section == text_fold(lsv, i as int).section,
                text@ == text_fold(lsv, i as int).text,
                start == text_fold(lsv, i as int).start,
            decreases ls.len() - i,
        {
            let ghost st = text_fold(lsv, i as int);
            let line = &ls[i];
            assert(line@ == lsv[i as int]);
            let prev = if i == 0 {
                0
            } else {
                i - 1
            };
            if line.len() > 0 && line[0] == '#' {
                if !is_blank(&text) {
                    let p = paragraph_exec(&text, section, start, prev, Ghost(st));
                    chunks.push(p);
                }
                let ghost flushed = chunk_views(chunks@);
                let name = trim_chars(&trim_hashes_chars(line));
                let sec = ChunkData {
                    content: string_of(line),
                    chunk_type: ChunkType::Section,
                    parent_index: None,
                    start_line: Some(i),
                    end_line: Some(i),
                    name: Some(string_of(&name)),
                };
                section = Some(chunks.len());
                chunks.push(sec);
                assert(chunk_views(chunks@) =~= flushed.push(sec@));
                text = Vec::new();
                start = i + 1;
            } else if is_blank(line) && !is_blank(&text) {
                let ghost before_chunks = chunk_views(chunks@);
                let p = paragraph_exec(&text, section, start, prev, Ghost(st));
                chunks.push(p);
                assert(chunk_views(chunks@) =~= before_chunks.push(p@));
                text = Vec::new();
                start = i + 1;
            } else {
                extend_chars(&mut text, line);
                text.push('\n');
            }
            proof {
                assert(text_fold(lsv, i + 1) == text_step(st, lsv[i as int], i));
                if line@.len() > 0 && line@[0] == '#' {
                    if trim(st.text).len() > 0 {
                        assert(chunk_views(chunks@).drop_last() =~= st.chunks.push(
                            paragraph(st, before(i)),
                        ));
                    }
                } else if trim(line@).len() == 0 && trim(st.text).len() > 0 {
                } else {
                    assert(text@ =~= st.text + line@ + seq!['\n']);
                }
                assert(chunk_views(chunks@) =~= text_fold(lsv, i + 1).chunks);
            }
            i += 1;
        }
        let ghost st = text_fold(lsv, ls.len() as int);
        let last = ls.len() - 1;
        if !is_blank(&text) {
            let ghost before_chunks = chunk_views(chunks@);
            let p = paragraph_exec(&text, section, start, last, Ghost(st));
            chunks.push(p);
            assert(chunk_views(chunks@) =~= before_chunks.push(p@));
        }
        if chunks.len() == 0 {
            let whole = ChunkData {
                content: string_of(&c),
                chunk_type: ChunkType::File,
                parent_index: None,
                start_line: Some(0),
                end_line: Some(last),
                name: None,
            };
            chunks.push(whole);
            assert(chunk_views(chunks@) =~= seq![whole@]);
        }
        chunks
    }
}

// ---------------------------------------------------------------------------
// Choosing a chunker
// ---------------------------------------------------------------------------
/// The chunker chosen for a file.
pub enum SelectedChunker {
    Text(TextChunker),
    Code(CodeChunker),
}

/// The extensions of other files that are read as text.
pub open spec fn likely_text_extensions() -> Seq<Seq<char>> {
    seq![
        "json"@,
        "yaml"@,
        "yml"@,
        "toml"@,
        "xml"@,
        "html"@,
        "css"@,
        "scss"@,
        "less"@,
        "sql"@,
        "sh"@,
        "bash"@,
        "zsh"@,
        "fish"@,
        "env"@,
        "cfg"@,
        "ini"@,
        "conf"@,
        "csv"@,
        "tsv"@,
        "log"@,
    ]
}

/// Whether the file at `path` is text by its extension, though no
/// chunker takes it.
pub fn is_likely_text(path: &str) -> (r: bool)
    ensures
        r == handles(likely_text_extensions(), path@),
{
    let exts = vec![
        "json",
        "yaml",
        "yml",
        "toml",
        "xml",
        "html",
        "css",
        "scss",
        "less",
        "sql",
        "sh",
        "bash",
        "zsh",
        "fish",
        "env",
        "cfg",
        "ini",
        "conf",
        "csv",
        "tsv",
        "log",
    ];
    assert(str_views(exts@) =~= likely_text_extensions());
    let p = chars_of(path);
    let ext = match extension_of(&p) {
        Some(e) => e,
        None => {
            return false;
        },
    };
    let mut i: usize = 0;
    while i < exts.len()
        invariant
            i <= exts.len(),
            str_views(exts@) == likely_text_extensions(),
            path_extension(path@) == Some(ext@),
            forall|j: int| 0 <= j < i ==> exts@[j]@ != ext@,
        decreases exts.len() - i,
    {
        if chars_eq_str(&ext, exts[i]) {
            assert(likely_text_extensions()[i as int] == ext@);
            return true;
        }
        i += 1;
    }
    assert(!likely_text_extensions().contains(ext@)) by {
        if likely_text_extensions().contains(ext@) {
            let j = choose|j: int|
                0 <= j < likely_text_extensions().len() && likely_text_extensions()[j] == ext@;
            assert(exts@[j]@ == ext@);
        }
    }
    false
}

/// Which chunker takes the file at `path`: the text chunker for text and
/// markdown, the code chunker for source code, the text chunker for other
/// text formats, none for the rest.
pub open spec fn chosen_chunker(path: Seq<char>) -> Option<bool> {
    if handles(text_extensions(), path) {
        Some(true)
    } else if handles(code_extensions(), path) {
        Some(false)
    } else if handles(likely_text_extensions(), path) {
        Some(true)
    } else {
        None
    }
}

/// The chunker for the file at `path`, if any.
pub fn get_chunker(path: &str) -> (r: Option<SelectedChunker>)
    ensures
        match r {
            Some(SelectedChunker::Text(_)) => chosen_chunker(path@) == Some(true),
            Some(SelectedChunker::Code(_)) => chosen_chunker(path@) == Some(false),
            None => chosen_chunker(path@) is None,
        },
{
    let text_chunker = TextChunker::new();
    let code_chunker = CodeChunker::new();
    if text_chunker.can_handle(path) {
        Some(SelectedChunker::Text(text_chunker))
    } else if code_chunker.can_handle(path) {
        Some(SelectedChunker::Code(code_chunker))
    } else if is_likely_text(path) {
        Some(SelectedChunker::Text(text_chunker))
    } else {
        None
    }
}

impl SelectedChunker {
    /// The chunks of `content` as the chosen chunker cuts them.
    pub fn chunk(&self, path: &str, content: &str) -> (r: Vec<ChunkData>)
        ensures
            chunk_views(r@) == match self {
                SelectedChunker::Text(_) => text_chunks(content@),
                SelectedChunker::Code(_) => code_chunks(path@, content@),
            },
            parents_precede(chunk_views(r@)),
    {
        proof {
            lemma_text_chunks_parents_precede(content@);
            crate::code_chunker::lemma_code_chunks_parents_precede(path@, content@);
        }
        match self {
            SelectedChunker::Text(c) => c.chunk(path, content),
            SelectedChunker::Code(c) => c.chunk(path, content),
        }
    }
}

} // verus!
