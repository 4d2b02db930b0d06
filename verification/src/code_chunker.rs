//! Cutting source code into chunks along its syntax tree: functions,
//! classes and modules become chunks, each under the chunk of the nearest
//! enclosing one; files in other languages, or that do not parse, become a
//! single chunk.
use vstd::prelude::*;
use crate::chunker::ChunkData;
use crate::chunker::ChunkDataView;
use crate::chunker::Chunker;
use crate::chunker::chunk_views;
use crate::chunker::opt_view;
use crate::chunker::parents_precede;
use crate::chunker::str_views;
use crate::paths::extension_of;
use crate::paths::path_extension;
use crate::strings::chars_eq_str;
use crate::strings::chars_of;
use crate::strings::is_blank;
use crate::strings::lines;
use crate::strings::lines_of;
use crate::strings::string_of;
use crate::strings::trim;
use crate::strings::trim_chars;
use crate::strings::utf8_len;
use crate::strings::utf8_len_below;
use crate::types::ChunkType;

verus! {

/// `tree_sitter::Node`, a node of a parsed syntax tree.
#[verifier::external_type_specification]
#[verifier::external_body]
pub struct ExTreeSitterNode<'tree>(tree_sitter::Node<'tree>);

/// `tree_sitter::Language`, a grammar.
#[verifier::external_type_specification]
#[verifier::external_body]
pub struct ExTreeSitterLanguage(tree_sitter::Language);

/// A grammar the code chunker parses with.
#[derive(Debug, Clone, Copy, PartialEq, Eq, Structural)]
pub enum Grammar {
    Rust,
    Python,
    JavaScript,
    TypeScript,
    Go,
    Java,
    Kotlin,
}

/// A node of a syntax tree, copied out of the parser: its kind, its text
/// (where that is valid UTF-8), its first and last rows, and its children.
pub struct SyntaxNode {
    pub kind: String,
    pub text: Option<String>,
    pub start_row: usize,
    pub end_row: usize,
    pub children: Vec<SyntaxNode>,
}

/// The syntax tree that the grammar `g` gives `source`, or `None` where
/// the parser cannot be set up or gives no tree.
pub uninterp spec fn syntax_tree_of(g: Grammar, source: Seq<char>) -> Option<SyntaxNode>;

/// The tree-sitter grammar of `g`: `tree_sitter_rust::language()` and the
/// like (`language_typescript()` for TypeScript).
#[verifier::external_body]
fn grammar_language(g: Grammar) -> tree_sitter::Language {
    match g {
        Grammar::Rust => tree_sitter_rust::language(),
        Grammar::Python => tree_sitter_python::language(),
        Grammar::JavaScript => tree_sitter_javascript::language(),
        Grammar::TypeScript => tree_sitter_typescript::language_typescript(),
        Grammar::Go => tree_sitter_go::language(),
        Grammar::Java => tree_sitter_java::language(),
        Grammar::Kotlin => tree_sitter_kotlin::language(),
    }
}

/// Copies `node` and all it holds: `Node::kind`, `Node::utf8_text` (`None`
/// where the bytes are no UTF-8), the rows of `start_position` and
/// `end_position`, and `Node::children` in order.
#[verifier::external_body]
fn copy_node(node: tree_sitter::Node, source: &[u8]) -> SyntaxNode {
    let mut children = Vec::new();
    let mut cursor = node.walk();
    for child in node.children(&mut cursor) {
        children.push(copy_node(child, source));
    }
    SyntaxNode {
        kind: node.kind().to_string(),
        text: node.utf8_text(source).ok().map(|t| t.to_string()),
        start_row: node.start_position().row,
        end_row: node.end_position().row,
        children,
    }
}

/// `tree_sitter::Parser::new()`, `set_language` with the grammar of `g`,
/// and `parse(source, None)`, the root copied out. `None` where the
/// language cannot be set or the parse gives no tree. The tree is named.
#[verifier::external_body]
fn parse_syntax(g: Grammar, source: &str) -> (r: Option<SyntaxNode>)
    ensures
        r == syntax_tree_of(g, source@),
{
    let mut parser = tree_sitter::Parser::new();
    parser.set_language(grammar_language(g)).ok()?;
    let tree = parser.parse(source, None)?;
    Some(copy_node(tree.root_node(), source.as_bytes()))
}

/// The grammar for files with extension `ext`.
pub open spec fn grammar_for(ext: Option<Seq<char>>) -> Option<Grammar> {
    match ext {
        Some(e) => if e == "rs"@ {
            Some(Grammar::Rust)
        } else if e == "py"@ {
            Some(Grammar::Python)
        } else if e == "js"@ || e == "jsx"@ {
            Some(Grammar::JavaScript)
        } else if e == "ts"@ || e == "tsx"@ {
            Some(Grammar::TypeScript)
        } else if e == "go"@ {
            Some(Grammar::Go)
        } else if e == "java"@ {
            Some(Grammar::Java)
        } else if e == "kt"@ || e == "kts"@ {
            Some(Grammar::Kotlin)
        } else {
            None
        },
        None => None,
    }
}

/// The chunk type of syntax nodes of kind `kind`: functions and methods,
/// classes and their kin, and whole modules.
pub open spec fn node_chunk_type(kind: Seq<char>) -> Option<ChunkType> {
    if kind == "function_item"@ || kind == "function_definition"@ || kind == "method_definition"@
        || kind == "function_declaration"@ || kind == "method_declaration"@ || kind
        == "arrow_function"@ {
        Some(ChunkType::Function)
    } else if kind == "struct_item"@ || kind == "enum_item"@ || kind == "class_declaration"@
        || kind == "class_definition"@ || kind == "impl_item"@ || kind == "trait_item"@ || kind
        == "interface_declaration"@ || kind == "type_declaration"@ || kind
        == "object_declaration"@ || kind == "companion_object"@ {
        Some(ChunkType::Class)
    } else if kind == "source_file"@ || kind == "module"@ || kind == "program"@ {
        Some(ChunkType::Module)
    } else {
        None
    }
}

/// Whether nodes of kind `kind` name their parent.
pub open spec fn is_name_kind(kind: Seq<char>) -> bool {
    kind == "identifier"@ || kind == "name"@ || kind == "type_identifier"@ || kind
        == "field_identifier"@ || kind == "property_identifier"@
}

/// The name of a node: the text of its first child that is a name, if
/// any (`None` too where that text is no UTF-8).
pub open spec fn first_name(cs: Seq<SyntaxNode>) -> Option<Seq<char>>
    decreases cs.len(),
{
    if cs.len() == 0 {
        None
    } else if is_name_kind(cs[0].kind@) {
        opt_view(cs[0].text)
    } else {
        first_name(cs.drop_first())
    }
}

/// The text of a node, or nothing where it is no UTF-8.
pub open spec fn node_text(n: SyntaxNode) -> Seq<char> {
    match n.text {
        Some(t) => t@,
        None => seq![],
    }
}

/// The chunks after walking `node` with `parent` as the chunk it lies in,
/// `acc` being the chunks so far: a node of a chunk kind becomes a chunk
/// (a module keeps no text of its own) and the chunk its children lie in;
/// a function or class whose trimmed text has fewer than five bytes is
/// skipped with all it holds; other nodes pass their parent on.
pub open spec fn walk(node: SyntaxNode, parent: Option<usize>, acc: Seq<ChunkDataView>) -> Seq<
    ChunkDataView,
>
    decreases node, 1int,
{
    match node_chunk_type(node.kind@) {
        Some(t) => {
            let content = if t == ChunkType::Module {
                seq![]
            } else {
                node_text(node)
            };
            if utf8_len(trim(content)) < 5 && t != ChunkType::Module {
                acc
            } else {
                let chunk = ChunkDataView {
                    content,
                    chunk_type: t,
                    parent_index: parent,
                    start_line: Some(node.start_row),
                    end_line: Some(node.end_row),
                    name: first_name(node.children@),
                };
                walk_children(node.children@, Some(acc.len() as usize), acc.push(chunk))
            }
        },
        None => walk_children(node.children@, parent, acc),
    }
}

/// The chunks after walking the nodes `cs` in order.
pub open spec fn walk_children(cs: Seq<SyntaxNode>, parent: Option<usize>, acc: Seq<ChunkDataView>) -> Seq<
    ChunkDataView,
>
    decreases cs, 0int,
{
    if cs.len() == 0 {
        acc
    } else {
        walk(cs.last(), parent, walk_children(cs.drop_last(), parent, acc))
    }
}

/// The single chunk of a file that is not cut along a syntax tree: the
/// whole text, or nothing for blank text.
pub open spec fn fallback_chunks(content: Seq<char>) -> Seq<ChunkDataView> {
    if trim(content).len() == 0 {
        seq![]
    } else {
        seq![
            ChunkDataView {
                content,
                chunk_type: ChunkType::File,
                parent_index: None,
                start_line: Some(0),
                end_line: Some(
                    if lines(content).len() == 0 {
                        0
                    } else {
                        (lines(content).len() - 1) as usize
                    },
                ),
                name: None,
            },
        ]
    }
}

/// The chunks of the source file `content` at `path`: nothing for blank
/// text; the chunks of its syntax tree where its extension has a grammar
/// and the tree yields any; else the whole file as one chunk.
pub open spec fn code_chunks(path: Seq<char>, content: Seq<char>) -> Seq<ChunkDataView> {
    if trim(content).len() == 0 {
        seq![]
    } else {
        match grammar_for(path_extension(path)) {
            Some(g) => match syntax_tree_of(g, content) {
                Some(root) => {
                    let w = walk(root, None, seq![]);
                    if w.len() == 0 {
                        fallback_chunks(content)
                    } else {
                        w
                    }
                },
                None => fallback_chunks(content),
            },
            None => fallback_chunks(content),
        }
    }
}

/// The extensions the code chunker takes.
pub open spec fn code_extensions() -> Seq<Seq<char>> {
    seq!["rs"@, "py"@, "js"@, "jsx"@, "ts"@, "tsx"@, "go"@, "java"@, "kt"@, "kts"@]
}

/// Chunks source code along its syntax tree.
pub struct CodeChunker;

impl CodeChunker {
    /// A code chunker.
    pub fn new() -> (r: CodeChunker) {
        CodeChunker
    }
}

impl Default for CodeChunker {
    fn default() -> (r: CodeChunker) {
        CodeChunker::new()
    }
}

fn grammar_for_exec(ext: &Option<Vec<char>>) -> (r: Option<Grammar>)
    ensures
        r == grammar_for(match ext {
            Some(e) => Some(e@),
            None => None,
        }),
{
    match ext {
        Some(e) => {
            if chars_eq_str(e, "rs") {
                Some(Grammar::Rust)
            } else if chars_eq_str(e, "py") {
                Some(Grammar::Python)
            } else if chars_eq_str(e, "js") || chars_eq_str(e, "jsx") {
                Some(Grammar::JavaScript)
            } else if chars_eq_str(e, "ts") || chars_eq_str(e, "tsx") {
                Some(Grammar::TypeScript)
            } else if chars_eq_str(e, "go") {
                Some(Grammar::Go)
            } else if chars_eq_str(e, "java") {
                Some(Grammar::Java)
            } else if chars_eq_str(e, "kt") || chars_eq_str(e, "kts") {
                Some(Grammar::Kotlin)
            } else {
                None
            }
        },
        None => None,
    }
}

fn node_chunk_type_exec(kind: &str) -> (r: Option<ChunkType>)
    ensures
        r == node_chunk_type(kind@),
{
    let k = chars_of(kind);
    if chars_eq_str(&k, "function_item") || chars_eq_str(&k, "function_definition")
        || chars_eq_str(&k, "method_definition") || chars_eq_str(&k, "function_declaration")
        || chars_eq_str(&k, "method_declaration") || chars_eq_str(&k, "arrow_function") {
        Some(ChunkType::Function)
    } else if chars_eq_str(&k, "struct_item") || chars_eq_str(&k, "enum_item") || chars_eq_str(
        &k,
        "class_declaration",
    ) || chars_eq_str(&k, "class_definition") || chars_eq_str(&k, "impl_item") || chars_eq_str(
        &k,
        "trait_item",
    ) || chars_eq_str(&k, "interface_declaration") || chars_eq_str(&k, "type_declaration")
        || chars_eq_str(&k, "object_declaration") || chars_eq_str(&k, "companion_object") {
        Some(ChunkType::Class)
    } else if chars_eq_str(&k, "source_file") || chars_eq_str(&k, "module") || chars_eq_str(
        &k,
        "program",
    ) {
        Some(ChunkType::Module)
    } else {
        None
    }
}

fn is_name_kind_exec(kind: &str) -> (r: bool)
    ensures
        r == is_name_kind(kind@),
{
    let k = chars_of(kind);
    chars_eq_str(&k, "identifier") || chars_eq_str(&k, "name") || chars_eq_str(
        &k,
        "type_identifier",
    ) || chars_eq_str(&k, "field_identifier") || chars_eq_str(&k, "property_identifier")
}

fn copy_opt_string(s: &Option<String>) -> (r: Option<String>)
    ensures
        opt_view(r) == opt_view(*s),
{
    match s {
        Some(t) => Some(t.clone()),
        None => None,
    }
}

/// The name of a node: the text of its first child that is a name.
fn extract_node_name(node: &SyntaxNode) -> (r: Option<String>)
    ensures
        opt_view(r) == first_name(node.children@),
{
    let cs = &node.children;
    let mut i: usize = 0;
    assert(cs@.skip(0) =~= cs@);
    while i < cs.len()
        invariant
            i <= cs@.len(),
            cs@ == node.children@,
            first_name(cs@) == first_name(cs@.skip(i as int)),
        decreases cs@.len() - i,
    {
        assert(cs@.skip(i as int)[0] == cs@[i as int]);
        if is_name_kind_exec(cs[i].kind.as_str()) {
            assert(first_name(cs@.skip(i as int)) == opt_view(cs@[i as int].text));
            return copy_opt_string(&cs[i].text);
        }
        assert(cs@.skip(i as int).drop_first() =~= cs@.skip(i + 1));
        i += 1;
    }
    None
}

fn walk_tree(node: &SyntaxNode, parent: Option<usize>, chunks: &mut Vec<ChunkData>)
    ensures
        chunk_views(final(chunks)@) == walk(*node, parent, chunk_views(old(chunks)@)),
    decreases node,
{
    let ghost acc = chunk_views(chunks@);
    let kind = node_chunk_type_exec(node.kind.as_str());
    let next_parent = match kind {
        Some(t) => {
            let content: String = if t == ChunkType::Module {
                String::new()
            } else {
                match &node.text {
                    Some(s) => s.clone(),
                    None => String::new(),
                }
            };
            assert(t != ChunkType::Module ==> content@ == node_text(*node));
            let trimmed = trim_chars(&chars_of(content.as_str()));
            if utf8_len_below(&trimmed, 5) && t != ChunkType::Module {
                assert(walk(*node, parent, acc) == acc);
                return;
            }
            let index = chunks.len();
            let chunk = ChunkData {
                content,
                chunk_type: t,
                parent_index: parent,
                start_line: Some(node.start_row),
                end_line: Some(node.end_row),
                name: extract_node_name(node),
            };
            chunks.push(chunk);
            assert(chunk_views(chunks@) =~= acc.push(chunk@));
            Some(index)
        },
        None => parent,
    };
    let ghost start = chunk_views(chunks@);
    let cs = &node.children;
    let mut i: usize = 0;
    assert(cs@.take(0) =~= Seq::<SyntaxNode>::empty());
    while i < cs.len()
        invariant
            i <= cs@.len(),
            cs == &node.children,
            chunk_views(chunks@) == walk_children(cs@.take(i as int), next_parent, start),
        decreases cs@.len() - i,
    {
        let ghost t = cs@.take(i + 1);
        assert(t.drop_last() =~= cs@.take(i as int));
        assert(t.last() == cs@[i as int]);
        assert(decreases_to!(*node => node.children@[i as int]));
        walk_tree(&cs[i], next_parent, chunks);
        i += 1;
    }
    assert(cs@.take(cs@.len() as int) =~= cs@);
}

/// The whole of a file as one chunk, or nothing for blank text.
pub fn fallback_chunk(content: &str) -> (r: Vec<ChunkData>)
    ensures
        chunk_views(r@) == fallback_chunks(content@),
{
    let c = chars_of(content);
    if is_blank(&c) {
        let r: Vec<ChunkData> = Vec::new();
        assert(chunk_views(r@) =~= fallback_chunks(content@));
        return r;
    }
    let ls = lines_of(&c);
    let last = if ls.len() == 0 {
        0
    } else {
        ls.len() - 1
    };
    let whole = ChunkData {
        content: string_of(&c),
        chunk_type: ChunkType::File,
        parent_index: None,
        start_line: Some(0),
        end_line: Some(last),
        name: None,
    };
    let r = vec![whole];
    assert(chunk_views(r@) =~= fallback_chunks(content@));
    r
}

impl Chunker for CodeChunker {
    open spec fn extensions(&self) -> Seq<Seq<char>> {
        code_extensions()
    }

    fn supported_extensions(&self) -> (r: Vec<&'static str>) {
        let r = vec!["rs", "py", "js", "jsx", "ts", "tsx", "go", "java", "kt", "kts"];
        assert(str_views(r@) =~= code_extensions());
        r
    }

    fn chunk(&self, path: &str, content: &str) -> (r: Vec<ChunkData>)
        ensures
            chunk_views(r@) == code_chunks(path@, content@),
    {
        let c = chars_of(content);
        if is_blank(&c) {
            let r: Vec<ChunkData> = Vec::new();
            assert(chunk_views(r@) =~= code_chunks(path@, content@));
            return r;
        }
        let ext = extension_of(&chars_of(path));
        let grammar = match grammar_for_exec(&ext) {
            Some(g) => g,
            None => {
                return fallback_chunk(content);
            },
        };
        let root = match parse_syntax(grammar, content) {
            Some(root) => root,
            None => {
                return fallback_chunk(content);
            },
        };
        let mut chunks: Vec<ChunkData> = Vec::new();
        assert(chunk_views(chunks@) =~= Seq::<ChunkDataView>::empty());
        walk_tree(&root, None, &mut chunks);
        if chunks.len() == 0 {
            return fallback_chunk(content);
        }
        chunks
    }
}


proof fn lemma_walk_parents(node: SyntaxNode, parent: Option<usize>, acc: Seq<ChunkDataView>)
    requires
        parents_precede(acc),
        parent matches Some(p) ==> p < acc.len(),
    ensures
        parents_precede(walk(node, parent, acc)),
        acc.len() <= walk(node, parent, acc).len(),
    decreases node, 1int,
{
    match node_chunk_type(node.kind@) {
        Some(t) => {
            let content = if t == ChunkType::Module {
                seq![]
            } else {
                node_text(node)
            };
            if !(utf8_len(trim(content)) < 5 && t != ChunkType::Module) {
                let chunk = ChunkDataView {
                    content,
                    chunk_type: t,
                    parent_index: parent,
                    start_line: Some(node.start_row),
                    end_line: Some(node.end_row),
                    name: first_name(node.children@),
                };
                let pushed = acc.push(chunk);
                assert(parents_precede(pushed)) by {
                    assert forall|i: int| 0 <= i < pushed.len() implies (
                    #[trigger] pushed[i].parent_index matches Some(p) ==> p < i) by {
                        if i < acc.len() {
                            assert(pushed[i] == acc[i]);
                        }
                    }
                }
                lemma_walk_children_parents(node.children@, Some(acc.len() as usize), pushed);
            }
        },
        None => {
            lemma_walk_children_parents(node.children@, parent, acc);
        },
    }
}

proof fn lemma_walk_children_parents(
    cs: Seq<SyntaxNode>,
    parent: Option<usize>,
    acc: Seq<ChunkDataView>,
)
    requires
        parents_precede(acc),
        parent matches Some(p) ==> p < acc.len(),
    ensures
        parents_precede(walk_children(cs, parent, acc)),
        acc.len() <= walk_children(cs, parent, acc).len(),
    decreases cs, 0int,
{
    if cs.len() > 0 {
        lemma_walk_children_parents(cs.drop_last(), parent, acc);
        lemma_walk_parents(cs.last(), parent, walk_children(cs.drop_last(), parent, acc));
    }
}

/// In the chunks of a source file, each chunk's parent comes before it.
pub proof fn lemma_code_chunks_parents_precede(path: Seq<char>, content: Seq<char>)
    ensures
        parents_precede(code_chunks(path, content)),
{
    if trim(content).len() > 0 {
        if let Some(g) = grammar_for(path_extension(path)) {
            if let Some(root) = syntax_tree_of(g, content) {
                lemma_walk_parents(root, None, seq![]);
            }
        }
    }
}

proof fn lemma_walk_extends(node: SyntaxNode, parent: Option<usize>, acc: Seq<ChunkDataView>)
    ensures
        acc.len() <= walk(node, parent, acc).len(),
        walk(node, parent, acc).take(acc.len() as int) == acc,
    decreases node, 1int,
{
    match node_chunk_type(node.kind@) {
        Some(t) => {
            let content = if t == ChunkType::Module {
                seq![]
            } else {
                node_text(node)
            };
            if !(utf8_len(trim(content)) < 5 && t != ChunkType::Module) {
                let chunk = ChunkDataView {
                    content,
                    chunk_type: t,
                    parent_index: parent,
                    start_line: Some(node.start_row),
                    end_line: Some(node.end_row),
                    name: first_name(node.children@),
                };
                let pushed = acc.push(chunk);
                lemma_walk_children_extends(node.children@, Some(acc.len() as usize), pushed);
                let w = walk(node, parent, acc);
                assert(w.take(acc.len() as int) =~= w.take(pushed.len() as int).take(acc.len() as int));
                assert(pushed.take(acc.len() as int) =~= acc);
            } else {
                assert(acc.take(acc.len() as int) =~= acc);
            }
        },
        None => {
            lemma_walk_children_extends(node.children@, parent, acc);
        },
    }
}

proof fn lemma_walk_children_extends(cs: Seq<SyntaxNode>, parent: Option<usize>, acc: Seq<ChunkDataView>)
    ensures
        acc.len() <= walk_children(cs, parent, acc).len(),
        walk_children(cs, parent, acc).take(acc.len() as int) == acc,
    decreases cs, 0int,
{
    if cs.len() > 0 {
        lemma_walk_children_extends(cs.drop_last(), parent, acc);
        let mid = walk_children(cs.drop_last(), parent, acc);
        lemma_walk_extends(cs.last(), parent, mid);
        let w = walk_children(cs, parent, acc);
        assert(w.take(acc.len() as int) =~= w.take(mid.len() as int).take(acc.len() as int));
    } else {
        assert(acc.take(acc.len() as int) =~= acc);
    }
}

proof fn lemma_chunk_kind_becomes_chunk(
    node: SyntaxNode,
    parent: Option<usize>,
    acc: Seq<ChunkDataView>,
    t: ChunkType,
)
    requires
        node_chunk_type(node.kind@) == Some(t),
        t != ChunkType::Module,
        utf8_len(trim(node_text(node))) >= 5,
    ensures
        walk(node, parent, acc).len() > acc.len(),
        walk(node, parent, acc)[acc.len() as int] == (ChunkDataView {
            content: node_text(node),
            chunk_type: t,
            parent_index: parent,
            start_line: Some(node.start_row),
            end_line: Some(node.end_row),
            name: first_name(node.children@),
        }),
{
    let chunk = ChunkDataView {
        content: node_text(node),
        chunk_type: t,
        parent_index: parent,
        start_line: Some(node.start_row),
        end_line: Some(node.end_row),
        name: first_name(node.children@),
    };
    let pushed = acc.push(chunk);
    lemma_walk_children_extends(node.children@, Some(acc.len() as usize), pushed);
    let w = walk(node, parent, acc);
    assert(w.take(pushed.len() as int)[acc.len() as int] == w[acc.len() as int]);
}

/// A function or method in the syntax tree becomes a chunk of type
/// `Function`: a node of any of the function kinds of the supported
/// grammars (Rust `function_item`, Python `function_definition`,
/// JavaScript and TypeScript `method_definition`, `function_declaration`
/// and `arrow_function`, Go and Java `method_declaration`) whose trimmed
/// text has at least five bytes gives, next in line, a chunk of its text
/// and lines under the chunk it lies in.
pub proof fn lemma_function_nodes_become_chunks(
    node: SyntaxNode,
    parent: Option<usize>,
    acc: Seq<ChunkDataView>,
)
    requires
        node.kind@ == "function_item"@ || node.kind@ == "function_definition"@ || node.kind@
            == "method_definition"@ || node.kind@ == "function_declaration"@ || node.kind@
            == "method_declaration"@ || node.kind@ == "arrow_function"@,
        utf8_len(trim(node_text(node))) >= 5,
    ensures
        walk(node, parent, acc).len() > acc.len(),
        walk(node, parent, acc)[acc.len() as int].chunk_type == ChunkType::Function,
        walk(node, parent, acc)[acc.len() as int].content == node_text(node),
        walk(node, parent, acc)[acc.len() as int].parent_index == parent,
        walk(node, parent, acc)[acc.len() as int].start_line == Some(node.start_row),
        walk(node, parent, acc)[acc.len() as int].end_line == Some(node.end_row),
{
    lemma_chunk_kind_becomes_chunk(node, parent, acc, ChunkType::Function);
}

/// A type definition in the syntax tree becomes a chunk of type `Class`:
/// Rust structs, enums, impls and traits, Python class definitions, and
/// the class, interface, type and object declarations of the other
/// grammars, where the trimmed text has at least five bytes.
pub proof fn lemma_type_nodes_become_chunks(node: SyntaxNode, parent: Option<usize>, acc: Seq<ChunkDataView>)
    requires
        node.kind@ == "struct_item"@ || node.kind@ == "enum_item"@ || node.kind@
            == "class_declaration"@ || node.kind@ == "class_definition"@ || node.kind@
            == "impl_item"@ || node.kind@ == "trait_item"@ || node.kind@
            == "interface_declaration"@ || node.kind@ == "type_declaration"@ || node.kind@
            == "object_declaration"@ || node.kind@ == "companion_object"@,
        utf8_len(trim(node_text(node))) >= 5,
    ensures
        walk(node, parent, acc).len() > acc.len(),
        walk(node, parent, acc)[acc.len() as int].chunk_type == ChunkType::Class,
        walk(node, parent, acc)[acc.len() as int].content == node_text(node),
        walk(node, parent, acc)[acc.len() as int].parent_index == parent,
{
    reveal_strlit("function_item");
    reveal_strlit("function_definition");
    reveal_strlit("method_definition");
    reveal_strlit("function_declaration");
    reveal_strlit("method_declaration");
    reveal_strlit("arrow_function");
    reveal_strlit("struct_item");
    reveal_strlit("enum_item");
    reveal_strlit("class_declaration");
    reveal_strlit("class_definition");
    reveal_strlit("impl_item");
    reveal_strlit("trait_item");
    reveal_strlit("interface_declaration");
    reveal_strlit("type_declaration");
    reveal_strlit("object_declaration");
    reveal_strlit("companion_object");
    let k = node.kind@;
    assert(k.len() > 0 && k[0] != 'f' && k[0] != 'm' && k[0] != 'a');
    assert(k != "function_item"@) by {
        if k == "function_item"@ {
            assert(k[0] == "function_item"@[0]);
        }
    }
    assert(k != "function_definition"@) by {
        if k == "function_definition"@ {
            assert(k[0] == "function_definition"@[0]);
        }
    }
    assert(k != "method_definition"@) by {
        if k == "method_definition"@ {
            assert(k[0] == "method_definition"@[0]);
        }
    }
    assert(k != "function_declaration"@) by {
        if k == "function_declaration"@ {
            assert(k[0] == "function_declaration"@[0]);
        }
    }
    assert(k != "method_declaration"@) by {
        if k == "method_declaration"@ {
            assert(k[0] == "method_declaration"@[0]);
        }
    }
    assert(k != "arrow_function"@) by {
        if k == "arrow_function"@ {
            assert(k[0] == "arrow_function"@[0]);
        }
    }
    assert(node_chunk_type(node.kind@) == Some(ChunkType::Class));
    lemma_chunk_kind_becomes_chunk(node, parent, acc, ChunkType::Class);
}

} // verus!
