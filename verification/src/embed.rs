//! The choice of embedding model and the embedder that embeds nothing,
//! used when no model is available and search falls back to keywords.
use vstd::prelude::*;

verus! {

/// Where embeddings come from.
#[derive(Debug, Clone, PartialEq, Eq)]
pub enum EmbedderProvider {
    /// An Ollama server, with the model's name.
    Ollama(String),
    /// An ONNX model, with the model file's path.
    Onnx(String),
    /// No model: keyword search only.
    Noop,
}

/// The embedder without a model: every text gets an empty vector.
#[derive(Debug)]
pub struct NoopEmbedder;

impl NoopEmbedder {
    /// The embedder without a model.
    pub fn new() -> (r: NoopEmbedder) {
        NoopEmbedder
    }

    /// Whether this embedder embeds nothing: always.
    pub fn is_noop(&self) -> (r: bool)
        ensures
            r,
    {
        true
    }

    /// The length of its vectors: none.
    pub fn dimensions(&self) -> (r: usize)
        ensures
            r == 0,
    {
        0
    }

    /// Its model's name, `"noop"`.
    pub fn model_name(&self) -> (r: &'static str)
        ensures
            r@ == "noop"@,
    {
        "noop"
    }
}

impl Default for NoopEmbedder {
    fn default() -> (r: NoopEmbedder) {
        NoopEmbedder::new()
    }
}

/// The length of the vectors of an Ollama model, by its name: the known
/// models, else 768.
pub open spec fn ollama_dims(model: Seq<char>) -> usize {
    if model == "multilingual-e5-base"@ || model == "nomic-embed-text"@ {
        768
    } else if model == "all-minilm"@ {
        384
    } else if model == "mxbai-embed-large"@ {
        1024
    } else {
        768
    }
}

/// The length of the vectors of the Ollama model `model`.
pub fn ollama_dimensions(model: &str) -> (r: usize)
    ensures
        r == ollama_dims(model@),
{
    let m = crate::strings::chars_of(model);
    if crate::strings::chars_eq_str(&m, "multilingual-e5-base") || crate::strings::chars_eq_str(
        &m,
        "nomic-embed-text",
    ) {
        768
    } else if crate::strings::chars_eq_str(&m, "all-minilm") {
        384
    } else if crate::strings::chars_eq_str(&m, "mxbai-embed-large") {
        1024
    } else {
        768
    }
}

/// The token of a character for the ONNX model: its code point modulo
/// 30000, plus 100.
pub open spec fn char_token(c: char) -> i64 {
    ((c as u32) % 30000 + 100) as i64
}

/// The tokens of `text` for the ONNX model: `[CLS]` (101), one token per
/// character of its first 510, `[SEP]` (102).
pub open spec fn onnx_tokens(text: Seq<char>) -> Seq<i64> {
    let n = if text.len() < 510 {
        text.len() as int
    } else {
        510
    };
    seq![101i64] + text.take(n).map_values(|c: char| char_token(c)) + seq![102i64]
}

/// The tokens of `text` for the ONNX model.
pub fn onnx_token_ids(text: &str) -> (r: Vec<i64>)
    ensures
        r@ == onnx_tokens(text@),
{
    let c = crate::strings::chars_of(text);
    let n = if c.len() < 510 {
        c.len()
    } else {
        510
    };
    let mut ids: Vec<i64> = vec![101];
    let mut i: usize = 0;
    while i < n
        invariant
            i <= n <= c@.len(),
            c@ == text@,
            n == if c@.len() < 510 { c@.len() as int } else { 510 },
            ids@ =~= seq![101i64] + c@.take(i as int).map_values(|ch: char| char_token(ch)),
        decreases n - i,
    {
        let ch = c[i];
        proof {
            vstd::utf8::char_is_scalar(ch);
        }
        let code = ch as u32;
        let t: i64 = (code % 30000) as i64 + 100;
        assert(t == char_token(c@[i as int]));
        ids.push(t);
        assert(c@.take(i + 1) =~= c@.take(i as int).push(c@[i as int]));
        i += 1;
    }
    ids.push(102);
    ids
}

} // verus!
