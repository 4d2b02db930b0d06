use semfs::chunker::Chunker;
use semfs::chunker::TextChunker;
use semfs::types::ChunkType;

#[test]
fn test_markdown_chunking() {
    let content = "# Heading 1\n\nParagraph one.\n\n## Heading 2\n\nParagraph two.\nMore text.";
    let chunker = TextChunker::new();
    let chunks = chunker.chunk("test.md", content);

    assert!(chunks.len() >= 4);
    assert_eq!(chunks[0].chunk_type, ChunkType::Section);
    assert!(chunks[0].name.as_ref().unwrap().contains("Heading 1"));
}

#[test]
fn test_plain_text() {
    let content = "Just some plain text\nwith multiple lines.";
    let chunker = TextChunker::new();
    let chunks = chunker.chunk("test.txt", content);
    assert!(!chunks.is_empty());
}

#[test]
fn test_empty_content() {
    let chunker = TextChunker::new();
    let chunks = chunker.chunk("test.md", "");
    assert!(chunks.is_empty());
}

#[test]
fn test_text_chunker_markdown_hierarchy() {
    let content = r#"# Introduction

This is the introduction.

## Setup

Install the dependencies.

### Prerequisites

You need Rust installed.

## Usage

Run the command.
"#;
    let chunker = TextChunker::new();
    let chunks = chunker.chunk("README.md", content);
    assert!(chunks.len() >= 4, "Expected at least 4 chunks, got {}", chunks.len());
    assert_eq!(chunks[0].chunk_type, ChunkType::Section);
}

#[test]
fn markdown_chunks_exact_structure() {
    let content = "# Heading 1\n\nParagraph one.\n\n## Heading 2\n\nParagraph two.\nMore text.";
    let chunks = TextChunker::new().chunk("test.md", content);
    assert_eq!(chunks.len(), 4);
    assert_eq!(chunks[0].content, "# Heading 1");
    assert_eq!(chunks[0].name.as_deref(), Some("Heading 1"));
    assert_eq!(chunks[0].parent_index, None);
    assert_eq!(chunks[1].chunk_type, ChunkType::Paragraph);
    assert_eq!(chunks[1].content, "Paragraph one.");
    assert_eq!(chunks[1].parent_index, Some(0));
    assert_eq!((chunks[1].start_line, chunks[1].end_line), (Some(1), Some(2)));
    assert_eq!(chunks[2].chunk_type, ChunkType::Section);
    assert_eq!(chunks[2].start_line, Some(4));
    assert_eq!(chunks[3].content, "Paragraph two.\nMore text.");
    assert_eq!(chunks[3].parent_index, Some(2));
    assert_eq!((chunks[3].start_line, chunks[3].end_line), (Some(5), Some(7)));
}

#[test]
fn plain_text_is_one_paragraph() {
    let chunks = TextChunker::new().chunk("a.txt", "Just some plain text\nwith multiple lines.");
    assert_eq!(chunks.len(), 1);
    assert_eq!(chunks[0].chunk_type, ChunkType::Paragraph);
    assert_eq!(chunks[0].parent_index, None);
    assert_eq!(chunks[0].content, "Just some plain text\nwith multiple lines.");
}

#[test]
fn blank_text_is_one_file_chunk() {
    let chunks = TextChunker::new().chunk("a.txt", "  \n\t\n");
    assert_eq!(chunks.len(), 1);
    assert_eq!(chunks[0].chunk_type, ChunkType::File);
    assert_eq!(chunks[0].content, "  \n\t\n");
    assert_eq!(chunks[0].end_line, Some(1));
}

#[test]
fn crlf_lines_are_split() {
    let chunks = TextChunker::new().chunk("a.md", "# T\r\nbody\r\n");
    assert_eq!(chunks.len(), 2);
    assert_eq!(chunks[0].content, "# T");
    assert_eq!(chunks[1].content, "body");
}

#[test]
fn text_chunker_extensions() {
    let c = TextChunker::new();
    assert_eq!(c.supported_extensions(), vec!["txt", "md", "rst", "adoc"]);
    assert!(c.can_handle("/docs/README.md"));
    assert!(!c.can_handle("/src/main.rs"));
    assert!(!c.can_handle("/docs/.md"));
    assert!(!c.can_handle("/docs/notes"));
}

use semfs::code_chunker::fallback_chunk;
use semfs::code_chunker::CodeChunker;
use semfs::chunker::get_chunker;
use semfs::chunker::is_likely_text;
use semfs::chunker::SelectedChunker;

#[test]
fn test_rust_ast_chunking() {
    let content = r#"
use std::io;

pub struct Server {
    port: u16,
}

impl Server {
    pub fn new(port: u16) -> Self {
        Self { port }
    }

    pub fn start(&self) {
        println!("Starting on port {}", self.port);
    }
}

fn main() {
    let config = Server::new(8080);
    config.start();
}
"#;
    let chunker = CodeChunker::new();
    let chunks = chunker.chunk("server.rs", content);
    assert!(!chunks.is_empty(), "Should produce chunks");
    let functions: Vec<_> = chunks.iter().filter(|c| c.chunk_type == ChunkType::Function).collect();
    assert!(functions.len() >= 2, "Should detect at least 2 functions, got {}", functions.len());
    let with_parent: Vec<_> = functions.iter().filter(|f| f.parent_index.is_some()).collect();
    assert!(!with_parent.is_empty(), "Some functions should have parents (inside impl)");
}

#[test]
fn test_python_ast_chunking() {
    let content = r#"
import os

class Server:
    def __init__(self, port):
        self.port = port

    def start(self):
        print(f"Starting on {self.port}")

def main():
    server = Server(8080)
    server.start()
"#;
    let chunker = CodeChunker::new();
    let chunks = chunker.chunk("server.py", content);
    assert!(!chunks.is_empty(), "Should produce chunks");
    let classes: Vec<_> = chunks.iter().filter(|c| c.chunk_type == ChunkType::Class).collect();
    assert!(!classes.is_empty(), "Should detect class");
}

#[test]
fn test_unsupported_extension_fallback() {
    let chunker = CodeChunker::new();
    let chunks = chunker.chunk("script.rb", "def hello\n  puts 'hi'\nend");
    assert!(!chunks.is_empty());
}

#[test]
fn test_empty_file() {
    let chunker = CodeChunker::new();
    let chunks = chunker.chunk("empty.rs", "");
    assert!(chunks.is_empty());
}

#[test]
fn test_kotlin_chunking() {
    let content = r#"
package com.example

class Server {
    private val port: Int
    
    constructor(port: Int) {
        this.port = port
    }
    
    fun start() {
        println("Starting on port $port")
    }
    
    companion object {
        fun create(port: Int): Server = Server(port)
    }
}

object Constants {
    const val DEFAULT_PORT = 8080
}
"#;
    let chunker = CodeChunker::new();
    let chunks = chunker.chunk("server.kt", content);
    assert!(!chunks.is_empty(), "Should produce chunks");
    let classes: Vec<_> = chunks.iter().filter(|c| c.chunk_type == ChunkType::Class).collect();
    assert!(
        classes.len() >= 2,
        "Should detect at least 2 classes (Server and Constants), got {}",
        classes.len()
    );
    let functions: Vec<_> = chunks.iter().filter(|c| c.chunk_type == ChunkType::Function).collect();
    assert!(functions.len() >= 2, "Should detect at least 2 functions, got {}", functions.len());
    let with_parent: Vec<_> = functions.iter().filter(|f| f.parent_index.is_some()).collect();
    assert!(!with_parent.is_empty(), "Some functions should have parents (inside class)");
}

#[test]
fn test_code_chunker_rust_functions() {
    let content = r#"use std::io;

pub struct Config {
    port: u16,
    host: String,
}

impl Config {
    pub fn new(port: u16) -> Self {
        Self { port, host: "localhost".to_string() }
    }

    pub fn address(&self) -> String {
        format!("{}:{}", self.host, self.port)
    }
}

fn main() {
    let config = Config::new(8080);
    println!("{}", config.address());
}
"#;
    let chunker = CodeChunker::new();
    let chunks = chunker.chunk("main.rs", content);
    assert!(chunks.len() >= 3, "Expected at least 3 chunks, got {}", chunks.len());
    let has_function = chunks.iter().any(|c| c.chunk_type == ChunkType::Function);
    assert!(has_function, "Should detect at least one function");
}

#[test]
fn test_code_chunker_python() {
    let content = r#"import os

class Server:
    def __init__(self, port):
        self.port = port

    def start(self):
        print(f"Starting on {self.port}")

def main():
    server = Server(8080)
    server.start()
"#;
    let chunker = CodeChunker::new();
    let chunks = chunker.chunk("server.py", content);
    assert!(chunks.len() >= 2, "Expected at least 2 chunks, got {}", chunks.len());
}

#[test]
fn rust_chunks_have_earlier_parents_and_names() {
    let content = "struct Point { x: i32 }\nimpl Point {\n    fn norm(&self) -> i32 { self.x }\n}\n";
    let chunks = CodeChunker::new().chunk("p.rs", content);
    assert_eq!(chunks[0].chunk_type, ChunkType::Module);
    assert_eq!(chunks[0].content, "");
    assert_eq!(chunks[0].parent_index, None);
    for (i, c) in chunks.iter().enumerate() {
        if let Some(p) = c.parent_index {
            assert!(p < i);
        }
    }
    let f = chunks.iter().find(|c| c.chunk_type == ChunkType::Function).unwrap();
    assert_eq!(f.name.as_deref(), Some("norm"));
    let parent = &chunks[f.parent_index.unwrap()];
    assert_eq!(parent.chunk_type, ChunkType::Class);
    assert_eq!((f.start_line, f.end_line), (Some(2), Some(2)));
}

#[test]
fn fallback_is_the_whole_file() {
    let chunks = fallback_chunk("a\nb\n");
    assert_eq!(chunks.len(), 1);
    assert_eq!(chunks[0].chunk_type, ChunkType::File);
    assert_eq!(chunks[0].content, "a\nb\n");
    assert_eq!((chunks[0].start_line, chunks[0].end_line), (Some(0), Some(1)));
    assert!(fallback_chunk(" \n ").is_empty());
}

#[test]
fn chunker_choice_by_extension() {
    assert!(matches!(get_chunker("notes/a.md"), Some(SelectedChunker::Text(_))));
    assert!(matches!(get_chunker("src/lib.rs"), Some(SelectedChunker::Code(_))));
    assert!(matches!(get_chunker("conf/app.yaml"), Some(SelectedChunker::Text(_))));
    assert!(get_chunker("img/logo.png").is_none());
    assert!(get_chunker("Makefile").is_none());
    assert!(is_likely_text("a/b.log"));
    assert!(!is_likely_text("a/b.bin"));
    let c = CodeChunker::new();
    assert!(c.can_handle("x/y.kts"));
    assert!(!c.can_handle("x/y.md"));
}
