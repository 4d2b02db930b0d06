# semfs

A semantic view of a directory tree: directories are natural-language
queries ("2024년에 작성한 TypeScript 파일"), and listing one lists the files
that match. Files are indexed in SQLite (metadata, full text, chunks), code is
cut into functions and classes along its syntax tree, documents into sections
and paragraphs, and writes to real files go through a write-ahead log.

## Layout

- `src/` — the library, verified with Verus. Each public function states
  its result in `ensures`; the laws of the library are public proof
  functions (`lemma_*`).
  - `query` — the query parser (date, extension and sort filters).
  - `chunker`, `code_chunker` — text and syntax-tree chunking.
  - `crawler`, `indexing` — which files to index, whether a file must be
    indexed again (its content hash), and how it is stored with its chunks.
  - `db`, `store`, `wal` — the SQLite stores and the write-ahead log.
  - `cache` — the LRU result cache and the time-to-live query cache.
  - `ranking` — filtering, cutting and stably ordering search results.
  - `events`, `vfs`, `inodes`, `mount` — the watcher's debouncer, crash
    recovery, the inode table of the mounted view.
  - `strings`, `numbers`, `paths`, `types`, `errors`, `config`, `embed` —
    shared pieces.
- `app/` — the `semfs` command-line tool: file and network I/O, threads, the
  FUSE file system, the embedders and vector search (float vectors).
- `tests/` — tests of the library.
