# docsearch

A document search service: Markdown documents with a title, author and tags
are stored, indexed by tokens (lower-cased words and CJK bigrams), and found
by queries with free words, quoted phrases and `tag:`, `author:`, `after:`
and `before:` filters. Searches are recorded for history and
autocompletion.

Layout:

- `src/` — the verified library. Each public function states its result in
  its contract; `src/laws.rs` states what holds across operations (the
  store reads back what was written, the index stays in step with the
  store, a written document is found and a deleted one is not).
- `tests/` — tests of the library on concrete values.
- `app/` — the HTTP server: routing, locking, JSON, reading files, and BM25
  scoring, which is floating point.

Markdown bodies are rendered to HTML with `pulldown-cmark` (CommonMark, no
extensions), called from `src/markdown.rs`; the library names the rendering
and states of every document that its `html` is the rendering of its body.
