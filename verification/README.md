# recall

A semantic document retrieval engine: documents are split into word
windows, each window is embedded by an embedding service, and the vectors
are kept in a store with their metadata. Questions are embedded the same
way and answered with the stored chunks most similar to them.

Layout:

- `src/` — the library, written in Verus with its contracts and proofs:
  tokenizing and chunking (`tokenizer`, `chunker`, `text`), metadata maps and
  filters (`metadata`, `filter`), the vector store (`database`), ranking of
  scored hits (`ranking`), search options, minimum score and diagnostics
  (`retrieval`), indexing (`pipeline`, `engine`), evaluation tallies
  (`evaluation`), and the values of the HTTP interface (`api`).
  Floating-point numbers are held as their IEEE-754 bit patterns and
  compared with the float operators' semantics (`ieee`).
- `app/` — the command-line program and the HTTP interface: file and network
  access, JSON, and the cosine similarity that scores stored vectors.
- `tests/` — tests of the library.

The HTTP interface serves `GET /health`, `GET` and `POST /documents`,
`DELETE /documents/{document_id}` and `POST /search`. A document is indexed
whole, from its text; there is no route that takes it page by page.
