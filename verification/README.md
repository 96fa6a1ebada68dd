# ctx

A local context engine for TypeScript, JavaScript, CSS and HTML
repositories: it splits source files into chunks, embeds them, keeps chunk
references and symbols per scope (tenant, repository, worktree, branch), and
answers semantic-search and symbol queries over MCP.

## Layout

- `src/` — the verified library (Verus). Chunking (`chunker`), symbol
  extraction (`symbols`), content hashes (`hash`), scopes and their storage
  keys (`scope`), the chunk table's row layout and search filtering
  (`store`), the reference store's clearing plans (`refs`), the per-file
  indexing decisions (`index`), the query filter and status (`query`), the
  MCP tools' computations (`mcp`), language-server framing and symbol
  mapping (`lsp`, `tsserver`), watcher batching (`watch`), paths and
  settings (`paths`, `config`, `embed`).
- `app/` — the program around it: the command line, the LanceDB and redb
  stores, the fastembed embedder, the MCP server, the language-server
  processes and the file watcher. Embedding vectors (floats) live here.
- `tests/` — tests of the library.
