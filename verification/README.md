# renforge

The verified core of RenForge, a tool that translates Ren'Py games: it turns
the extractor's report into workspace rows, carries translations between game
versions, builds the runtime translation file and the game patch, exports
strings as PO/CSV/JSON, and keeps a translation memory. Every function in
`src/` is checked by Verus against its contract.

Layout:

- `src/` — the library, in Verus. `text` and `order` hold the string and
  ordering helpers; `ingest`, `migrate`, `delivery`, `patch`, `fonts`,
  `export`, `string_files`, `audio`, `characters`, `files`, `pairs`,
  `uncovered`, `tm`, `llm` and `headless` hold the project's rules, each with
  its laws as public proof functions; `models` and `templates` hold the shared
  records and the Python templates.
- `tests/` — tests on concrete values, run against the compiled library.
- `app/` — the headless command line and the I/O around the library: SQLite
  workspaces, the file system, the extractor process, HTTP requests.
