# smartgrep

Structural code navigation for coding agents: source files are parsed with
tree-sitter into symbols (functions, structs, classes, interfaces, methods,
enums, ...) and dependencies (imports, calls, type references), which are
kept in an index and queried with a small pipeline language:

```
smartgrep query "functions where visibility = public and file contains 'commands/'"
smartgrep query "symbol Index | with deps, refs"
```

The library in `src/` is written in Verus. Its functions carry `requires` /
`ensures` contracts over mathematical models (`Seq`, `Map`, `int`) and are
proved by the verifier; the calls into tree-sitter, sha2, chrono and
serde_json sit behind small trusted wrappers whose contracts say what those
crates promise.

## Layout

- `src/ir/` — symbols, dependencies, kind ranks and name normalisation.
- `src/parser/` — the per-language extractors (Rust, Java, Go, Python,
  TypeScript/TSX) over the node list that tree-sitter lays out, and the
  trusted boundary to tree-sitter in `grammar.rs`.
- `src/index/` — building the index and its lookup tables, the derived
  type-reference dependencies, and when a stored index is stale.
- `src/query/` — the query language: parser, AST, and the pipeline engine
  (sources, `where`, `with`, `sort`, `limit`, batches, text and JSON output).
- `src/commands/` — `ls`, `show`, `deps`, `refs`, `map`, `init`, the query
  log and the skill installer, each as computation on plain values.
- `src/daemon/` — the request protocol and the server's per-request
  decisions.
- `src/format/`, `src/paths.rs`, `src/text.rs`, `src/lang.rs` — output
  formatting, path handling and string utilities.
- `app/` — the command-line program: argument parsing, files, sockets,
  threads and the JSON copies of the library's types. It is ordinary Rust
  and is not verified.
- `tests/` — tests run against the compiled library.

## Laws

Besides each function's contract, `src/` states and proves properties that
span functions, for example: sorting a query's rows is a stable
permutation (`query::engine::lemma_query_sort_stage`), the lookup tables
answer as the scans do (`index::types::lemma_lookups_answer_as_scans`),
running `init` a second time changes nothing
(`commands::init::lemma_second_init_changes_nothing`), and CRLF and LF
sources parse alike (`parser::lemma_crlf_parses_alike`).
