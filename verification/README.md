# codereviewer

A static analyzer for code written by AI assistants. It parses Rust, Python,
TypeScript/TSX, C# and Java with tree-sitter and runs nineteen rules over each
file: masked errors, structural bloat, missing docs, weak unit and integration
tests, over-engineering, unused imports, TODO piles, commented-out code, magic
numbers, hardcoded secrets, paths and URLs, missing input validation,
self-validating tests, un-awaited async calls, N+1 queries, resource leaks,
lost error types and overly defensive fallbacks.

The library is written in Verus. Each rule states, as a specification over the
source text and its syntax tree, exactly which findings it reports, and its
implementation is proved to report those. The reports (text, Markdown), the
report order, the severity filter, baselines, path exclusion and `.gitignore`
patterns are specified and proved the same way.

Layout:

- `src/` — the verified library. `ts.rs` is the only place that calls
  tree-sitter: one trusted wrapper reads tree-sitter's parse out as a table of
  nodes in pre-order, and a verified function builds from it the `SyntaxTree`
  the rules read.
  `rules/` holds one file per rule; `rules.rs` gathers them in the
  `BuiltinRule` enum, in registry order. `analyzer.rs` runs any list of rules
  (any type implementing `Rule`) over a file and sorts findings;
  `reporter.rs` renders reports.
- `app/` — the command line (`check`, `list-rules`, `mcp`): argument parsing,
  reading files and configuration, JSON output and the MCP server.
- `tests/` — tests of the library on concrete sources.
