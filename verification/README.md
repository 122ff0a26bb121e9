# firm_lang

Diagnostics, workspace bookkeeping and editor completions for the Firm DSL,
verified with Verus.

- `src/syntax_tree.rs`: a plain model of a concrete syntax tree (node kinds,
  ERROR/MISSING flags, byte ranges, positions) and the well-formedness that ties
  its byte ranges and row/column positions to its source text.
- `src/parsed.rs`: a parsed file and views of its entity, field and schema blocks.
- `src/diagnostics.rs`, `src/syntax.rs`: diagnostic values and the syntax check.
- `src/workspace.rs`: files held by path.
- `src/workspace_diagnostics.rs`: value, schema and reference diagnostics, given
  what the core model makes of each block.
- `src/check.rs`: the check command's decisions.
- `src/completion.rs`, `src/text.rs`: completions and the byte-level helpers they use.
- `app/`: conversion from tree-sitter trees, LSP completion items, file loading
  and printing.
