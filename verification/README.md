# standarx-dsl

Lexer, parser and syntax tree for the `standar*` configuration DSL
(`.sxb` / `.sxd` files: nested blocks, lists, maps, scalar literals and
interpolated strings), with editor support: byte offsets to editor
positions, editor diagnostics, schema hooks and the grammar description
that editor grammar files are built from.

The library under `src/` is verified with Verus. The meaning of the
lexer and of the parser is written as spec functions over the source
bytes (`lexer_spec.rs`, `parser_spec.rs`); `tokenize`, `parse` and
`parse_with_recovery` are proved to compute exactly that meaning, and
the laws in `lib.rs`, `conversion.rs` and `grammar.rs` state what holds
across functions (recovery agrees with fail-fast parsing, every
diagnostic is a parse error whose span covers whole characters of the
source, offsets past the end clamp, the grammar's constants are the
lexer's reserved words, every inner scope ends with the language slug,
...).

| Module | Contents |
|---|---|
| `diag` | spans, severities, diagnostics |
| `text` | UTF-8 facts and the standard-library conversions the lexer uses |
| `ast` | the syntax tree and its mathematical views |
| `lexer_spec`, `lexer` | the lexer's meaning and the lexer |
| `parser_spec`, `parser` | the parser's meaning and the parser, with recovery |
| `conversion` | byte offsets to line / UTF-16 column positions |
| `schema`, `lsp` | schema hooks and editor diagnostics |
| `grammar` | the surface-syntax description for editor grammars |
| `json`, `textmate`, `lang_config` | the TextMate grammar and the language configuration, as JSON values |

`app/` holds what Verus does not see: the tower-lsp server over stdio,
serde-serialisable copies of the tree, and the grammar generator that
writes the JSON documents to disk.
