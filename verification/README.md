# kdl

KDL documents, KDL queries and KDL schema validation, with every function of
the library verified by Verus against a mathematical statement of what it
computes.

## What it does

- `KdlDocument::parse` reads a KDL 2 document (`parser`: the grammar as spec
  functions on characters, and the reader proved to follow it), multi-line
  strings included (`multiline`: indentation, line breaks and escapes).
- `KdlDocument::to_formatted_string` writes a document in a uniform layout
  (`format`).
- `query_parser::parse_query` reads KDL queries and `KdlDocument::query`
  selects the first matching node (`query`).
- `schema::KdlSchema` validates documents against schemas in their first form
  (`node`, `prop`, `value`, `min`/`max`, `other-*-allowed`, `ref=`).
- `schema_v2::KdlSchemaV2` validates against schemas in their second form
  (`required`/`repeatable`, `arg`/`args`, `prop`/`props`, `children`,
  `one-of`, `disallow`, `undefine`, `deprecated`, `annotations`, `ref` by KDL
  query or `id=`), and reads the `@ksl:schema` directives of a document.
- `config::config_mappings` reads the glob-to-schema mappings of a workspace
  configuration; `workspace::schema_source_for` decides which schema applies
  to a document open in an editor (its directives first, then the first
  matching mapping of the workspaces; glob patterns beyond 1024 characters or
  64 `{` match nothing); `tracking::SchemaIndex` keeps which schema each open
  document uses and which documents each schema serves, the two sides proved
  to agree; and `position::char_to_position` gives the line and column of a
  character in an editor's text.

Each validator is stated in a `rules` module as the sequence of diagnostics
that a schema draws from a document; the executable validator is proved to
produce exactly that sequence.

## Layout

- `src/` the verified library.
- `tests/` tests of the library.
- `app/` the `kdl` command (`check`, `fmt`) and, started as `kdl-lsp`, the
  language server; file access, terminal output and the server plumbing live
  there.

## Outside crates

`regex` (patterns), `jiff` (date, time and duration formats), `ropey` (line
positions), `globset` (glob patterns) and `url` (file URIs) are called from
the library through small trusted wrappers whose contracts name their
results. `clap`, `miette`, `tower-lsp`, `tokio`, `dashmap`, `serde_json` and
`tracing` serve `app/` only.
