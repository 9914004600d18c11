# solite

The logic of a SQLite command-line tool, written in Verus and proved
against its contracts: a SQL syntax tree, a schema-aware analyzer and
linter, and the decisions behind the command-line commands (argument
handling, documentation regeneration, code generation, HTML rendering,
table layout, colors, benchmarks).

## Layout

- `src/ast.rs` — the syntax tree of SQL programs.
- `src/text.rs`, `src/strmap.rs` — text helpers and a small map keyed by
  text, with its model as an association list.
- `src/analyzer/` — the schema built from a program, name resolution in
  `SELECT`s, the checks on tables and columns, lint rules and their
  configuration, suppression comments, symbol lookup for hovers.
- `src/cli/` — the verified core of each command: parsing of its inputs,
  what it prints (the notebook kernel's replies to dot commands among it), and
  the state machines that the driver steps through.
- `app/` — ordinary Rust around the library: command-line definitions,
  configuration files and terminal output.
- `tests/` — tests of the library on concrete inputs.

Each public function states in its `ensures` what it returns; laws that
relate several functions stand as public proof functions named `law_*`.
