# code_memory

A verified library of the static code-memory pipeline: the rules that turn a
repository's plan, its providers' output and its source files into facts,
gaps and receipts. Every function in `src/` carries a Verus contract and is
proved against it.

Layout:

- `src/` — the library. Each module states its model as
  spec functions (`spec_*`, views of its types) and proves its executable
  functions against them. `laws.rs` holds the properties that span several
  functions (normalisation is idempotent, schedules account for their plan,
  receipts are coherent, and so on).
- `src/syntax_tree.rs` and `src/sql_inventory.rs` — tree-sitter parses as
  pre-order node lists, and the SQL-literal inventory over them;
  `src/source_file.rs` — the shared inventory of one source file.
- `src/unit_records.rs`, `src/unit_relations.rs`, `src/sql_facts.rs` — what
  one unit's stream holds: its state, gaps and issues, its relations, its
  SQL query facts.
- `src/language_ir.rs`, `src/definition_audit.rs`, `src/import_summary.rs`,
  `src/type_relation_summary.rs` —
  the run-level receipts: counts summed over units, audits merged per
  language, bounded samples.
- `src/text.rs`, `src/digest.rs` — the few trusted items: std's Unicode
  character classes, `String::push`, and SHA-256 from `sha2`, each named and
  documented where it is declared.
- `tests/` — scenarios on concrete values.
- `app/` — directory walking, file reading and serialised receipts around
  the library.
