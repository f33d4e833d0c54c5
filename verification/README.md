# dep-lens-core

Scans a project's dependency manifests and lockfiles (npm, Cargo, Go,
Python, Ruby, PHP, Java, Dart, C/C++), classifies each dependency's
license, scores its commercial-use risk, and renders the result as JSON,
HTML or CSV.

The library in `src/` is verified with Verus: every parser, the license
classifier, the risk table, the report builder and the renderers carry
contracts over mathematical models of their inputs and outputs, and the
laws the tool relies on (sorted and de-duplicated listings, where each
listed package comes from, summary counts that add up, how `OR` and `AND`
fold, identification that ignores ASCII case, escaped HTML and one
table row per package, timestamps that read back and sort in time order, Go
module path escaping and unescaping) are proved as lemmas.

Layout:

- `src/model.rs` — packages, classified packages, summaries, reports.
- `src/text.rs`, `src/json.rs` — string primitives and JSON documents.
- `src/license/` — license classification and risk assessment.
- `src/scanner/` — one module per ecosystem; each parses what it is handed
  and combines it with what was read from disk.
- `src/order.rs` — sorting and de-duplication of package lists.
- `src/report/` — JSON, HTML and CSV rendering; `html_rows.rs` proves
  that the HTML page has one row per package.
- `src/cli.rs`, `src/project.rs` — command-line options, project name.
- `app/` — the command-line program: file-system walking, running
  `cargo metadata`, environment lookups and output.
- `tests/` — tests of the library.
