# Kompass

Kompass finds the code that takes the most thought to change. It reads Rust,
Python, JavaScript and TypeScript source and gives every callable and every
executable initializer one additive structural score, kept as integer tenths.

`src/` is the library, verified with Verus:

- Frontends. `syn`, Ruff and Oxc parse source; their trees are lowered into one
  plain syntax tree (`syntax`). `rust_*`, `python_*` and `javascript_*` say what
  the nodes of such a tree mean: which signals they send (`walk`, `signals`),
  which callables they are (`unit_walk`, `units`), and what happens in a body
  (`frontend_evidence`).
- Scores. `score` turns signals into a score, `score_laws` and `rewriting_laws`
  hold what leaves a score as it is, `summary` adds scores up.
- Identity. `identity` gives callables lexical fingerprints and snapshot ids;
  `identity_laws` states what the fingerprints ignore and what they keep.
- Reports. `analyze` puts a report together; `discover`, `modules` and
  `reachability` decide which files count, and as what.
- Evidence. `evidence`, `call_graph`, `regions` and `duplicates` relate
  callables to one another without touching any score.
- Comparisons. `diff`, `matching`, `entries` and `deltas` compare two reports;
  `diff_laws` states what a comparison keeps, `mirror_laws` how it turns when the
  reports are exchanged.
- Output. `output`, `diff_text`, `explain` and `ranking` render and select.

`app/` is the command-line program: arguments, file system, Cargo metadata and
JSON. `tests/` holds the tests of the library.
