# cargo-rustics

Code-quality lenses for Rust workspaces, as a `cargo` subcommand: per-file
and workspace-wide counts laddered against thresholds, dismissals kept in a
sidecar file or in doc comments, regression between two reports, and the
removal of unused `pub` items.

## Layout

- `src/` — the library, written in Verus. Every function carries a
  `requires` / `ensures` contract that Verus proves: discovery filters,
  dismissal matching and staleness, doc-comment dismissals read from the
  syntax tree, regression classification and report assembly, the
  name-based unused-`pub` scan (each file's identifier tokens read with
  `syn`, its top-level items as the program converts them) and the per-file edits that delete
  unused items, the trait-impl fan-out grouping, the cross-file counts, their thresholds and
  violation records with stable ids, SARIF results, the decisions of a
  `cargo expand` run (one step per runner answer), the report renderers,
  and the document and publishing decisions of the editor bridge.
  Calls into outside crates (`syn`, `sha2`, `ra_ap_syntax`) and into std
  functions vstd does not specify (`String::from_utf8`, `String::push`,
  `Debug` for `str`) sit behind a few trusted wrappers, each with a doc
  comment saying what its contract assumes of the callee.
- `tests/` — ordinary Rust tests of the library's public functions.
- `app/` — the command-line program: argument parsing, file and process
  I/O, threads, serialisation (JSON, SARIF), the conversion of `syn`'s
  top-level items for the unused scan, `syn`'s visitor that finds every
  impl block for the fan-out lens, and the lenses whose figures are
  floating point. It hands the library plain values and prints what comes back.
