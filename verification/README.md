# cargo-test-lint

A test-quality linter for Rust projects, and a background daemon that keeps coverage and
mutation findings for them, with their logic verified by Verus.

- `src/` — the verified library.
  - `spans`, `text`, `paths`, `assoc`: source spans and their merging, string helpers, Unix
    path components and their order, association lists.
  - `lint`: the linter — configuration, findings and their order, the syntax tree read from
    tree-sitter, the rules, the coverage text format, mutation sets, terminal and SARIF output.
  - `ctl`: findings in the shape of compiler diagnostics, made from coverage gaps and surviving
    mutants, and the daemon's configuration.
  - `daemon`: the coverage matrix, the diagnostics cache, the readers of `llvm-cov` and
    `cargo mutants` output, the file watcher's filtering, and the decisions of the pipeline.
- `tests/` — tests of the library on concrete inputs.
- `app/` — the `cargo test-lint` program and the daemon's I/O: files, processes, sockets,
  JSON and TOML.
