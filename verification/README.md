# bitforge

The verified core of BitForge, a Yocto / BitBake workspace manager: the
manifest (`BitForge.toml`) and lock file (`BitForge.lock`) models, dependency
specs and repository naming, layer scaffolding decisions, command-line
parsing, release selection for self-update, the web server's routing, build
event tracking and activity registry, dependency-graph parsing and the
recipe tree.

- `src/` is the library. Its functions carry contracts that Verus checks
  (the shared cancellation flags excepted: atomics have no value
  specification); the few calls into other crates (`xml-rs`, `log`,
  `serde_json`) and into `std` functions
  without a specification sit behind small trusted wrappers whose contracts
  are documented where they are declared.
- `tests/` exercises the library on concrete values.
- `app/` is the `BitForge` program around the library: files, git (`git2`),
  SQLite (`rusqlite`), processes, the HTTP server (`hyper`, `tokio`) and
  logging (`env_logger`).
