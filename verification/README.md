# pm3_adapters

The adapter layer of pm3, a small process manager with a sandbox, as a Verus
library: the parsers, renderers, path rules, state-file encoding and process
decisions are verified functions in `src/`; `app/` holds the file, process,
network and serde plumbing around them.

- `src/` — verified library (one module per concern: `config`, `loader`,
  `apps_file`, `env_file`, `enc_file`, `inline`, `paths`, `program`,
  `persistence`, `probe`, `signal`, `watcher`, `logs`, `presenter`, `table`,
  `describe`, `http`, …) and `laws.rs`, the proved properties that span
  several functions.
- `tests/` — tests of the library on concrete values.
- `app/` — I/O around the library and serde copies of its types.
