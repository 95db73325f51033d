# texpresso-core

The core of a LaTeX editor, verified with Verus: compile scheduling (a merge
queue, the failure decision table and the scheduler's state machine), TeX log
parsing, root-file detection, project walks and ignore rules, settings
(validation, merging, partial updates), SyncTeX output parsing, and the
decisions of the desktop shell (paths, latexmk command line and outcomes,
file-change routing, command checks, the settings self-write filter).

Layout:

- `src/` — the library; every function is verified against its contract.
  `text` and `path` model strings and paths; `scheduler`, `log_parser`,
  `project`, `settings`, `synctex`, `compose` follow the core's modules;
  `runner`, `commands`, `desktop` and `storage` hold the shell's decisions.
- `tests/` — scenarios on concrete values.
- `app/` — the shell: `tokio` file access and processes, the `notify`
  watcher, the scheduler's task, settings files through `serde_json`, and the
  command functions. It performs I/O and hands plain values to the library.

The library trusts few outside calls: the `regex` crate (its captures are
named, not restated) and std's `char::to_string`. Everything else it calls in
std goes through the specifications that ship with Verus.
