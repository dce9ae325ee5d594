# matrix

A terminal dashboard that starts, stops and watches local development
projects, with the decisions it takes written in Verus and proved against
their contracts.

- `src/` — the verified library: the process table and its start/stop
  decisions (ports, dependencies, env resolution, templates), project
  detection, the `:` command parser and palette, the control-socket protocol,
  the log pipeline (ANSI stripping, URL finding, word wrapping, frame
  planning), the per-tab models and key handling, version parsing and the
  update plan. Calls into the `regex` crate and into std's Unicode case
  mapping sit behind a few trusted wrappers whose contracts name their
  results.
- `app/` — the program around it: terminal I/O and rendering (ratatui,
  crossterm), the async runtime and child processes (tokio, nix), the
  control socket, config files (serde_json), HTTP for updates (ureq),
  clipboard and browser.
- `tests/` — executable tests of the library.
