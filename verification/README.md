# blazewvr

A terminal playground for DataWeave scripts. It runs scripts through
MuleSoft's own `dw` CLI and prints colored, formatted results; this
repository holds its core as a library verified with Verus, and the
command-line program around it.

## Layout

- `src/` — the verified library.
  - `span.rs`: styled text runs and their ANSI rendering (through `colored`).
  - `lex.rs`: the token grammar shared by both highlighters and the cut of a
    text into styled runs.
  - `colorize.rs`: the structural colorizer for `dw` output, and stripping of
    ANSI sequences.
  - `dwl_highlight.rs`: the DataWeave source highlighter.
  - `flatten.rs`: turning a multi-line script into one line for `dw repl`.
  - `status.rs`: the status header of watch mode.
  - `watch.rs`: `-i name=file` arguments, watched files, the poll that
    notices a change, the text printed per evaluation.
  - `history.rs`, `picker.rs`, `sidecar.rs`, `config.rs`: history entries,
    script search and picking, sidecar inputs, project config.
  - `repl.rs`, `run_once.rs`: how `dw repl` and `dw run` are launched and how
    their replies are read.
  - `tui.rs`: the screen layout of the playground (through `ratatui`).
  - `order.rs`, `text.rs`: text order and sorting, text helpers.
- `app/` — the program: argument parsing, files, child processes, the
  terminal, and the serde/TOML formats.
- `tests/` — tests of the library.
