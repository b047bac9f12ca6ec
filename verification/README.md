# td

A minimal todo list for the terminal.

- `td some words` adds the open task `some words` to the default store.
- `td` opens the interface on the default store; `td --file name` on another.
- `td --file name some words` adds the task to that store.

Each store is a text file with one `status<TAB>task` line per entry
(`[ ]` open, `[X]` done); stores are named in `~/.config/td/config.yaml`.

Layout:

- `src/` — the verified library (Verus): `store` (file format, with the
  laws that written lists read back), `task` (tasks from arguments),
  `cli` (what the command line asks for), `tui` (the interface's state
  machine and its laws).
- `app/` — the program: configuration, files, terminal drawing and key input.
- `tests/` — tests of the library.
