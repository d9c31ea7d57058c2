# gitgui

A commit-crafting git GUI whose logic is a verified library: staging and
unstaging individual lines, browsing history and stashes, searching diffs,
finishing a merge, and pushing.

`src/` is the library, written in Verus. Its functions carry contracts and
are proved against them, except a handful of trusted wrappers around std
(`String::push`, `String::from_utf8`, `String::from_utf8_lossy`,
`str::to_lowercase`, `char::to_lowercase`, `Path::file_name` and
`Path::components`): their contracts are believed, and say only what std
documents. Where the answer depends on the platform (which characters
separate path components), the two path wrappers state only what holds on
every platform: a file name is a non-empty piece of the path and a plain name
is its own; a path rewritten with native separators is not empty and keeps
its final plain name at the end.

- `git/` — git's machine-readable output and the commands the program runs:
  porcelain-v2 status (`status.rs`), unified diffs (`diff.rs`), partial
  patches for line-level staging (`patch.rs`), log and name-status (`log.rs`),
  stash entries (`stash.rs`), and every command line with the readers of its
  results (`mod.rs`).
- `app.rs` — the window's state: panes, the line selection, search, undo of
  discards, push and stash bookkeeping, and the decisions behind each action.
- `panes.rs` — what the working-tree panes list (hidden new files, amending,
  conflicts) and when a commit may be made.
- `text_sel.rs` — character selection in the diff, copying, and the line the
  cursor stands on.
- `labels.rs` — dialog texts, titles and counters, and what each key asks for.
- `gestures.rs` — what a press or click on a diff row does to the selection.
- `desktop.rs` — splitting an editor command and naming a line to it.
- `config.rs` — the recent-repositories list and its file format.
- `text.rs` — the text and byte helpers the rest is written with.

Laws that span functions are public proof functions named `law_*`.

`app/` is the program around the library: `main`, running git and the
editor, reading and writing files and settings, and drawing with egui. It
hands the library plain values and does what the library decides.
