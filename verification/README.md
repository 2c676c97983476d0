# optionfiles

A minimal black & white terminal file manager (`optionfiles`, alias `fls`), with
its browser logic written in Verus and proved against its contracts.

## Layout

- `src/` — the verified library:
  - `fs.rs` — directory entries, listing order (directories first, then name, size
    or date), hidden files, human readable sizes;
  - `search.rs` — the name filter: substring matches and fuzzy subsequence ranking;
  - `app.rs` — the browser state and every transition on it (selection, navigation,
    filter, clipboard, create / rename / delete / paste decisions);
  - `input.rs` — the key map and what keys and mouse events do;
  - `ui.rs` — prompts and the layout of each terminal frame;
  - `kitty.rs` — image previews with the Kitty graphics protocol;
  - `metadata.rs` — calendar dates and timestamp texts;
  - `uri.rs`, `trash.rs` — `file://` URIs, clipboard text, XDG trash paths and sidecars;
  - `places.rs`, `gui.rs` — favorites file, user folders, sidebar rows, history,
    status bar and key map of the windowed browser;
  - `cli.rs` — the command line and the text of `list`, `tree`, `info`, `doctor`;
  - `text.rs`, `paths.rs` — string helpers and the path operations of `std`.
- `app/main.rs` — the program: argument parsing, file system, terminal, helper
  programs; it performs the outside work the library asks for.
- `tests/` — tests of the library.

The windowed (GTK) browser itself is not part of this project: only its logic is,
in `places.rs` and `gui.rs` (favorites, sidebar rows, history, status bar, key map,
properties). The window, its widgets, the folder watcher and the threads that drove
them need GTK 4 and libadwaita, which this build does not have.

Run `fls --help` for the commands; inside the browser `?` shows the keys.
