# shuffle

The core of Shuffle, a file explorer for macOS, written in Verus: every
decision the explorer makes is a verified function with a contract, and the
window around it (GPUI, AppKit, the disk) is ordinary Rust in `app/`.

## Layout

- `src/text.rs`, `src/path.rs` — characters, trimming, case mapping through
  std, and Unix path semantics (components, join, parent, file name,
  extension, `~` expansion).
- `src/score.rs`, `src/order.rs` — the fuzzy scores of the filter, the
  palette and the file index, and the stable ranking every list is shown in.
- `src/workspace.rs`, `src/layout.rs` — panes of tabs with back/forward
  history, the path editor, the directory filter, recents and bookmarks;
  closing and dragging tabs as operations on the arrangement.
- `src/palette.rs`, `src/index.rs`, `src/keys.rs` — the command palette, the
  in-memory index and Spotlight ranking, and key routing.
- `src/view.rs`, `src/kind.rs` — what the window shows: breadcrumbs, rows,
  tab strips, the sidebar, the context menu, file kinds.
- `src/theme.rs`, `src/persist.rs`, `src/icons.rs` — themes and the theme
  file, the persisted lists, and Finder icons decoded with `image`.
- `app/` — the program: windows, drawing, file system, AppKit, threads, and
  the floating-point parts (similarity ratios, pixel geometry, sizes).

Laws of the library are public proof functions named `law_*`.
