# project-picker

A keyboard-driven project launcher for Hyprland/Wayland: it fuzzy-searches recent and
pinned projects and opens them in a Ghostty terminal. The program runs as a daemon that a
`--toggle` client shows and hides over a Unix socket.

## Layout

- `src/` — the verified library (Verus):
  - `projects.rs` — case-insensitive subsequence matching (`fuzzy_match`) and its laws.
  - `app.rs` — the picker state (`App`): filtering, pinning, opening and removing
    projects, selection movement, key handling and the search list rows, with the laws
    that tie the listed rows to what the keyboard acts on.
  - `paths.rs` — `~` abbreviation and expansion, the name a project is listed under,
    the completion pattern and the sorted,
    bounded completion list.
  - `icons.rs` — which icon a project gets from what its directory holds.
  - `terminal.rs` — the terminal command line.
  - `daemon.rs` — the toggle decision and the socket's line protocol.
  - `cli.rs` — command-line flags and the client's messages.
  - `store.rs` — the JSON form of `recents.json` and `pinned.json`.
  - `text.rs` — character-sequence helpers and lexicographic order.
- `app/` — the program: winit/wgpu/egui window and rendering, file system, glob,
  sockets and processes, driving the library.
- `tests/` — tests of the library.
