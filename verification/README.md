# vinland

A small tiling Wayland compositor (master-stack layout, nine workspaces,
layer shell, screencopy, Xwayland, a Unix-socket IPC), built on smithay.

The window-management logic is a library verified with Verus:

- `src/config.rs` — configuration sections, window rules, the key
  combination and action parsers, the default key bindings.
- `src/layout.rs` — the master-stack layout, its tiling order, and its laws
  (tiles do not overlap, stay on the output, retiling is idempotent).
- `src/desktop.rs` — workspaces and windows: placing new windows by rules,
  focus cycling, moving, raising, minimizing and removing windows, key
  binding actions.
- `src/ipc.rs` — what each IPC command does and answers.
- `src/layer.rs`, `src/render.rs`, `src/popup.rs`, `src/screencopy.rs`,
  `src/xwm.rs` — geometry of layer surfaces, paint and hit-test order, window
  borders, popup constraints, capture regions and X11 configure requests.
- `src/cursor.rs`, `src/wallpaper.rs` — Xcursor frames and wallpaper decoding.
- `src/text.rs` — character-level helpers the parsers share.

`app/` is the compositor around it: the smithay protocol handlers, the
renderer, input dispatch, reading `config.toml`, the IPC socket and the event
loop. It hands the library plain values and carries out what it decides.
