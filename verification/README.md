# tiling_compositor

The window management of a small tiling Wayland compositor, verified with
Verus, and the compositor program around it.

- `src/` is the library. `tiling/` holds the binary space partitioning
  tiling tree (`bsp.rs`) and the properties proved of it (`properties.rs`):
  a window is tiled at most once, destroying a window removes exactly that
  window, destroying a window right after accepting it restores the tree, and
  the placements of the tiled windows tile the screen. `layout.rs` tracks the
  windows of the workspaces and decides where windows go; `input_state.rs` is
  the input device registry; `shortcut.rs` matches keystrokes against the
  registered shortcuts; `window.rs` holds identifiers, rectangles and
  placements.
- `app/` is the program: the Wayland server, the winit backend, rendering,
  and the seat, all through smithay, driving the library.
- `tests/` exercises the library on concrete values.
