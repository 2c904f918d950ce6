//! Window management logic of a small tiling Wayland compositor: the binary
//! space partitioning tiling tree, window placements, workspaces, the input
//! device registry and keyboard shortcuts.

pub mod window;
pub mod tiling;
pub mod shortcut;
pub mod layout;
pub mod input_state;
