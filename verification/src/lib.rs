//! Window-management logic of the vinland compositor: configuration parsing,
//! window rules, the master-stack layout, workspaces and focus, the IPC
//! command logic, layer-shell and popup geometry, paint and hit-test order,
//! window borders, cursor image preparation and wallpaper decoding.

pub mod text;
pub mod config;
pub mod window;
pub mod layout;
pub mod desktop;
pub mod ipc;
pub mod layer;
pub mod screencopy;
pub mod xwm;
pub mod cursor;
pub mod wallpaper;
pub mod render;
pub mod popup;
