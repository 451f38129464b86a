//! The logic of a tiling Wayland compositor with remote desktop outputs.

pub mod adaptive;
pub mod audio;
pub mod background;
pub mod cli;
pub mod clipboard;
pub mod compositor;
pub mod config;
pub mod cursors;
pub mod displaycontrol;
pub mod drm;
pub mod encode;
pub mod gfx;
pub mod input;
pub mod ipc;
pub mod label;
pub mod laws;
pub mod overlay;
pub mod plugins;
pub mod session;
pub mod text;
pub mod tiling;
pub mod wire;
