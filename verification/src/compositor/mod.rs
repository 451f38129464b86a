//! The compositor's state: outputs, workspaces and windows, and what changes them.

pub mod actions;
pub mod arranging;
pub mod asking;
pub mod choosing;
pub mod event;
pub mod following;
pub mod keeping;
pub mod laws;
pub mod layers;
pub mod layout;
pub mod layouts;
pub mod lifecycle;
pub mod mapping;
pub mod monitors;
pub mod moving;
pub mod neighbours;
pub mod opening;
pub mod outputs;
pub mod retile;
pub mod seen;
pub mod state;
pub mod tabs;
pub mod windows;
pub mod workspaces;
pub mod x11;
