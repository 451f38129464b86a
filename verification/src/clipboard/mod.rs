//! Clipboard sync between Wayland and RDP clients.
//!
//! - Wayland app copies → RDP client can paste
//! - RDP client copies → Wayland app can paste

pub mod dib;
pub mod laws;
pub mod picture;
pub mod state;
pub mod utf16;
