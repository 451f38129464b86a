//! Plugins: what they register, what they ask for, and what they are told.

pub mod data;
pub mod laws;
pub mod lua;
pub mod manifest;
pub mod set;
pub mod wasm;
