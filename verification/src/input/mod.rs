//! Keyboard and pointer input.

pub mod codes;
pub mod keys;
pub mod laws;
pub mod remote;
