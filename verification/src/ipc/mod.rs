//! Commands to the running compositor, and what it answers.

pub mod command;
pub mod handle;
pub mod laws;
pub mod parse;
