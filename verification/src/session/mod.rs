//! What a session with remote clients decides from frame to frame.

pub mod canvas;
pub mod events;
pub mod frames;
pub mod gate;
pub mod laws;
pub mod pointer;
pub mod surfaces;
