//! The graphics pipeline channel: H.264 frames to remote desktop clients.

pub mod capability;
pub mod channel;
pub mod laws;
pub mod pdu;
