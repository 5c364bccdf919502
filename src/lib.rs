//! Peer-to-peer transport for terminal-rendered ASCII video: the wire codec,
//! the sender and receiver state machines of the reliable-datagram protocol,
//! and the frame pipeline that turns camera frames into compressed ASCII art.

pub mod buffer;
pub mod masp;
pub mod text;
pub mod video;
pub mod endpoint;
pub mod cli;
pub mod stun;
