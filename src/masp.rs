//! The reliable-datagram protocol: packets, sender state and receiver state.

pub mod message;
pub mod sender;
pub mod receiver;
