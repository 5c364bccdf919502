//! The frame pipeline: camera frames to ASCII art, its run-length codec, and
//! the ordering of frames.

pub mod ascii_frame;
pub mod jpeg;
pub mod stream;
