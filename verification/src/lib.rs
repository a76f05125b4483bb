//! Verified core of a framebuffer GIF animation player.
//!
//! The library holds the two pieces with real design content: the frame
//! compositor, which maps decoded indexed pixel data into the destination
//! byte layout under offset, clipping, row-padding and channel-order
//! constraints, and the playback scheduler, which owns the destination
//! buffer, sequences decode / composite / flush cycles, paces frames
//! against their declared delays, and decides between single-pass and
//! looping playback.  Decoding, device access and argument handling stay
//! outside, in the surrounding binary, which feeds this library plain
//! values.

pub mod args;
pub mod compositor;
pub mod console;
pub mod frame;
pub mod geometry;
pub mod scheduler;
