//! Headless virtual display engine: tiled framebuffer with damage tracking,
//! the RFB 3.8 protocol, input routing, and the decisions behind capture,
//! clipboard and display supervision. Sockets, processes and the X connection
//! are left to the program around it, which hands in plain values and does what
//! it is told.

pub mod buffer;
pub mod config;
pub mod display;
pub mod input;
pub mod metrics;
pub mod numeral;
pub mod rfb;
pub mod server;
pub mod streaming;
pub mod text;
pub mod wire;
pub mod x11;

use vstd::prelude::*;

verus! {

/// Version of the engine.
pub const VERSION: &'static str = "0.1.0";

} // verus!
