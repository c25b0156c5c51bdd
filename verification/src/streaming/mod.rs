//! Other ways to show the screen: screenshots and a WebRTC stub.

pub mod cdp_pipe;
pub mod picture;
pub mod webrtc;

pub use cdp_pipe::CdpScreencastPipe;
pub use webrtc::{WebRtcConfig, WebRtcStreamer};

use vstd::prelude::*;

verus! {

/// Which streams are on.
#[derive(Debug, Clone, Copy)]
pub struct StreamConfig {
    pub enable_webrtc: bool,
    pub enable_cdp_screencast: bool,
}

} // verus!
