//! Stub of a WebRTC stream: its settings, and a fixed answer to offers.

use vstd::prelude::*;

verus! {

/// Settings of a WebRTC stream.
#[derive(Debug, Clone)]
pub struct WebRtcConfig {
    pub enabled: bool,
    pub max_bitrate_kbps: u32,
    pub target_fps: u32,
    pub ice_servers: Vec<String>,
}

impl Default for WebRtcConfig {
    fn default() -> (r: Self)
        ensures
            r.enabled,
            r.max_bitrate_kbps == 4000,
            r.target_fps == 60,
            r.ice_servers@.len() == 1,
            r.ice_servers@[0]@ == "stun:stun.l.google.com:19302"@,
    {
        let mut ice_servers: Vec<String> = Vec::new();
        ice_servers.push("stun:stun.l.google.com:19302".to_owned());
        WebRtcConfig { enabled: true, max_bitrate_kbps: 4000, target_fps: 60, ice_servers }
    }
}

/// A WebRTC stream.
#[derive(Debug)]
pub struct WebRtcStreamer {
    pub config: WebRtcConfig,
}

impl WebRtcStreamer {
    pub fn new(config: WebRtcConfig) -> (r: Self)
        ensures
            r.config == config,
    {
        WebRtcStreamer { config }
    }

    /// Answers an offer, whatever it says, with the same description.
    pub fn handle_offer(&self, sdp_offer: &str) -> (r: String)
        ensures
            r@
                == "v=0\r\no=- 0 0 IN IP4 127.0.0.1\r\ns=clm-vdisplay\r\nt=0 0\r\nm=video 9 UDP/TLS/RTP/SAVPF 96\r\n"@,
    {
        "v=0\r\no=- 0 0 IN IP4 127.0.0.1\r\ns=clm-vdisplay\r\nt=0 0\r\nm=video 9 UDP/TLS/RTP/SAVPF 96\r\n".to_owned()
    }
}

} // verus!
