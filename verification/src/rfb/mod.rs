//! The RFB protocol: messages, encodings and sessions.

pub mod encoder;
pub mod engine;
pub mod message;
pub mod tcp_server;
pub mod ws_server;
pub mod zlib;

pub use engine::RfbProtocolEngine;
pub use tcp_server::TcpRfbServer;
pub use ws_server::WsRfbServer;

use vstd::prelude::*;

verus! {

/// What an RFB server is run with.
#[derive(Debug, Clone)]
pub struct RfbServerConfig {
    pub rfb_port: u16,
    pub ws_port: Option<u16>,
    pub desktop_name: String,
    pub auth_token: Option<String>,
    pub width: u16,
    pub height: u16,
}

} // verus!
