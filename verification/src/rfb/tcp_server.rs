//! Where clients connect over TCP.

use vstd::prelude::*;

verus! {

/// Where clients connect over TCP.
#[derive(Debug)]
pub struct TcpRfbServer {
    pub bind_addr: String,
    pub desktop_name: String,
    pub auth_token: Option<String>,
}

impl TcpRfbServer {
    pub fn new(bind_addr: String, desktop_name: String, auth_token: Option<String>) -> (r: Self)
        ensures
            r == (TcpRfbServer { bind_addr, desktop_name, auth_token }),
    {
        TcpRfbServer { bind_addr, desktop_name, auth_token }
    }
}

} // verus!
