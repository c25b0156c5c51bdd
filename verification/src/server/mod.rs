//! Display sessions and their supervisor.

pub mod session;
pub mod supervisor;

pub use session::{DisplaySession, SessionConfig, SessionEvent};
pub use supervisor::{DisplayInfo, DisplaySupervisor, SupervisorCommand, SupervisorResponse};

use vstd::prelude::*;

verus! {

/// A server for several displays.
#[derive(Debug)]
pub struct DisplayServer {
    pub supervisor: DisplaySupervisor,
}

impl DisplayServer {
    pub fn new(base_vnc_port: u16, control_socket: String) -> (r: Self)
        ensures
            r.supervisor.wf(),
            r.supervisor.base_vnc_port == base_vnc_port,
            r.supervisor.control_socket_path == control_socket,
            r.supervisor.displays@ == Map::<u32, SessionConfig>::empty(),
    {
        DisplayServer { supervisor: DisplaySupervisor::new(base_vnc_port, control_socket) }
    }
}

} // verus!
