//! Starting, attaching to and stopping the X server of a display.

use crate::numeral;
use crate::numeral::{numbered, prefixed, to_decimal};
use crate::text;
use crate::text::joined;
use crate::x11::detector;
use crate::x11::detector::{X11Detector, X11DisplayState};
use vstd::prelude::*;

verus! {

/// How often a server that was asked to stop is looked at before it is killed.
pub const STOP_POLLS: u32 = 50;

/// Time between two such looks, in milliseconds.
pub const STOP_POLL_MILLIS: u64 = 10;

/// How long a new server may take to open its socket, in milliseconds.
pub const SPAWN_TIMEOUT_MILLIS: u64 = 3000;

/// Stands for a display's server process and files, which are cleaned up once
/// unless the guard was disarmed.
#[derive(Debug)]
pub struct X11ProcessGuard {
    pub display_num: u32,
    pub child_pid: Option<u32>,
    pub lock_path: String,
    pub socket_path: String,
    pub is_managed: bool,
    pub is_cleaned_up: bool,
}

/// What a cleanup has to do.
#[derive(Debug, Clone, Copy, PartialEq, Eq, Structural)]
pub struct CleanupPlan {
    /// The process to stop.
    pub stop: Option<u32>,
    /// Whether to remove lock file and socket.
    pub remove_files: bool,
}

impl X11ProcessGuard {
    pub fn new(display_num: u32, child_pid: Option<u32>, is_managed: bool) -> (r: Self)
        ensures
            r.display_num == display_num,
            r.child_pid == child_pid,
            r.lock_path@ == detector::lock_path_of(display_num),
            r.socket_path@ == detector::socket_path_of(display_num),
            r.is_managed == is_managed,
            !r.is_cleaned_up,
    {
        let (lock_path, socket_path) = X11Detector::get_display_paths(display_num);
        X11ProcessGuard {
            display_num,
            child_pid,
            lock_path,
            socket_path,
            is_managed,
            is_cleaned_up: false,
        }
    }

    /// Gives up the process: nothing will be cleaned up.
    pub fn disarm(&mut self)
        ensures
            *final(self) == (X11ProcessGuard {
                is_managed: false,
                is_cleaned_up: true,
                ..*old(self)
            }),
    {
        self.is_managed = false;
        self.is_cleaned_up = true;
    }

    /// What a cleanup has to do now.
    pub open spec fn plan(&self) -> CleanupPlan {
        if self.is_managed && !self.is_cleaned_up {
            CleanupPlan {
                stop: match self.child_pid {
                    Some(pid) => if pid > 0 {
                        Some(pid)
                    } else {
                        None
                    },
                    None => None,
                },
                remove_files: true,
            }
        } else {
            CleanupPlan { stop: None, remove_files: false }
        }
    }

    /// Says what has to be cleaned up, and takes it as done: a managed process
    /// and its files, once.
    pub fn cleanup(&mut self) -> (plan: CleanupPlan)
        ensures
            plan == old(self).plan(),
            *final(self) == (X11ProcessGuard { is_cleaned_up: true, ..*old(self) }),
    {
        if self.is_cleaned_up {
            return CleanupPlan { stop: None, remove_files: false };
        }
        self.is_cleaned_up = true;
        if self.is_managed {
            let stop = match self.child_pid {
                Some(pid) => if pid > 0 {
                    Some(pid)
                } else {
                    None
                },
                None => None,
            };
            CleanupPlan { stop, remove_files: true }
        } else {
            CleanupPlan { stop: None, remove_files: false }
        }
    }
}

/// A second cleanup, or one of a disarmed guard, does nothing.
pub proof fn law_cleanup_happens_once(g: X11ProcessGuard)
    requires
        g.is_cleaned_up,
    ensures
        g.plan() == (CleanupPlan { stop: None, remove_files: false }),
{
}

/// Whether to go on waiting for a process that was asked to stop.
pub fn keep_waiting(polls: u32, alive: bool) -> (r: bool)
    ensures
        r == (alive && polls < STOP_POLLS),
{
    alive && polls < STOP_POLLS
}

/// How to run the X server of a display.
#[derive(Debug)]
pub struct X11Supervisor {
    pub display_num: u32,
    pub width: u32,
    pub height: u32,
    pub depth: u32,
    pub xvfb_path: String,
    pub xvfb_args: Option<Vec<String>>,
}

/// How a display is made ready.
#[derive(Debug)]
pub enum ReadyPlan {
    /// Use the server that runs as this process.
    Attach(u32),
    /// Remove what a dead server left behind, then start one.
    PurgeAndSpawn,
    /// Start a server.
    Spawn,
    /// Give up, with this message.
    Refuse(String),
}

/// An optional number as it is shown in messages.
pub open spec fn shown_pid(pid: Option<u32>) -> Seq<char> {
    match pid {
        Some(p) => "Some("@ + numeral::decimal(p as nat) + ")"@,
        None => "None"@,
    }
}

/// Message on a stale display that may not be managed.
pub open spec fn stale_message(n: u32, pid: Option<u32>) -> Seq<char> {
    "Display :"@ + numeral::decimal(n as nat) + " has stale artifacts (stale_pid="@ + (shown_pid(
        pid,
    ) + ") and manage_x11 is disabled"@)
}

/// Message on a free display that may not be managed.
pub open spec fn inactive_message(n: u32) -> Seq<char> {
    "Display :"@ + numeral::decimal(n as nat)
        + " is not active and manage_x11 is disabled (attach mode)"@
}

impl ReadyPlan {
    /// Whether this is the plan for display `n` in the given state.
    pub open spec fn suits(&self, n: u32, state: X11DisplayState, manage_x11: bool) -> bool {
        match state {
            X11DisplayState::Active { pid, .. } => *self == ReadyPlan::Attach(pid),
            X11DisplayState::Stale { stale_pid, .. } => if manage_x11 {
                *self == ReadyPlan::PurgeAndSpawn
            } else {
                *self matches ReadyPlan::Refuse(m) && m@ == stale_message(n, stale_pid)
            },
            X11DisplayState::Free { .. } => if manage_x11 {
                *self == ReadyPlan::Spawn
            } else {
                *self matches ReadyPlan::Refuse(m) && m@ == inactive_message(n)
            },
        }
    }
}

/// The name of the server program unless another is given.
pub open spec fn program(path: Option<String>) -> Seq<char> {
    match path {
        Some(p) => p@,
        None => "Xvfb"@,
    }
}

/// Arguments of a server unless others are given.
pub open spec fn default_args(n: u32, width: u32, height: u32, depth: u32) -> Seq<Seq<char>> {
    seq![
        ":"@ + numeral::decimal(n as nat),
        "-screen"@,
        "0"@,
        numeral::decimal(width as nat) + "x"@ + numeral::decimal(height as nat) + "x"@
            + numeral::decimal(depth as nat),
        "-ac"@,
        "-nolisten"@,
        "tcp"@,
        "-noreset"@,
        "+extension"@,
        "GLX"@,
        "+extension"@,
        "RANDR"@,
        "+extension"@,
        "RENDER"@,
        "+extension"@,
        "DAMAGE"@,
        "+extension"@,
        "Composite"@,
        "+extension"@,
        "MIT-SHM"@,
    ]
}

impl X11Supervisor {
    pub fn new(
        display_num: u32,
        width: u32,
        height: u32,
        depth: u32,
        xvfb_path: Option<String>,
    ) -> (r: Self)
        ensures
            r.display_num == display_num,
            r.width == width,
            r.height == height,
            r.depth == depth,
            r.xvfb_path@ == program(xvfb_path),
            r.xvfb_args == None::<Vec<String>>,
    {
        Self::with_custom_args(display_num, width, height, depth, xvfb_path, None)
    }

    pub fn with_custom_args(
        display_num: u32,
        width: u32,
        height: u32,
        depth: u32,
        xvfb_path: Option<String>,
        xvfb_args: Option<Vec<String>>,
    ) -> (r: Self)
        ensures
            r.display_num == display_num,
            r.width == width,
            r.height == height,
            r.depth == depth,
            r.xvfb_path@ == program(xvfb_path),
            r.xvfb_args == xvfb_args,
    {
        let path = match xvfb_path {
            Some(p) => p,
            None => "Xvfb".to_owned(),
        };
        X11Supervisor { display_num, width, height, depth, xvfb_path: path, xvfb_args }
    }

    /// How the display is made ready: a live server is used as it is; without
    /// one, a server is started where that is allowed.
    pub fn ensure_ready(&self, state: &X11DisplayState, manage_x11: bool) -> (r: ReadyPlan)
        ensures
            r.suits(self.display_num, *state, manage_x11),
    {
        match state {
            X11DisplayState::Active { pid, .. } => ReadyPlan::Attach(*pid),
            X11DisplayState::Stale { stale_pid, .. } => {
                if manage_x11 {
                    ReadyPlan::PurgeAndSpawn
                } else {
                    let shown = match *stale_pid {
                        Some(p) => numbered("Some(", p as u64, ")"),
                        None => "None".to_owned(),
                    };
                    let end = joined(shown.as_str(), ") and manage_x11 is disabled");
                    let start = numbered(
                        "Display :",
                        self.display_num as u64,
                        " has stale artifacts (stale_pid=",
                    );
                    ReadyPlan::Refuse(joined(start.as_str(), end.as_str()))
                }
            },
            X11DisplayState::Free { .. } => {
                if manage_x11 {
                    ReadyPlan::Spawn
                } else {
                    ReadyPlan::Refuse(
                        numbered(
                            "Display :",
                            self.display_num as u64,
                            " is not active and manage_x11 is disabled (attach mode)",
                        ),
                    )
                }
            },
        }
    }

    /// The arguments of the server: those given, or the usual ones.
    pub fn spawn_args(&self) -> (r: Vec<String>)
        ensures
            text::texts(r@) == match self.xvfb_args {
                Some(args) => text::texts(args@),
                None => default_args(self.display_num, self.width, self.height, self.depth),
            },
    {
        let mut r: Vec<String> = Vec::new();
        match &self.xvfb_args {
            Some(args) => {
                let mut i: usize = 0;
                while i < args.len()
                    invariant
                        i <= args@.len(),
                        r@.len() == i,
                        forall|j: int| 0 <= j < i ==> #[trigger] r@[j]@ == args@[j]@,
                    decreases args@.len() - i,
                {
                    r.push(args[i].clone());
                    i = i + 1;
                }
                assert(text::texts(r@) =~= text::texts(args@));
            },
            None => {
                let width = joined(to_decimal(self.width as u64).as_str(), "x");
                let size = joined(prefixed(width.as_str(), self.height as u64).as_str(), "x");
                let screen = prefixed(size.as_str(), self.depth as u64);
                r.push(prefixed(":", self.display_num as u64));
                r.push("-screen".to_owned());
                r.push("0".to_owned());
                r.push(screen);
                r.push("-ac".to_owned());
                r.push("-nolisten".to_owned());
                r.push("tcp".to_owned());
                r.push("-noreset".to_owned());
                r.push("+extension".to_owned());
                r.push("GLX".to_owned());
                r.push("+extension".to_owned());
                r.push("RANDR".to_owned());
                r.push("+extension".to_owned());
                r.push("RENDER".to_owned());
                r.push("+extension".to_owned());
                r.push("DAMAGE".to_owned());
                r.push("+extension".to_owned());
                r.push("Composite".to_owned());
                r.push("+extension".to_owned());
                r.push("MIT-SHM".to_owned());
                assert(text::texts(r@) =~= default_args(
                    self.display_num,
                    self.width,
                    self.height,
                    self.depth,
                ));
            },
        }
        r
    }
}

/// How things stand with a server that was started.
#[derive(Debug, Clone, Copy, PartialEq, Eq, Structural)]
pub enum SpawnStep {
    /// Its socket accepts connections.
    Ready,
    /// It has ended.
    Exited,
    /// It has taken too long.
    TimedOut,
    /// Look again later.
    Wait,
}

/// How things stand with a server that was started `elapsed_millis` ago.
pub fn spawn_step(elapsed_millis: u64, exited: bool, socket_ready: bool) -> (r: SpawnStep)
    ensures
        r == if elapsed_millis >= SPAWN_TIMEOUT_MILLIS {
            SpawnStep::TimedOut
        } else if exited {
            SpawnStep::Exited
        } else if socket_ready {
            SpawnStep::Ready
        } else {
            SpawnStep::Wait
        },
{
    if elapsed_millis >= SPAWN_TIMEOUT_MILLIS {
        SpawnStep::TimedOut
    } else if exited {
        SpawnStep::Exited
    } else if socket_ready {
        SpawnStep::Ready
    } else {
        SpawnStep::Wait
    }
}

/// A server that runs is used as it is, and never started again; without one, a
/// server is started exactly where that is allowed, after what a dead one left
/// behind is removed; otherwise there is only a message.
pub proof fn law_how_a_display_is_made_ready(
    plan: ReadyPlan,
    n: u32,
    state: X11DisplayState,
    manage_x11: bool,
)
    requires
        plan.suits(n, state, manage_x11),
    ensures
        (plan is Attach) == (state is Active),
        state matches X11DisplayState::Active { pid, .. } ==> plan == ReadyPlan::Attach(pid),
        (plan is PurgeAndSpawn) == (state is Stale && manage_x11),
        (plan is Spawn) == (state is Free && manage_x11),
        (plan is Refuse) == (!(state is Active) && !manage_x11),
{
}

/// Only a server that was started here is stopped, and only its files are
/// removed, once; process number zero is never stopped.
pub proof fn law_only_own_servers_are_stopped(g: X11ProcessGuard)
    ensures
        g.plan().remove_files == (g.is_managed && !g.is_cleaned_up),
        g.plan().stop matches Some(pid) ==> g.is_managed && !g.is_cleaned_up && g.child_pid == Some(
            pid,
        ) && pid > 0,
        g.is_managed && !g.is_cleaned_up ==> (g.child_pid matches Some(pid) ==> pid > 0
            ==> g.plan().stop == Some(pid)),
{
}

} // verus!
