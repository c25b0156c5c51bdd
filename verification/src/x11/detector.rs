//! What is known of an X display from its lock file and its socket.

use crate::numeral;
use crate::numeral::{numbered, parse_unsigned, prefixed};
use crate::text;
use crate::text::trim;
use vstd::prelude::*;

verus! {

/// The state of an X display. Each state carries the paths of its lock file
/// and its socket.
#[derive(Debug, Clone, PartialEq, Eq)]
pub enum X11DisplayState {
    /// A live server that accepts connections.
    Active { pid: u32, lock_path: String, socket_path: String },
    /// A lock file or a socket that a server left behind.
    Stale { stale_pid: Option<u32>, lock_path: String, socket_path: String },
    /// Neither lock file nor socket.
    Free { lock_path: String, socket_path: String },
}

/// What was found out about a display.
#[derive(Debug, Clone, Copy)]
pub struct DisplayFacts {
    /// The process that the lock file names.
    pub lock_pid: Option<u32>,
    /// Whether that process lives.
    pub pid_alive: bool,
    pub lock_exists: bool,
    pub socket_exists: bool,
    /// Whether the socket accepts connections.
    pub socket_connects: bool,
}

/// The lock file of display `n`.
pub open spec fn lock_path_of(n: u32) -> Seq<char> {
    "/tmp/.X"@ + numeral::decimal(n as nat) + "-lock"@
}

/// The socket of display `n`.
pub open spec fn socket_path_of(n: u32) -> Seq<char> {
    "/tmp/.X11-unix/X"@ + numeral::decimal(n as nat)
}

/// Whether a server is up: the process of the lock file lives, and the socket
/// is there and accepts connections.
pub open spec fn server_up(f: DisplayFacts) -> bool {
    f.lock_pid is Some && f.pid_alive && f.socket_exists && f.socket_connects
}

impl X11DisplayState {
    /// Whether this is the state of display `n` under the facts `f`.
    pub open spec fn describes(&self, n: u32, f: DisplayFacts) -> bool {
        match *self {
            X11DisplayState::Active { pid, lock_path, socket_path } => server_up(f) && Some(pid)
                == f.lock_pid && lock_path@ == lock_path_of(n) && socket_path@ == socket_path_of(n),
            X11DisplayState::Stale { stale_pid, lock_path, socket_path } => !server_up(f) && (
            f.lock_exists || f.socket_exists) && stale_pid == f.lock_pid && lock_path@
                == lock_path_of(n) && socket_path@ == socket_path_of(n),
            X11DisplayState::Free { lock_path, socket_path } => !server_up(f) && !f.lock_exists
                && !f.socket_exists && lock_path@ == lock_path_of(n) && socket_path@
                == socket_path_of(n),
        }
    }
}

pub struct X11Detector;

impl X11Detector {
    /// Paths of the lock file and the socket of a display.
    pub fn get_display_paths(display_num: u32) -> (r: (String, String))
        ensures
            r.0@ == lock_path_of(display_num),
            r.1@ == socket_path_of(display_num),
    {
        (
            numbered("/tmp/.X", display_num as u64, "-lock"),
            prefixed("/tmp/.X11-unix/X", display_num as u64),
        )
    }

    /// The state of a display, from what was found out about it.
    pub fn probe_display(display_num: u32, facts: &DisplayFacts) -> (r: X11DisplayState)
        ensures
            r.describes(display_num, *facts),
    {
        let (lock_path, socket_path) = Self::get_display_paths(display_num);
        match facts.lock_pid {
            Some(pid) => {
                if facts.pid_alive && facts.socket_exists && facts.socket_connects {
                    return X11DisplayState::Active { pid, lock_path, socket_path };
                }
            },
            None => {},
        }
        if facts.lock_exists || facts.socket_exists {
            X11DisplayState::Stale { stale_pid: facts.lock_pid, lock_path, socket_path }
        } else {
            X11DisplayState::Free { lock_path, socket_path }
        }
    }

    /// The process that a lock file names, given what the file holds; `None`
    /// where the file could not be read or holds no number.
    pub fn read_lock_pid(content: Option<&str>) -> (r: Option<u32>)
        ensures
            r == match content {
                Some(s) => match numeral::parsed(text::trimmed(s@), u32::MAX as nat) {
                    Some(n) => Some(n as u32),
                    None => None,
                },
                None => None,
            },
    {
        match content {
            Some(s) => parse_unsigned(trim(s).as_slice(), u32::MAX),
            None => None,
        }
    }

    /// The number under which the system is asked whether a process lives;
    /// `None` for zero, which is no process.
    pub fn pid_to_probe(pid: u32) -> (r: Option<i32>)
        ensures
            r == if pid == 0 {
                None
            } else {
                Some(pid as i32)
            },
    {
        if pid == 0 {
            None
        } else {
            Some(pid as i32)
        }
    }

    /// The files to remove before a server can start on the display: those of
    /// a stale one.
    pub fn purge_stale(state: &X11DisplayState) -> (r: Vec<String>)
        ensures
            text::texts(r@) == match *state {
                X11DisplayState::Stale { lock_path, socket_path, .. } => seq![
                    lock_path@,
                    socket_path@,
                ],
                _ => Seq::empty(),
            },
    {
        let mut r: Vec<String> = Vec::new();
        match state {
            X11DisplayState::Stale { lock_path, socket_path, .. } => {
                r.push(lock_path.clone());
                r.push(socket_path.clone());
                assert(text::texts(r@) =~= seq![lock_path@, socket_path@]);
            },
            _ => {
                assert(text::texts(r@) =~= Seq::empty());
            },
        }
        r
    }
}

/// A lock file that holds the numeral of a process, with or without white
/// space around it, names that process.
pub proof fn law_lock_file_names_its_process(pid: u32, before: Seq<char>, after: Seq<char>)
    requires
        text::is_blank(before),
        text::is_blank(after),
    ensures
        numeral::parsed(
            text::trimmed(before + numeral::decimal(pid as nat) + after),
            u32::MAX as nat,
        ) == Some(pid as nat),
{
    let d = numeral::decimal(pid as nat);
    numeral::lemma_decimal(pid as nat);
    assert(numeral::is_digit(d[0]) && numeral::is_digit(d[d.len() - 1]));
    text::law_trimming_keeps_the_text(before, d, after);
    numeral::law_numeral_round_trip(pid as nat, u32::MAX as nat);
}

/// A display counts as in use only if the process named in its lock file lives
/// and its socket is there and answers; as free only if neither file is there;
/// and as stale in every other case. Each display has files of its own.
pub proof fn law_states_of_a_display(state: X11DisplayState, n: u32, f: DisplayFacts)
    requires
        state.describes(n, f),
    ensures
        (state is Active) == (f.lock_pid is Some && f.pid_alive && f.socket_exists
            && f.socket_connects),
        state matches X11DisplayState::Active { pid, .. } ==> f.lock_pid == Some(pid),
        (state is Free) ==> !f.lock_exists && !f.socket_exists,
        (state is Stale) ==> f.lock_exists || f.socket_exists,
        state matches X11DisplayState::Stale { stale_pid, .. } ==> stale_pid == f.lock_pid,
{
}

/// Two displays never share a lock file or a socket.
pub proof fn law_displays_have_files_of_their_own(m: u32, n: u32)
    requires
        m != n,
    ensures
        lock_path_of(m) != lock_path_of(n),
        socket_path_of(m) != socket_path_of(n),
{
    let a = numeral::decimal(m as nat);
    let b = numeral::decimal(n as nat);
    numeral::lemma_decimal(m as nat);
    numeral::lemma_decimal(n as nat);
    let head = "/tmp/.X"@;
    let tail = "-lock"@;
    if lock_path_of(m) == lock_path_of(n) {
        let s = head + a + tail;
        let t = head + b + tail;
        assert(s.len() == t.len());
        assert(s.subrange(head.len() as int, (head.len() + a.len()) as int) =~= a);
        assert(t.subrange(head.len() as int, (head.len() + b.len()) as int) =~= b);
    }
    let socket = "/tmp/.X11-unix/X"@;
    if socket_path_of(m) == socket_path_of(n) {
        assert((socket + a).skip(socket.len() as int) =~= a);
        assert((socket + b).skip(socket.len() as int) =~= b);
    }
}

} // verus!
