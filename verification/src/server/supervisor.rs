//! Several displays under one control socket: what each command does to the
//! displays that run, and how it is answered.

use crate::numeral;
use crate::numeral::numbered;
use crate::rfb::engine;
use crate::rfb::engine::clamp_live_fps;
use crate::server::session;
use crate::server::session::{SessionConfig, SessionEvent};
use crate::text;
use crate::text::{joined, string_of, trim};
use std::collections::HashMap;
use vstd::prelude::*;

verus! {

/// What is told about a display.
#[derive(Debug)]
pub struct DisplayInfo {
    pub display_num: u32,
    pub width: u32,
    pub height: u32,
    pub rfb_port: u16,
    pub ws_port: Option<u16>,
    pub mode: String,
}

/// A command to the supervisor.
#[derive(Debug)]
pub enum SupervisorCommand {
    Create {
        display_num: u32,
        width: u32,
        height: u32,
        rfb_port: Option<u16>,
        ws_port: Option<u16>,
        token: Option<String>,
        mode: Option<String>,
    },
    Stop { display_num: u32 },
    List,
    Get { display_num: u32 },
    InjectText { display_num: u32, text: String },
    SetClipboard { display_num: u32, text: String },
    SetFps { display_num: u32, fps: u32 },
}

/// The answer to a command.
#[derive(Debug)]
pub struct SupervisorResponse {
    pub success: bool,
    pub message: Option<String>,
    pub displays: Option<Vec<DisplayInfo>>,
    pub display: Option<DisplayInfo>,
}

/// What has to be done to a session before the answer is sent.
#[derive(Debug)]
pub enum SupervisorEffect {
    Nothing,
    Stop(u32),
    InjectText(u32, String),
    SetClipboard(u32, String),
    /// Set the capture rate.
    SetFps(u32, u32),
}

/// What a command leads to.
#[derive(Debug)]
pub enum SupervisorStep {
    /// Start this session, then report it with `created` or `start_failed`.
    Start(SessionConfig),
    /// Do this, then send the answer.
    Reply(SupervisorEffect, SupervisorResponse),
}

/// The supervisor: which displays run, and how they are run.
#[derive(Debug)]
pub struct DisplaySupervisor {
    pub base_vnc_port: u16,
    pub control_socket_path: String,
    pub displays: HashMap<u32, SessionConfig>,
}

impl DisplayInfo {
    /// Whether this tells what `config` says.
    pub open spec fn tells(&self, config: SessionConfig) -> bool {
        &&& self.display_num == config.display_num
        &&& self.width == config.width
        &&& self.height == config.height
        &&& self.rfb_port == config.rfb_port
        &&& self.ws_port == config.ws_port
        &&& self.mode@ == config.mode@
    }

    fn of(config: &SessionConfig) -> (r: Self)
        ensures
            r.tells(*config),
    {
        DisplayInfo {
            display_num: config.display_num,
            width: config.width,
            height: config.height,
            rfb_port: config.rfb_port,
            ws_port: config.ws_port,
            mode: config.mode.clone(),
        }
    }
}

impl SupervisorResponse {
    /// Whether this is an answer with a message, if any, and nothing else.
    pub open spec fn says(&self, success: bool, message: Option<Seq<char>>) -> bool {
        &&& self.success == success
        &&& session::text_in(self.message) == message
        &&& self.displays is None
        &&& self.display is None
    }

    fn with_message(success: bool, message: String) -> (r: Self)
        ensures
            r.says(success, Some(message@)),
    {
        SupervisorResponse { success, message: Some(message), displays: None, display: None }
    }
}

/// Whether `list` tells of each display in `m` once, and of no other.
pub open spec fn lists(list: Seq<DisplayInfo>, m: Map<u32, SessionConfig>) -> bool {
    &&& list.len() == m.dom().len()
    &&& forall|i: int|
        0 <= i < list.len() ==> m.dom().contains((#[trigger] list[i]).display_num)
            && list[i].tells(m[list[i].display_num])
    &&& forall|i: int, j: int|
        0 <= i < j < list.len() ==> (#[trigger] list[i]).display_num != (
        #[trigger] list[j]).display_num
    &&& forall|n: u32| #[trigger] m.dom().contains(n) ==> is_listed(list, n)
}

/// Whether `list` tells of display `n`.
pub open spec fn is_listed(list: Seq<DisplayInfo>, n: u32) -> bool {
    exists|i: int| 0 <= i < list.len() && (#[trigger] list[i]).display_num == n
}

/// Whether `n` is among the numbers from position `from` on.
pub open spec fn is_awaited(numbers: Seq<&u32>, from: int, n: u32) -> bool {
    exists|i: int| from <= i < numbers.len() && *(#[trigger] numbers[i]) == n
}

/// The session that a request for a display asks for: the port follows from
/// the display's number unless it is given, and the mode is hybrid.
pub open spec fn is_session_for(
    config: SessionConfig,
    base_vnc_port: u16,
    display_num: u32,
    width: u32,
    height: u32,
    rfb_port: Option<u16>,
    ws_port: Option<u16>,
    token: Option<String>,
    mode: Option<String>,
) -> bool {
    &&& config.display_num == display_num
    &&& config.width == width
    &&& config.height == height
    &&& config.rfb_port == match rfb_port {
        Some(port) => port,
        None => base_vnc_port.wrapping_add((display_num % 100) as u16),
    }
    &&& config.ws_port == ws_port
    &&& config.auth_token == token
    &&& config.mode@ == match mode {
        Some(m) => m@,
        None => "hybrid"@,
    }
}

/// "Display :", the number, and what happened.
pub open spec fn display_message(display_num: u32, what: Seq<char>) -> Seq<char> {
    "Display :"@ + numeral::decimal(display_num as nat) + what
}

impl SupervisorStep {
    /// Whether this is the answer that the display asked about does not run.
    pub open spec fn is_not_found(&self) -> bool {
        *self matches SupervisorStep::Reply(e, r) && e is Nothing && r.says(
            false,
            Some("Display not found"@),
        )
    }

    /// Whether this is what a command leads to, given the displays that run.
    pub open spec fn suits(
        &self,
        cmd: SupervisorCommand,
        base_vnc_port: u16,
        m: Map<u32, SessionConfig>,
    ) -> bool {
        match cmd {
            SupervisorCommand::Create {
                display_num,
                width,
                height,
                rfb_port,
                ws_port,
                token,
                mode,
            } => *self matches SupervisorStep::Start(config) && is_session_for(
                config,
                base_vnc_port,
                display_num,
                width,
                height,
                rfb_port,
                ws_port,
                token,
                mode,
            ),
            SupervisorCommand::Stop { display_num } => if m.dom().contains(display_num) {
                *self matches SupervisorStep::Reply(e, r) && e == SupervisorEffect::Stop(
                    display_num,
                ) && r.says(true, Some(display_message(display_num, " stopped"@)))
            } else {
                *self matches SupervisorStep::Reply(e, r) && e is Nothing && r.says(
                    false,
                    Some(display_message(display_num, " not found"@)),
                )
            },
            SupervisorCommand::List => *self matches SupervisorStep::Reply(e, r) && e is Nothing
                && r.success && r.message is None && r.display is None && r.displays is Some
                && lists(r.displays->0@, m),
            SupervisorCommand::Get { display_num } => if m.dom().contains(display_num) {
                *self matches SupervisorStep::Reply(e, r) && e is Nothing && r.success
                    && r.message is None && r.displays is None && r.display is Some
                    && r.display->0.tells(m[display_num])
            } else {
                self.is_not_found()
            },
            SupervisorCommand::InjectText { display_num, text } => if m.dom().contains(
                display_num,
            ) {
                *self matches SupervisorStep::Reply(e, r) && e == SupervisorEffect::InjectText(
                    display_num,
                    text,
                ) && r.says(true, Some("Text injected"@))
            } else {
                self.is_not_found()
            },
            SupervisorCommand::SetClipboard { display_num, text } => if m.dom().contains(
                display_num,
            ) {
                *self matches SupervisorStep::Reply(e, r) && e == SupervisorEffect::SetClipboard(
                    display_num,
                    text,
                ) && r.says(true, Some("Clipboard updated"@))
            } else {
                self.is_not_found()
            },
            SupervisorCommand::SetFps { display_num, fps } => if m.dom().contains(display_num) {
                *self matches SupervisorStep::Reply(e, r) && e == SupervisorEffect::SetFps(
                    display_num,
                    engine::clamped_fps(fps as int) as u32,
                ) && r.says(true, Some("FPS updated"@))
            } else {
                self.is_not_found()
            },
        }
    }
}

/// The displays that run after a command, before anything was started.
pub open spec fn displays_after(m: Map<u32, SessionConfig>, cmd: SupervisorCommand) -> Map<
    u32,
    SessionConfig,
> {
    match cmd {
        SupervisorCommand::Stop { display_num } => m.remove(display_num),
        _ => m,
    }
}

/// The displays that run after an event of a session.
pub open spec fn displays_after_event(m: Map<u32, SessionConfig>, event: SessionEvent) -> Map<
    u32,
    SessionConfig,
> {
    match event {
        SessionEvent::Terminated { display_num } => m.remove(display_num),
        _ => m,
    }
}

impl DisplaySupervisor {
    /// Each display is kept under its own number.
    pub open spec fn wf(&self) -> bool {
        forall|n: u32|
            #[trigger] self.displays@.dom().contains(n) ==> self.displays@[n].display_num == n
    }

    /// No display runs.
    pub fn new(base_vnc_port: u16, control_socket_path: String) -> (r: Self)
        ensures
            r.wf(),
            r.base_vnc_port == base_vnc_port,
            r.control_socket_path == control_socket_path,
            r.displays@ == Map::<u32, SessionConfig>::empty(),
    {
        DisplaySupervisor { base_vnc_port, control_socket_path, displays: HashMap::new() }
    }

    /// Registers a display that was started; one of the same number is
    /// replaced.
    pub fn create_display(&mut self, config: SessionConfig)
        requires
            old(self).wf(),
        ensures
            final(self).wf(),
            final(self).displays@ == old(self).displays@.insert(config.display_num, config),
            final(self).base_vnc_port == old(self).base_vnc_port,
            final(self).control_socket_path == old(self).control_socket_path,
    {
        let n: u32 = config.display_num;
        self.displays.insert(n, config);
    }

    /// Takes a display off the register. Returns whether it ran.
    pub fn stop_display(&mut self, display_num: u32) -> (ran: bool)
        requires
            old(self).wf(),
        ensures
            final(self).wf(),
            ran == old(self).displays@.dom().contains(display_num),
            final(self).displays@ == old(self).displays@.remove(display_num),
            final(self).base_vnc_port == old(self).base_vnc_port,
            final(self).control_socket_path == old(self).control_socket_path,
    {
        let before = self.displays.remove(&display_num);
        match before {
            Some(_) => true,
            None => {
                assert(self.displays@ =~= old(self).displays@.remove(display_num));
                false
            },
        }
    }

    /// What is told about all displays that run, in any order.
    pub fn list_displays(&self) -> (list: Vec<DisplayInfo>)
        requires
            self.wf(),
        ensures
            lists(list@, self.displays@),
    {
        let mut list: Vec<DisplayInfo> = Vec::new();
        for n in it: self.displays.keys()
            invariant
                self.wf(),
                it.seq().unref().to_set() == self.displays@.dom(),
                it.seq().no_duplicates(),
                it.seq().len() == self.displays@.dom().len(),
                it.index() <= it.seq().len(),
                list@.len() == it.index(),
                forall|i: int|
                    0 <= i < list@.len() ==> (#[trigger] list@[i]).display_num == *it.seq()[i]
                        && self.displays@.dom().contains(list@[i].display_num)
                        && list@[i].tells(self.displays@[list@[i].display_num]),
                forall|k: u32|
                    #[trigger]
                    self.displays@.dom().contains(k) ==> is_listed(list@, k) || is_awaited(
                        it.seq(),
                        it.index(),
                        k,
                    ),
        {
            proof {
                let s = it.seq().unref();
                assert(s[it.index()] == *n);
                assert(s.to_set().contains(*n));
            }
            let ghost before = list@;
            match self.displays.get(n) {
                Some(config) => {
                    list.push(DisplayInfo::of(config));
                },
                None => {},
            }
            assert forall|k: u32| #[trigger] self.displays@.dom().contains(k) implies is_listed(
                list@,
                k,
            ) || is_awaited(it.seq(), it.index() + 1, k) by {
                if is_listed(before, k) {
                    let i = choose|i: int|
                        0 <= i < before.len() && (#[trigger] before[i]).display_num == k;
                    assert(list@[i].display_num == k);
                } else {
                    let i = choose|i: int|
                        it.index() <= i < it.seq().len() && *(#[trigger] it.seq()[i]) == k;
                    if i == it.index() {
                        assert(list@[before.len() as int].display_num == k);
                    }
                }
            }
        }
        list
    }

    /// Takes a command. The displays that run change only by `Stop`; one that
    /// is to be created is registered once it was started.
    pub fn handle_command(&mut self, cmd: SupervisorCommand) -> (step: SupervisorStep)
        requires
            old(self).wf(),
        ensures
            final(self).wf(),
            step.suits(cmd, old(self).base_vnc_port, old(self).displays@),
            final(self).displays@ == displays_after(old(self).displays@, cmd),
            final(self).base_vnc_port == old(self).base_vnc_port,
            final(self).control_socket_path == old(self).control_socket_path,
    {
        match cmd {
            SupervisorCommand::Create {
                display_num,
                width,
                height,
                rfb_port,
                ws_port,
                token,
                mode,
            } => {
                let port: u16 = match rfb_port {
                    Some(p) => p,
                    None => self.base_vnc_port.wrapping_add((display_num % 100) as u16),
                };
                let mode = match mode {
                    Some(m) => m,
                    None => "hybrid".to_owned(),
                };
                SupervisorStep::Start(
                    SessionConfig {
                        display_num,
                        width,
                        height,
                        rfb_port: port,
                        ws_port,
                        auth_token: token,
                        mode,
                    },
                )
            },
            SupervisorCommand::Stop { display_num } => {
                if self.stop_display(display_num) {
                    let message = numbered("Display :", display_num as u64, " stopped");
                    SupervisorStep::Reply(
                        SupervisorEffect::Stop(display_num),
                        SupervisorResponse::with_message(true, message),
                    )
                } else {
                    let message = numbered("Display :", display_num as u64, " not found");
                    SupervisorStep::Reply(
                        SupervisorEffect::Nothing,
                        SupervisorResponse::with_message(false, message),
                    )
                }
            },
            SupervisorCommand::List => {
                let list = self.list_displays();
                SupervisorStep::Reply(
                    SupervisorEffect::Nothing,
                    SupervisorResponse {
                        success: true,
                        message: None,
                        displays: Some(list),
                        display: None,
                    },
                )
            },
            SupervisorCommand::Get { display_num } => {
                match self.displays.get(&display_num) {
                    Some(config) => SupervisorStep::Reply(
                        SupervisorEffect::Nothing,
                        SupervisorResponse {
                            success: true,
                            message: None,
                            displays: None,
                            display: Some(DisplayInfo::of(config)),
                        },
                    ),
                    None => not_found(),
                }
            },
            SupervisorCommand::InjectText { display_num, text } => {
                if self.displays.contains_key(&display_num) {
                    SupervisorStep::Reply(
                        SupervisorEffect::InjectText(display_num, text),
                        SupervisorResponse::with_message(true, "Text injected".to_owned()),
                    )
                } else {
                    not_found()
                }
            },
            SupervisorCommand::SetClipboard { display_num, text } => {
                if self.displays.contains_key(&display_num) {
                    SupervisorStep::Reply(
                        SupervisorEffect::SetClipboard(display_num, text),
                        SupervisorResponse::with_message(true, "Clipboard updated".to_owned()),
                    )
                } else {
                    not_found()
                }
            },
            SupervisorCommand::SetFps { display_num, fps } => {
                if self.displays.contains_key(&display_num) {
                    SupervisorStep::Reply(
                        SupervisorEffect::SetFps(display_num, clamp_live_fps(fps)),
                        SupervisorResponse::with_message(true, "FPS updated".to_owned()),
                    )
                } else {
                    not_found()
                }
            },
        }
    }

    /// A session that a command asked for was started: it is registered, and
    /// the command answered.
    pub fn created(&mut self, config: SessionConfig) -> (r: SupervisorResponse)
        requires
            old(self).wf(),
        ensures
            final(self).wf(),
            final(self).displays@ == old(self).displays@.insert(config.display_num, config),
            final(self).base_vnc_port == old(self).base_vnc_port,
            final(self).control_socket_path == old(self).control_socket_path,
            r.success,
            session::text_in(r.message) == Some(
                display_message(config.display_num, " created"@),
            ),
            r.displays is None,
            r.display is Some,
            r.display->0.tells(config),
    {
        let info = DisplayInfo::of(&config);
        let message = numbered("Display :", config.display_num as u64, " created");
        self.create_display(config);
        SupervisorResponse {
            success: true,
            message: Some(message),
            displays: None,
            display: Some(info),
        }
    }

    /// The answer where a session could not be started.
    pub fn start_failed(reason: &str) -> (r: SupervisorResponse)
        ensures
            r.says(false, Some("Failed to start display: "@ + reason@)),
    {
        SupervisorResponse::with_message(false, joined("Failed to start display: ", reason))
    }

    /// The answer to a line that is no command.
    pub fn invalid_payload(reason: &str) -> (r: SupervisorResponse)
        ensures
            r.says(false, Some("Invalid command payload: "@ + reason@)),
    {
        SupervisorResponse::with_message(false, joined("Invalid command payload: ", reason))
    }

    /// Takes an event of a session in: one that has ended no longer runs.
    pub fn handle_event(&mut self, event: &SessionEvent)
        requires
            old(self).wf(),
        ensures
            final(self).wf(),
            final(self).displays@ == displays_after_event(old(self).displays@, *event),
            final(self).base_vnc_port == old(self).base_vnc_port,
            final(self).control_socket_path == old(self).control_socket_path,
    {
        match event {
            SessionEvent::Terminated { display_num } => {
                self.stop_display(*display_num);
            },
            _ => {},
        }
    }
}

fn not_found() -> (r: SupervisorStep)
    ensures
        r.is_not_found(),
{
    SupervisorStep::Reply(
        SupervisorEffect::Nothing,
        SupervisorResponse::with_message(false, "Display not found".to_owned()),
    )
}

/// A display that was created is found: asked about, the supervisor tells what
/// it was created with.
pub proof fn law_created_display_is_found(
    m: Map<u32, SessionConfig>,
    config: SessionConfig,
    base_vnc_port: u16,
    step: SupervisorStep,
)
    requires
        step.suits(
            (SupervisorCommand::Get { display_num: config.display_num }),
            base_vnc_port,
            m.insert(config.display_num, config),
        ),
    ensures
        step matches SupervisorStep::Reply(e, r) && r.success && r.display is Some
            && r.display->0.tells(config),
{
}

/// A display that was stopped is gone: stopping it again, or asking about it,
/// fails.
pub proof fn law_stopped_display_is_gone(
    m: Map<u32, SessionConfig>,
    display_num: u32,
    base_vnc_port: u16,
    again: SupervisorStep,
    get: SupervisorStep,
)
    requires
        ({
            let left = displays_after(m, SupervisorCommand::Stop { display_num });
            &&& again.suits((SupervisorCommand::Stop { display_num }), base_vnc_port, left)
            &&& get.suits((SupervisorCommand::Get { display_num }), base_vnc_port, left)
        }),
    ensures
        again matches SupervisorStep::Reply(e, r) && e is Nothing && !r.success,
        get.is_not_found(),
{
}

/// The end of one display leaves the others alone.
pub proof fn law_other_displays_are_left_alone(
    m: Map<u32, SessionConfig>,
    stopped: u32,
    other: u32,
)
    requires
        stopped != other,
    ensures
        displays_after(m, SupervisorCommand::Stop { display_num: stopped }).dom().contains(other)
            == m.dom().contains(other),
        m.dom().contains(other) ==> displays_after(
            m,
            SupervisorCommand::Stop { display_num: stopped },
        )[other] == m[other],
{
}

/// The command in a line, without the white space around it; `None` for an
/// empty line, which is passed over.
pub fn command_payload(line: &str) -> (r: Option<String>)
    ensures
        session::text_in(r) == if text::trimmed(line@).len() == 0 {
            None
        } else {
            Some(text::trimmed(line@))
        },
{
    let payload = trim(line);
    if payload.len() == 0 {
        None
    } else {
        Some(string_of(payload.as_slice()))
    }
}

/// An answer as it is sent: one line.
pub fn framed(answer: &str) -> (r: String)
    ensures
        r@ == answer@ + "\n"@,
{
    joined(answer, "\n")
}

/// A display is created as it was asked for: with its number, size, WebSocket port
/// and token; on the port given, or the base port and the last two digits of its
/// number on top, as long as that is a port; in the mode given, or as a hybrid.
pub proof fn law_display_is_created_as_asked(
    config: SessionConfig,
    base: u16,
    n: u32,
    width: u32,
    height: u32,
    rfb_port: Option<u16>,
    ws_port: Option<u16>,
    token: Option<String>,
    mode: Option<String>,
)
    requires
        is_session_for(config, base, n, width, height, rfb_port, ws_port, token, mode),
    ensures
        config.display_num == n && config.width == width && config.height == height,
        config.ws_port == ws_port && config.auth_token == token,
        rfb_port matches Some(port) ==> config.rfb_port == port,
        rfb_port is None && base + n % 100 <= 65535 ==> config.rfb_port == base + n % 100,
        mode matches Some(m) ==> config.mode@ == m@,
        mode is None ==> config.mode@ == "hybrid"@,
{
}

/// Commands to a display that runs reach that display with what they carry, and
/// are answered with success; to one that does not, they do nothing and are
/// answered with failure.
pub proof fn law_commands_reach_their_display(
    step: SupervisorStep,
    cmd: SupervisorCommand,
    base: u16,
    m: Map<u32, SessionConfig>,
)
    requires
        step.suits(cmd, base, m),
    ensures
        cmd matches SupervisorCommand::Stop { display_num: n } ==> {
            &&& step matches SupervisorStep::Reply(e, r)
            &&& r.success == m.dom().contains(n)
            &&& r.success ==> e == SupervisorEffect::Stop(n)
            &&& !r.success ==> e is Nothing
        },
        cmd matches SupervisorCommand::InjectText { display_num: n, text } ==> {
            &&& step matches SupervisorStep::Reply(e, r)
            &&& r.success == m.dom().contains(n)
            &&& r.success ==> e == SupervisorEffect::InjectText(n, text)
            &&& !r.success ==> e is Nothing
        },
        cmd matches SupervisorCommand::SetClipboard { display_num: n, text } ==> {
            &&& step matches SupervisorStep::Reply(e, r)
            &&& r.success == m.dom().contains(n)
            &&& r.success ==> e == SupervisorEffect::SetClipboard(n, text)
            &&& !r.success ==> e is Nothing
        },
        cmd matches SupervisorCommand::SetFps { display_num: n, fps } ==> {
            &&& step matches SupervisorStep::Reply(e, r)
            &&& r.success == m.dom().contains(n)
            &&& r.success ==> (e matches SupervisorEffect::SetFps(d, rate) && d == n && 1 <= rate
                <= 30 && (1 <= fps <= 30 ==> rate == fps))
            &&& !r.success ==> e is Nothing
        },
        cmd matches SupervisorCommand::Get { display_num: n } ==> {
            &&& step matches SupervisorStep::Reply(e, r)
            &&& e is Nothing
            &&& r.success == m.dom().contains(n)
            &&& r.success ==> (r.display matches Some(d) && d.tells(m[n]))
            &&& !r.success ==> r.display is None
        },
        cmd is List ==> {
            &&& step matches SupervisorStep::Reply(e, r)
            &&& e is Nothing
            &&& r.success
            &&& r.displays matches Some(list) && list@.len() == m.dom().len()
        },
        (step is Start) == (cmd is Create),
{
}

/// What is told about a display is how it runs.
pub proof fn law_what_is_told_about_a_display(info: DisplayInfo, config: SessionConfig)
    requires
        info.tells(config),
    ensures
        info.display_num == config.display_num,
        info.width == config.width,
        info.height == config.height,
        info.rfb_port == config.rfb_port,
        info.ws_port == config.ws_port,
        info.mode@ == config.mode@,
{
}

/// A list tells of a display exactly if it runs, and tells how it runs.
pub proof fn law_list_tells_of_all_displays(
    list: Seq<DisplayInfo>,
    m: Map<u32, SessionConfig>,
    n: u32,
)
    requires
        lists(list, m),
    ensures
        m.dom().contains(n) <==> exists|i: int|
            0 <= i < list.len() && (#[trigger] list[i]).display_num == n && list[i].tells(m[n]),
{
    if m.dom().contains(n) {
        assert(is_listed(list, n));
        let i = choose|i: int| 0 <= i < list.len() && (#[trigger] list[i]).display_num == n;
        assert(list[i].display_num == n && list[i].tells(m[n]));
    }
}

/// Only `Stop` changes which displays run, before anything was started: it takes
/// one away and leaves the others.
pub proof fn law_what_commands_change(m: Map<u32, SessionConfig>, cmd: SupervisorCommand, n: u32)
    ensures
        displays_after(m, cmd).dom().contains(n) == (m.dom().contains(n) && !(cmd
            == SupervisorCommand::Stop { display_num: n })),
        displays_after(m, cmd).dom().contains(n) ==> displays_after(m, cmd)[n] == m[n],
{
}

/// A session that has ended runs no longer, and the others do; clients that come
/// and go end no session.
pub proof fn law_ended_sessions_are_gone(
    m: Map<u32, SessionConfig>,
    event: SessionEvent,
    n: u32,
)
    ensures
        displays_after_event(m, event).dom().contains(n) == (m.dom().contains(n) && !(event
            == SessionEvent::Terminated { display_num: n })),
        displays_after_event(m, event).dom().contains(n) ==> displays_after_event(m, event)[n]
            == m[n],
{
}

} // verus!
