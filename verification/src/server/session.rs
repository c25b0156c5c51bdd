//! One display with its servers.

use crate::config::AppConfig;
use crate::display::framebuffer;
use crate::display::VirtualDisplay;
use crate::input::keyboard;
use crate::input::mouse::MouseState;
use crate::input::InputRouter;
use crate::numeral;
use crate::numeral::prefixed;
use crate::text;
use vstd::prelude::*;

verus! {

/// What a display is run with.
#[derive(Debug)]
pub struct SessionConfig {
    pub display_num: u32,
    pub width: u32,
    pub height: u32,
    pub rfb_port: u16,
    pub ws_port: Option<u16>,
    pub auth_token: Option<String>,
    pub mode: String,
}

/// Something that happened to a session.
#[derive(Debug)]
pub enum SessionEvent {
    ClientConnected { session_id: u64, display_num: u32, peer_addr: String },
    ClientDisconnected { session_id: u64, display_num: u32, peer_addr: String },
    Terminated { display_num: u32 },
}

/// How the X server of a session is run.
#[derive(Debug)]
pub struct X11Launch {
    pub manage_x11: bool,
    pub xvfb_path: Option<String>,
    pub xvfb_args: Option<Vec<String>>,
}

/// What a session listens on, and under which name.
#[derive(Debug)]
pub struct SessionPlan {
    pub desktop_name: String,
    pub tcp_addr: String,
    pub ws_addr: Option<String>,
}

/// A display with the input that goes to it.
pub struct DisplaySession {
    pub config: SessionConfig,
    pub display: VirtualDisplay,
    pub input_router: InputRouter,
    pub launch: X11Launch,
    /// Capture rate at the start, in frames per second.
    pub capture_fps: u32,
}

/// The text in an optional string.
pub open spec fn text_in(s: Option<String>) -> Option<Seq<char>> {
    match s {
        Some(t) => Some(t@),
        None => None,
    }
}

fn copy_text(s: &Option<String>) -> (r: Option<String>)
    ensures
        text_in(r) == text_in(*s),
{
    match s {
        Some(t) => Some(t.clone()),
        None => None,
    }
}

fn copy_texts(v: &Option<Vec<String>>) -> (r: Option<Vec<String>>)
    ensures
        crate::config::optional_texts(r) == crate::config::optional_texts(*v),
{
    match v {
        Some(texts) => {
            let mut copy: Vec<String> = Vec::new();
            let mut i: usize = 0;
            while i < texts.len()
                invariant
                    i <= texts@.len(),
                    copy@.len() == i,
                    forall|j: int| 0 <= j < i ==> #[trigger] copy@[j]@ == texts@[j]@,
                decreases texts@.len() - i,
            {
                copy.push(texts[i].clone());
                i = i + 1;
            }
            assert(text::texts(copy@) =~= text::texts(texts@));
            Some(copy)
        },
        None => None,
    }
}

impl DisplaySession {
    /// Whether the display is new and as the configuration says, and nothing
    /// was put in yet.
    pub open spec fn fresh(&self) -> bool {
        &&& self.display.starts(
            self.config.display_num,
            self.config.width,
            self.config.height,
            self.config.mode@,
        )
        &&& self.input_router.mouse.state == (MouseState { x: 0, y: 0, button_mask: 0 })
        &&& self.input_router.keyboard.modifiers == keyboard::no_modifiers()
        &&& self.input_router.clipboard.text@ == Seq::<char>::empty()
    }

    /// A session with the usual X server, captured at 60 frames per second.
    pub fn new(config: SessionConfig) -> (r: Self)
        requires
            framebuffer::size_supported(config.width, config.height),
        ensures
            r.config == config,
            r.fresh(),
            r.launch == (X11Launch { manage_x11: true, xvfb_path: None, xvfb_args: None }),
            r.capture_fps == 60,
    {
        let display = VirtualDisplay::new(
            config.display_num,
            config.width,
            config.height,
            config.mode.as_str(),
        );
        DisplaySession {
            config,
            display,
            input_router: InputRouter::new(),
            launch: X11Launch { manage_x11: true, xvfb_path: None, xvfb_args: None },
            capture_fps: 60,
        }
    }

    /// The session of a display that is run on its own.
    pub fn from_app_config(app: &AppConfig) -> (r: Self)
        requires
            framebuffer::size_supported(app.width, app.height),
        ensures
            r.fresh(),
            r.config.display_num == app.display_num,
            r.config.width == app.width,
            r.config.height == app.height,
            r.config.rfb_port == app.rfb_port,
            r.config.ws_port == app.ws_port,
            text_in(r.config.auth_token) == text_in(app.auth_token),
            r.config.mode@ == app.mode@,
            r.launch.manage_x11 == app.manage_x11,
            text_in(r.launch.xvfb_path) == Some(app.xvfb_path@),
            crate::config::optional_texts(r.launch.xvfb_args) == crate::config::optional_texts(
                app.xvfb_args,
            ),
            r.capture_fps == app.fps,
    {
        let config = SessionConfig {
            display_num: app.display_num,
            width: app.width,
            height: app.height,
            rfb_port: app.rfb_port,
            ws_port: app.ws_port,
            auth_token: copy_text(&app.auth_token),
            mode: app.mode.clone(),
        };
        let mut session = DisplaySession::new(config);
        session.launch = X11Launch {
            manage_x11: app.manage_x11,
            xvfb_path: Some(app.xvfb_path.clone()),
            xvfb_args: copy_texts(&app.xvfb_args),
        };
        session.capture_fps = app.fps;
        session
    }

    /// What the session listens on: its ports, on every interface.
    pub fn plan(&self) -> (r: SessionPlan)
        ensures
            r.desktop_name@ == "CloakBrowser Display :"@ + numeral::decimal(
                self.config.display_num as nat,
            ),
            r.tcp_addr@ == "0.0.0.0:"@ + numeral::decimal(self.config.rfb_port as nat),
            text_in(r.ws_addr) == match self.config.ws_port {
                Some(port) => Some("0.0.0.0:"@ + numeral::decimal(port as nat)),
                None => None,
            },
    {
        SessionPlan {
            desktop_name: prefixed("CloakBrowser Display :", self.config.display_num as u64),
            tcp_addr: prefixed("0.0.0.0:", self.config.rfb_port as u64),
            ws_addr: match self.config.ws_port {
                Some(port) => Some(prefixed("0.0.0.0:", port as u64)),
                None => None,
            },
        }
    }

    /// The event that tells that the session has stopped.
    pub fn terminated(&self) -> (r: SessionEvent)
        ensures
            r == (SessionEvent::Terminated { display_num: self.config.display_num }),
    {
        SessionEvent::Terminated { display_num: self.config.display_num }
    }
}

} // verus!
