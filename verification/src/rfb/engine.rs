//! The course of an RFB session: the handshake, what each message of the
//! client leads to, and the updates sent in return.

use crate::buffer;
use crate::buffer::{advance, append, buffer_len, byte_at, clear};
use crate::display::framebuffer;
use crate::display::framebuffer::TileFramebuffer;
use crate::display::laws;
use crate::display::pixel;
use crate::display::pixel::PixelFormat;
use crate::display::rect::Rect;
use crate::rfb::encoder;
use crate::rfb::encoder::{
    encode_pseudo_last_rect, encode_raw_rect, encode_tight_rect, encode_zrle_rect,
};
use crate::rfb::message;
use crate::rfb::message::{
    ClientMessage, MessageView, ServerMessage, ENCODING_TIGHT, ENCODING_ZRLE,
    PSEUDO_ENCODING_CURSOR, PSEUDO_ENCODING_DESKTOP_SIZE, PSEUDO_ENCODING_LAST_RECT,
    RFB_VERSION_3_8, SECURITY_RESULT_FAILED, SECURITY_RESULT_OK, SECURITY_TYPE_NONE,
    SERVER_MSG_FRAMEBUFFER_UPDATE,
};
use crate::text;
use crate::wire;
use crate::wire::{u16_to_be, u32_to_be};
use bytes::BytesMut;
use vstd::prelude::*;

verus! {

/// Lowest capture rate that a client can set.
pub const LIVE_FPS_MIN: u32 = 1;

/// Highest capture rate that a client can set.
pub const LIVE_FPS_MAX: u32 = 30;

/// A rate asked for by a client, held within the range allowed.
pub open spec fn clamped_fps(fps: int) -> int {
    if fps < LIVE_FPS_MIN {
        LIVE_FPS_MIN as int
    } else if fps > LIVE_FPS_MAX {
        LIVE_FPS_MAX as int
    } else {
        fps
    }
}

/// Holds a rate asked for by a client within the range allowed.
pub fn clamp_live_fps(fps: u32) -> (r: u32)
    ensures
        r == clamped_fps(fps as int),
{
    if fps < LIVE_FPS_MIN {
        LIVE_FPS_MIN
    } else if fps > LIVE_FPS_MAX {
        LIVE_FPS_MAX
    } else {
        fps
    }
}

/// What the client has asked for: its pixel format, the encodings it knows,
/// and which updates it waits for.
#[derive(Debug)]
pub struct ClientState {
    pub client_format: PixelFormat,
    pub client_encodings: Vec<i32>,
    pub supports_tight: bool,
    pub supports_zrle: bool,
    pub supports_last_rect: bool,
    pub supports_desktop_size: bool,
    pub supports_cursor: bool,
    pub continuous_updates: bool,
    pub pending_update_rect: Option<Rect>,
}

/// What has to be done after a message or an event.
#[derive(Debug)]
pub enum SessionAction {
    Nothing,
    /// Send an update of the damaged tiles that touch `target`, or of all of
    /// them; of every tile where it is not incremental.
    SendUpdate { target: Option<Rect>, incremental: bool },
    Key { down: bool, key_sym: u32 },
    Pointer { button_mask: u8, x: u16, y: u16 },
    /// Put a text in the clipboard.
    CutText(String),
    /// Change the capture rate.
    SetFps(u32),
}

/// What has to be done, over mathematical values.
pub enum ActionView {
    Nothing,
    SendUpdate { target: Option<Rect>, incremental: bool },
    Key { down: bool, key_sym: u32 },
    Pointer { button_mask: u8, x: u16, y: u16 },
    CutText(Seq<char>),
    SetFps(int),
}

impl View for SessionAction {
    type V = ActionView;

    open spec fn view(&self) -> ActionView {
        match *self {
            SessionAction::Nothing => ActionView::Nothing,
            SessionAction::SendUpdate { target, incremental } => ActionView::SendUpdate {
                target,
                incremental,
            },
            SessionAction::Key { down, key_sym } => ActionView::Key { down, key_sym },
            SessionAction::Pointer { button_mask, x, y } => ActionView::Pointer {
                button_mask,
                x,
                y,
            },
            SessionAction::CutText(t) => ActionView::CutText(t@),
            SessionAction::SetFps(fps) => ActionView::SetFps(fps as int),
        }
    }
}

/// What a message leads to.
pub open spec fn action_for(m: MessageView) -> ActionView {
    match m {
        MessageView::SetPixelFormat(_) => ActionView::Nothing,
        MessageView::SetEncodings(_) => ActionView::Nothing,
        MessageView::FramebufferUpdateRequest { incremental, rect } => if incremental {
            ActionView::Nothing
        } else {
            ActionView::SendUpdate { target: Some(rect), incremental: false }
        },
        MessageView::KeyEvent { down, key_sym } => ActionView::Key { down, key_sym },
        MessageView::PointerEvent { button_mask, x, y } => ActionView::Pointer {
            button_mask,
            x,
            y,
        },
        MessageView::ClientCutText(text) => ActionView::CutText(text),
        MessageView::EnableContinuousUpdates { .. } => ActionView::Nothing,
        MessageView::SetFps(fps) => ActionView::SetFps(clamped_fps(fps as int)),
    }
}

impl ClientState {
    /// The state at the start of a session: the server's own format, no
    /// encodings but raw, nothing asked for.
    pub fn new(format: PixelFormat) -> (r: Self)
        ensures
            r.starts(format),
    {
        ClientState {
            client_format: format,
            client_encodings: Vec::new(),
            supports_tight: false,
            supports_zrle: false,
            supports_last_rect: false,
            supports_desktop_size: false,
            supports_cursor: false,
            continuous_updates: false,
            pending_update_rect: None,
        }
    }

    /// Whether `self` is what `before` becomes by message `m`.
    pub open spec fn follows(&self, before: &ClientState, m: MessageView) -> bool {
        match m {
            MessageView::SetPixelFormat(f) => *self == (ClientState {
                client_format: f,
                ..*before
            }),
            MessageView::SetEncodings(e) => *self == (ClientState {
                client_encodings: self.client_encodings,
                supports_tight: e.contains(ENCODING_TIGHT),
                supports_zrle: e.contains(ENCODING_ZRLE),
                supports_last_rect: e.contains(PSEUDO_ENCODING_LAST_RECT),
                supports_desktop_size: e.contains(PSEUDO_ENCODING_DESKTOP_SIZE),
                supports_cursor: e.contains(PSEUDO_ENCODING_CURSOR),
                ..*before
            }) && self.client_encodings@ == e,
            MessageView::FramebufferUpdateRequest { incremental, rect } => *self == (ClientState {
                pending_update_rect: if incremental {
                    Some(rect)
                } else {
                    None
                },
                ..*before
            }),
            MessageView::EnableContinuousUpdates { enable, rect } => *self == (ClientState {
                continuous_updates: enable,
                pending_update_rect: if enable {
                    Some(rect)
                } else {
                    before.pending_update_rect
                },
                ..*before
            }),
            _ => *self == *before,
        }
    }

    /// Takes a message in. An update that is not incremental is sent at once;
    /// an incremental one, or the first of continuous updates, is noted.
    pub fn handle_message(&mut self, msg: ClientMessage) -> (action: SessionAction)
        ensures
            final(self).follows(old(self), msg@),
            action@ == action_for(msg@),
    {
        match msg {
            ClientMessage::SetPixelFormat(format) => {
                self.client_format = format;
                SessionAction::Nothing
            },
            ClientMessage::SetEncodings(encodings) => {
                self.supports_tight = contains(&encodings, ENCODING_TIGHT);
                self.supports_zrle = contains(&encodings, ENCODING_ZRLE);
                self.supports_last_rect = contains(&encodings, PSEUDO_ENCODING_LAST_RECT);
                self.supports_desktop_size = contains(&encodings, PSEUDO_ENCODING_DESKTOP_SIZE);
                self.supports_cursor = contains(&encodings, PSEUDO_ENCODING_CURSOR);
                self.client_encodings = encodings;
                SessionAction::Nothing
            },
            ClientMessage::FramebufferUpdateRequest { incremental, rect } => {
                if incremental {
                    self.pending_update_rect = Some(rect);
                    SessionAction::Nothing
                } else {
                    self.pending_update_rect = None;
                    SessionAction::SendUpdate { target: Some(rect), incremental: false }
                }
            },
            ClientMessage::KeyEvent { down, key_sym } => SessionAction::Key { down, key_sym },
            ClientMessage::PointerEvent { button_mask, x, y } => SessionAction::Pointer {
                button_mask,
                x,
                y,
            },
            ClientMessage::ClientCutText(text) => SessionAction::CutText(text),
            ClientMessage::EnableContinuousUpdates { enable, rect } => {
                self.continuous_updates = enable;
                if enable {
                    self.pending_update_rect = Some(rect);
                }
                SessionAction::Nothing
            },
            ClientMessage::SetFps(fps) => SessionAction::SetFps(clamp_live_fps(fps as u32)),
        }
    }

    /// What is owed after the messages received together were all taken in.
    pub open spec fn action_when_idle(&self) -> ActionView {
        match self.pending_update_rect {
            Some(rect) => ActionView::SendUpdate { target: Some(rect), incremental: true },
            None => ActionView::Nothing,
        }
    }

    /// What is owed when the screen has changed.
    pub open spec fn action_on_damage(&self) -> ActionView {
        if self.continuous_updates || self.pending_update_rect is Some {
            ActionView::SendUpdate { target: self.pending_update_rect, incremental: true }
        } else {
            ActionView::Nothing
        }
    }

    /// After the messages received together were all taken in: an update that
    /// is still waited for is sent now.
    pub fn after_messages(&mut self) -> (action: SessionAction)
        ensures
            *final(self) == (ClientState { pending_update_rect: None, ..*old(self) }),
            action@ == old(self).action_when_idle(),
    {
        match self.pending_update_rect {
            Some(rect) => {
                self.pending_update_rect = None;
                SessionAction::SendUpdate { target: Some(rect), incremental: true }
            },
            None => SessionAction::Nothing,
        }
    }

    /// The screen has changed: an update is sent if one is waited for, or if
    /// updates are continuous.
    pub fn on_damage(&mut self) -> (action: SessionAction)
        ensures
            *final(self) == (ClientState { pending_update_rect: None, ..*old(self) }),
            action@ == old(self).action_on_damage(),
    {
        if self.continuous_updates || self.pending_update_rect.is_some() {
            let target = self.pending_update_rect;
            self.pending_update_rect = None;
            SessionAction::SendUpdate { target, incremental: true }
        } else {
            SessionAction::Nothing
        }
    }
}

fn contains(encodings: &Vec<i32>, wanted: i32) -> (r: bool)
    ensures
        r == encodings@.contains(wanted),
{
    let mut i: usize = 0;
    while i < encodings.len()
        invariant
            i <= encodings@.len(),
            forall|j: int| 0 <= j < i ==> encodings@[j] != wanted,
        decreases encodings@.len() - i,
    {
        if encodings[i] == wanted {
            assert(encodings@[i as int] == wanted);
            return true;
        }
        i = i + 1;
    }
    false
}

/// How far the handshake has come: what the client has to send next.
#[derive(Debug, Clone, Copy, PartialEq, Eq, Structural)]
pub enum Phase {
    /// The client's protocol version, twelve bytes.
    Version,
    /// The security type that the client picks, one byte.
    Security,
    /// Whether the client wants to share the desktop, one byte.
    ClientInit,
    /// The handshake is over.
    Session,
}

/// How many bytes the client has to send next.
pub open spec fn needed(phase: Phase) -> nat {
    match phase {
        Phase::Version => 12,
        Phase::Security => 1,
        Phase::ClientInit => 1,
        Phase::Session => 0,
    }
}

/// The phase after a client's answer, which starts with `first`, was taken in.
pub open spec fn phase_after(phase: Phase, first: u8) -> Phase {
    match phase {
        Phase::Version => Phase::Security,
        Phase::Security => if first == SECURITY_TYPE_NONE {
            Phase::ClientInit
        } else {
            Phase::Security
        },
        Phase::ClientInit => Phase::Session,
        Phase::Session => Phase::Session,
    }
}

/// Whether a client is turned away for an answer that starts with `first`.
pub open spec fn turns_away(phase: Phase, first: u8) -> bool {
    phase == Phase::Security && first != SECURITY_TYPE_NONE
}

/// How a handshake stands after all the bytes that a client has sent: in which
/// phase, with which bytes not yet taken in, and whether the client was turned
/// away.
pub struct Progress {
    pub phase: Phase,
    pub rest: Seq<u8>,
    pub rejected: bool,
}

/// The handshake from a phase on, as far as the bytes received reach.
pub open spec fn progress(phase: Phase, received: Seq<u8>) -> Progress
    decreases received.len(),
{
    let n = needed(phase);
    if n == 0 || received.len() < n {
        Progress { phase, rest: received, rejected: false }
    } else if turns_away(phase, received[0]) {
        Progress { phase, rest: received.skip(n as int), rejected: true }
    } else {
        progress(phase_after(phase, received[0]), received.skip(n as int))
    }
}

/// What has to be done in the handshake.
#[derive(Debug)]
pub enum HandshakeAction {
    /// Receive more bytes.
    Receive,
    /// Send these bytes and go on.
    Send(Vec<u8>),
    /// Send these bytes and close the connection.
    Reject(Vec<u8>),
    /// Send these bytes; the session starts.
    Start(Vec<u8>),
}

/// What has to be done in the handshake, over mathematical values.
pub enum HandshakeView {
    Receive,
    Send(Seq<u8>),
    Reject(Seq<u8>),
    Start(Seq<u8>),
}

impl View for HandshakeAction {
    type V = HandshakeView;

    open spec fn view(&self) -> HandshakeView {
        match *self {
            HandshakeAction::Receive => HandshakeView::Receive,
            HandshakeAction::Send(b) => HandshakeView::Send(b@),
            HandshakeAction::Reject(b) => HandshakeView::Reject(b@),
            HandshakeAction::Start(b) => HandshakeView::Start(b@),
        }
    }
}

/// One client's side of the protocol.
#[derive(Debug)]
pub struct RfbProtocolEngine {
    pub client_id: u64,
    pub peer_addr: String,
    pub desktop_name: String,
    pub auth_token: Option<String>,
    pub phase: Phase,
    pub state: ClientState,
}

impl RfbProtocolEngine {
    /// A client that has just connected.
    pub fn new(
        client_id: u64,
        peer_addr: String,
        desktop_name: String,
        auth_token: Option<String>,
    ) -> (r: Self)
        ensures
            r.client_id == client_id,
            r.peer_addr == peer_addr,
            r.desktop_name == desktop_name,
            r.auth_token == auth_token,
            r.phase == Phase::Version,
            r.state.starts(pixel::eight_bit_channels(32, 16, 0)),
    {
        RfbProtocolEngine {
            client_id,
            peer_addr,
            desktop_name,
            auth_token,
            phase: Phase::Version,
            state: ClientState::new(PixelFormat::bgra32()),
        }
    }

    /// The bytes that open the connection: the server's protocol version.
    pub fn greeting() -> (r: Vec<u8>)
        ensures
            r@ == RFB_VERSION_3_8@,
    {
        let mut r: Vec<u8> = Vec::new();
        r.extend_from_slice(RFB_VERSION_3_8.as_slice());
        assert(r@ =~= RFB_VERSION_3_8@);
        r
    }

    /// What the handshake does next, given the first byte received.
    pub open spec fn answer(
        &self,
        first: u8,
        width: u32,
        height: u32,
        format: PixelFormat,
    ) -> HandshakeView {
        match self.phase {
            Phase::Version => HandshakeView::Send(seq![1u8, SECURITY_TYPE_NONE]),
            Phase::Security => if first == SECURITY_TYPE_NONE {
                HandshakeView::Send(wire::be32(SECURITY_RESULT_OK))
            } else {
                HandshakeView::Reject(wire::be32(SECURITY_RESULT_FAILED))
            },
            Phase::ClientInit => HandshakeView::Start(
                message::server_init_bytes(
                    width as u16,
                    height as u16,
                    format,
                    vstd::utf8::encode_utf8(self.desktop_name@),
                ),
            ),
            Phase::Session => HandshakeView::Receive,
        }
    }

    /// Goes on with the handshake as far as one answer of the client. Any
    /// version is taken; any security type but "none" is refused. The session
    /// starts with the framebuffer's own format.
    pub fn handshake(
        &mut self,
        staging: &mut BytesMut,
        width: u32,
        height: u32,
        format: &PixelFormat,
    ) -> (action: HandshakeAction)
        requires
            old(self).phase != Phase::Session,
        ensures
            ({
                let received = buffer::contents(*old(staging));
                let n = needed(old(self).phase);
                if received.len() < n {
                    &&& action@ == HandshakeView::Receive
                    &&& *final(self) == *old(self)
                    &&& buffer::contents(*final(staging)) == received
                } else {
                    &&& action@ == old(self).answer(received[0], width, height, *format)
                    &&& final(self).phase == phase_after(old(self).phase, received[0])
                    &&& *final(self) == (RfbProtocolEngine {
                        phase: final(self).phase,
                        state: final(self).state,
                        ..*old(self)
                    })
                    &&& old(self).phase != Phase::ClientInit ==> final(self).state
                        == old(self).state
                    &&& old(self).phase == Phase::ClientInit ==> final(self).state.starts(*format)
                    &&& buffer::contents(*final(staging)) == received.skip(n as int)
                }
            }),
    {
        let n: usize = match self.phase {
            Phase::Version => 12,
            _ => 1,
        };
        if buffer_len(staging) < n {
            return HandshakeAction::Receive;
        }
        let first: u8 = byte_at(staging, 0);
        advance(staging, n);
        let mut bytes: Vec<u8> = Vec::new();
        match self.phase {
            Phase::Version => {
                bytes.push(1);
                bytes.push(SECURITY_TYPE_NONE);
                self.phase = Phase::Security;
                assert(bytes@ =~= seq![1u8, SECURITY_TYPE_NONE]);
                HandshakeAction::Send(bytes)
            },
            Phase::Security => {
                if first == SECURITY_TYPE_NONE {
                    bytes.extend_from_slice(u32_to_be(SECURITY_RESULT_OK).as_slice());
                    self.phase = Phase::ClientInit;
                    assert(bytes@ =~= wire::be32(SECURITY_RESULT_OK));
                    HandshakeAction::Send(bytes)
                } else {
                    bytes.extend_from_slice(u32_to_be(SECURITY_RESULT_FAILED).as_slice());
                    assert(bytes@ =~= wire::be32(SECURITY_RESULT_FAILED));
                    HandshakeAction::Reject(bytes)
                }
            },
            _ => {
                self.phase = Phase::Session;
                self.state = ClientState::new(*format);
                HandshakeAction::Start(
                    ServerMessage::server_init(
                        width as u16,
                        height as u16,
                        format,
                        self.desktop_name.as_str(),
                    ),
                )
            },
        }
    }

    /// Takes the next message off what was received. `None` where there is no
    /// whole message left: then the messages received together have all been
    /// taken in.
    pub fn next_action(&mut self, staging: &mut BytesMut) -> (r: Result<
        Option<SessionAction>,
        message::ParseError,
    >)
        ensures
            match message::decode(buffer::contents(*old(staging))) {
                message::Decoded::Incomplete => r is Ok && r->Ok_0 is None && *final(self)
                    == *old(self) && buffer::contents(*final(staging)) == buffer::contents(
                    *old(staging),
                ),
                message::Decoded::Message(m, size) => r is Ok && r->Ok_0 is Some && r->Ok_0->0@
                    == action_for(m) && final(self).state.follows(&old(self).state, m)
                    && *final(self) == (RfbProtocolEngine {
                    state: final(self).state,
                    ..*old(self)
                }) && buffer::contents(*final(staging)) == buffer::contents(*old(staging)).skip(
                    size as int,
                ),
                message::Decoded::Invalid(e) => r == Err::<
                    Option<SessionAction>,
                    message::ParseError,
                >(e) && *final(self) == *old(self) && buffer::contents(*final(staging))
                    == buffer::contents(*old(staging)),
            },
    {
        match ClientMessage::parse(staging) {
            Ok(Some(msg)) => Ok(Some(self.state.handle_message(msg))),
            Ok(None) => Ok(None),
            Err(e) => Err(e),
        }
    }
}

impl ClientState {
    /// The state of a session that has just started.
    pub open spec fn starts(&self, format: PixelFormat) -> bool {
        &&& self.client_format == format
        &&& self.client_encodings@ == Seq::<i32>::empty()
        &&& !self.supports_tight
        &&& !self.supports_zrle
        &&& !self.supports_last_rect
        &&& !self.supports_desktop_size
        &&& !self.supports_cursor
        &&& !self.continuous_updates
        &&& self.pending_update_rect == None::<Rect>
    }
}

/// Those of the rectangles that the target wants, in order.
pub open spec fn wanted(rects: Seq<Rect>, target: Option<Rect>) -> Seq<Rect>
    decreases rects.len(),
{
    if rects.len() == 0 {
        Seq::empty()
    } else {
        let before = wanted(rects.drop_last(), target);
        if target is None || rects.last().meets(target->0) {
            before.push(rects.last())
        } else {
            before
        }
    }
}

/// One rectangle of an update, in the best encoding that the client knows.
pub open spec fn encoded_rect(fb: TileFramebuffer, rect: Rect, client: ClientState) -> Seq<u8> {
    if client.supports_tight {
        encoder::tight_rect(fb, rect, client.client_format)
    } else if client.supports_zrle {
        encoder::zrle_rect(fb, rect, client.client_format)
    } else {
        encoder::raw_rect(fb, rect, client.client_format)
    }
}

/// The rectangles of an update, one after the other.
pub open spec fn encoded_rects(
    fb: TileFramebuffer,
    rects: Seq<Rect>,
    client: ClientState,
) -> Seq<u8>
    decreases rects.len(),
{
    if rects.len() == 0 {
        Seq::empty()
    } else {
        encoded_rects(fb, rects.drop_last(), client) + encoded_rect(fb, rects.last(), client)
    }
}

/// Number of rectangles that an update announces; the one that ends it counts.
pub open spec fn announced(count: nat, client: ClientState) -> nat {
    if client.supports_last_rect {
        count + 1
    } else {
        count
    }
}

/// An update message; nothing where there is no rectangle to send.
pub open spec fn update_bytes(
    fb: TileFramebuffer,
    rects: Seq<Rect>,
    client: ClientState,
) -> Seq<u8> {
    if rects.len() == 0 {
        Seq::empty()
    } else {
        seq![SERVER_MSG_FRAMEBUFFER_UPDATE, 0u8] + wire::be16(
            announced(rects.len(), client) as u16,
        ) + encoded_rects(fb, rects, client) + if client.supports_last_rect {
            encoder::last_rect()
        } else {
            Seq::empty()
        }
    }
}

/// The damage that an update looks at: of flagged tiles, or of all tiles
/// against a blank record where it is not incremental.
pub open spec fn damage_for(fb: TileFramebuffer, incremental: bool) -> Seq<Rect> {
    let n = fb.tile_count() as nat;
    if incremental {
        fb.damage_among(n)
    } else {
        framebuffer::damage_in(
            fb.buffer@,
            fb.width,
            fb.height,
            Seq::new(n, |t: int| true),
            Seq::new(n, |t: int| 0u64),
            n,
        )
    }
}

/// The recorded hashes after an update was made.
pub open spec fn hashes_for(fb: TileFramebuffer, incremental: bool) -> Seq<u64> {
    let n = fb.tile_count() as nat;
    if incremental {
        framebuffer::hashes_after_look(fb.buffer@, fb.width, fb.height, fb.dirty(), fb.hashes())
    } else {
        Seq::new(n, |t: int| framebuffer::tile_hash(fb.buffer@, fb.width, fb.height, t))
    }
}

fn keep_wanted(rects: &Vec<Rect>, target: Option<Rect>) -> (r: Vec<Rect>)
    ensures
        r@ == wanted(rects@, target),
        forall|i: int| 0 <= i < r@.len() ==> rects@.contains(#[trigger] r@[i]),
{
    let mut kept: Vec<Rect> = Vec::new();
    let mut i: usize = 0;
    assert(rects@.take(0) =~= Seq::empty());
    while i < rects.len()
        invariant
            i <= rects@.len(),
            kept@ == wanted(rects@.take(i as int), target),
            forall|j: int| 0 <= j < kept@.len() ==> rects@.contains(#[trigger] kept@[j]),
        decreases rects@.len() - i,
    {
        let rect = rects[i];
        let keep = match target {
            Some(t) => rect.intersects(&t),
            None => true,
        };
        assert(rects@.take(i + 1).drop_last() =~= rects@.take(i as int));
        assert(rects@.contains(rects@[i as int]));
        if keep {
            kept.push(rect);
        }
        i = i + 1;
    }
    assert(rects@.take(rects@.len() as int) =~= rects@);
    kept
}

/// Whether a rectangle is no larger than a tile.
pub open spec fn within_tile(r: Rect) -> bool {
    r.width <= 64 && r.height <= 64
}

proof fn lemma_damage_within_tiles(
    pixels: Seq<u8>,
    width: u32,
    height: u32,
    dirty: Seq<bool>,
    hashes: Seq<u64>,
    n: nat,
)
    requires
        n <= framebuffer::tiles_across(width) * framebuffer::tiles_across(height),
    ensures
        forall|i: int|
            0 <= i < framebuffer::damage_in(pixels, width, height, dirty, hashes, n).len()
                ==> within_tile(
                #[trigger] framebuffer::damage_in(pixels, width, height, dirty, hashes, n)[i],
            ),
    decreases n,
{
    if n > 0 {
        lemma_damage_within_tiles(pixels, width, height, dirty, hashes, (n - 1) as nat);
        framebuffer::lemma_tile_on_screen(width, height, n - 1);
        let rest = framebuffer::damage_in(pixels, width, height, dirty, hashes, (n - 1) as nat);
        let all = framebuffer::damage_in(pixels, width, height, dirty, hashes, n);
        assert forall|i: int| 0 <= i < all.len() implies within_tile(#[trigger] all[i]) by {
            if i < rest.len() {
                assert(all[i] == rest[i]);
            }
        }
    }
}

proof fn lemma_tile_area_fits(r: Rect, f: PixelFormat)
    requires
        within_tile(r),
    ensures
        encoder::area_fits(r, f),
{
    let w = r.width as int;
    let h = r.height as int;
    let b = f.bytes_per_pixel() as int;
    assert(0 <= w * h <= 64 * 64) by (nonlinear_arith)
        requires
            0 <= w <= 64,
            0 <= h <= 64,
    ;
    let area = w * h;
    assert(area * b <= 64 * 64 * 31) by (nonlinear_arith)
        requires
            0 <= area <= 64 * 64,
            0 <= b <= 31,
    ;
}

/// Appends one rectangle in the best encoding that the client knows.
pub fn encode_rect(
    fb: &TileFramebuffer,
    rect: &Rect,
    client: &ClientState,
    buf: &mut BytesMut,
)
    requires
        fb.wf(),
        encoder::area_fits(*rect, client.client_format),
    ensures
        buffer::contents(*final(buf)) == buffer::contents(*old(buf)) + encoded_rect(
            *fb,
            *rect,
            *client,
        ),
{
    if client.supports_tight {
        proof {
            encoder::lemma_tight_area_fits(*rect, client.client_format);
        }
        encode_tight_rect(fb, rect, &client.client_format, buf);
    } else if client.supports_zrle {
        encode_zrle_rect(fb, rect, &client.client_format, buf);
    } else {
        encode_raw_rect(fb, rect, &client.client_format, buf);
    }
}

/// Appends an update message with the given rectangles.
pub fn write_update(
    fb: &TileFramebuffer,
    rects: &Vec<Rect>,
    client: &ClientState,
    buf: &mut BytesMut,
)
    requires
        fb.wf(),
        0 < rects@.len(),
        forall|i: int|
            0 <= i < rects@.len() ==> encoder::area_fits(
                #[trigger] rects@[i],
                client.client_format,
            ),
    ensures
        buffer::contents(*final(buf)) == buffer::contents(*old(buf)) + update_bytes(
            *fb,
            rects@,
            *client,
        ),
{
    let ghost before = buffer::contents(*buf);
    let count: usize = rects.len();
    let announce: u16 = if client.supports_last_rect {
        (count as u128 + 1) as u16
    } else {
        count as u16
    };
    append(buf, [SERVER_MSG_FRAMEBUFFER_UPDATE, 0u8].as_slice());
    append(buf, u16_to_be(announce).as_slice());
    let ghost head = buffer::contents(*buf);
    let mut i: usize = 0;
    assert(rects@.take(0) =~= Seq::empty());
    assert(head =~= head + encoded_rects(*fb, rects@.take(0), *client));
    while i < count
        invariant
            i <= count,
            count == rects@.len(),
            fb.wf(),
            forall|j: int|
                0 <= j < rects@.len() ==> encoder::area_fits(
                    #[trigger] rects@[j],
                    client.client_format,
                ),
            buffer::contents(*buf) == head + encoded_rects(*fb, rects@.take(i as int), *client),
        decreases count - i,
    {
        assert(rects@.take(i + 1).drop_last() =~= rects@.take(i as int));
        encode_rect(fb, &rects[i], client, buf);
        i = i + 1;
        assert(buffer::contents(*buf) =~= head + encoded_rects(
            *fb,
            rects@.take(i as int),
            *client,
        ));
    }
    assert(rects@.take(count as int) =~= rects@);
    assert(head =~= before + seq![SERVER_MSG_FRAMEBUFFER_UPDATE, 0u8] + wire::be16(
        announced(rects@.len(), *client) as u16,
    ));
    if client.supports_last_rect {
        encode_pseudo_last_rect(buf);
    }
    assert(buffer::contents(*buf) =~= before + update_bytes(*fb, rects@, *client));
}

/// Puts the next update for a client into `buf` and returns how many
/// rectangles it has, not counting the one that ends it. The flagged tiles, or
/// all of them where the update is not incremental, are looked at; those that
/// changed and touch the target are sent. With none, `buf` stays empty.
pub fn build_framebuffer_update(
    fb: &mut TileFramebuffer,
    client: &ClientState,
    target: Option<Rect>,
    incremental: bool,
    buf: &mut BytesMut,
) -> (count: usize)
    requires
        old(fb).wf(),
    ensures
        final(fb).wf(),
        old(fb).in_step() ==> final(fb).in_step(),
        final(fb).same_picture(old(fb)),
        final(fb).dirty() == Seq::new(old(fb).tile_count() as nat, |t: int| false),
        final(fb).hashes() == hashes_for(*old(fb), incremental),
        final(fb).frame_version == if incremental {
            old(fb).frame_version
        } else {
            old(fb).frame_version.wrapping_add(1)
        },
        ({
            let rects = wanted(damage_for(*old(fb), incremental), target);
            &&& count == rects.len()
            &&& buffer::contents(*final(buf)) == update_bytes(*final(fb), rects, *client)
        }),
{
    let ghost before = *fb;
    clear(buf);
    if !incremental {
        fb.mark_all_damaged();
    }
    let damage = fb.detect_damage_tiles();
    assert(damage@ == damage_for(before, incremental));
    assert(fb.hashes() =~= hashes_for(before, incremental));
    let rects = keep_wanted(&damage, target);
    let count: usize = rects.len();
    if count == 0 {
        return 0;
    }
    proof {
        let n = before.tile_count() as nat;
        lemma_damage_within_tiles(
            before.buffer@,
            before.width,
            before.height,
            before.dirty(),
            before.hashes(),
            n,
        );
        lemma_damage_within_tiles(
            before.buffer@,
            before.width,
            before.height,
            Seq::new(n, |t: int| true),
            Seq::new(n, |t: int| 0u64),
            n,
        );
        assert forall|i: int| 0 <= i < rects@.len() implies encoder::area_fits(
            #[trigger] rects@[i],
            client.client_format,
        ) by {
            let j = damage@.index_of(rects@[i]);
            assert(within_tile(damage@[j]));
            lemma_tile_area_fits(rects@[i], client.client_format);
        }
    }
    write_update(fb, &rects, client, buf);
    assert(buffer::contents(*buf) =~= update_bytes(*fb, rects@, *client));
    count
}

/// An update that is sent says what it is and announces as many rectangles as
/// it has.
pub proof fn law_update_announces_its_rects(
    fb: TileFramebuffer,
    rects: Seq<Rect>,
    client: ClientState,
)
    requires
        0 < rects.len(),
        announced(rects.len(), client) <= u16::MAX,
    ensures
        update_bytes(fb, rects, client)[0] == SERVER_MSG_FRAMEBUFFER_UPDATE,
        message::u16_at(update_bytes(fb, rects, client), 2) == announced(rects.len(), client),
{
    let n = announced(rects.len(), client) as u16;
    let s = update_bytes(fb, rects, client);
    wire::law_be16_round_trip(n);
    assert(s[0] == SERVER_MSG_FRAMEBUFFER_UPDATE);
    assert(s[2] == wire::be16(n)[0] && s[3] == wire::be16(n)[1]);
}

/// Nothing is sent of a screen that has not changed: without flagged tiles an
/// incremental update is empty.
pub proof fn law_static_screen_sends_nothing(
    fb: TileFramebuffer,
    target: Option<Rect>,
    client: ClientState,
)
    requires
        fb.wf(),
        fb.dirty() == Seq::new(fb.tile_count() as nat, |t: int| false),
    ensures
        update_bytes(fb, wanted(damage_for(fb, true), target), client) == Seq::<u8>::empty(),
{
    laws::law_second_look_finds_nothing(fb, fb.tile_count() as nat);
}

/// Of the damage, an update takes exactly the rectangles that meet the target.
pub proof fn law_update_takes_what_meets_the_target(rects: Seq<Rect>, target: Option<Rect>, r: Rect)
    ensures
        wanted(rects, target).contains(r) <==> rects.contains(r) && (target is None || r.meets(
            target->0,
        )),
    decreases rects.len(),
{
    if rects.len() > 0 {
        let rest = rects.drop_last();
        law_update_takes_what_meets_the_target(rest, target, r);
        let kept = wanted(rest, target);
        let all = wanted(rects, target);
        if rects.contains(r) && !rest.contains(r) {
            let i = rects.index_of(r);
            assert(i == rects.len() - 1) by {
                if i < rest.len() {
                    assert(rest[i] == r);
                }
            }
        }
        if rest.contains(r) {
            assert(rects[rest.index_of(r)] == r);
        }
        assert(rects[rects.len() - 1] == rects.last());
        if kept.contains(r) {
            assert(all[kept.index_of(r)] == r);
        }
        if target is None || rects.last().meets(target->0) {
            assert(all[kept.len() as int] == rects.last());
            if all.contains(r) && !kept.contains(r) {
                let i = all.index_of(r);
                if i < kept.len() {
                    assert(kept[i] == r);
                }
            }
        }
    }
}

/// The handshake cannot be skipped: the session starts exactly when the client
/// has sent its version, of twelve bytes, has picked "no security", and has
/// sent one byte more; what follows belongs to the session. A client that
/// picked anything else is turned away then.
pub proof fn law_handshake_as_a_whole(received: Seq<u8>)
    ensures
        ({
            let p = progress(Phase::Version, received);
            &&& p.phase == Phase::Session <==> received.len() >= 14 && received[12]
                == SECURITY_TYPE_NONE
            &&& p.phase == Phase::Session ==> p.rest == received.skip(14)
            &&& p.rejected <==> received.len() >= 13 && received[12] != SECURITY_TYPE_NONE
        }),
{
    reveal_with_fuel(progress, 4);
    if received.len() >= 12 {
        let a = received.skip(12);
        if a.len() >= 1 {
            assert(a[0] == received[12]);
            let b = a.skip(1);
            if b.len() >= 1 {
                assert(b.skip(1) =~= received.skip(14));
            }
        }
    }
}

/// It makes no difference in how many pieces the bytes of a handshake arrive:
/// going on with what was left over leads where all of them at once lead.
pub proof fn law_handshake_in_pieces(phase: Phase, received: Seq<u8>, more: Seq<u8>)
    requires
        !progress(phase, received).rejected,
    ensures
        ({
            let p = progress(phase, received);
            progress(phase, received + more) == progress(p.phase, p.rest + more)
        }),
    decreases received.len(),
{
    let n = needed(phase);
    if n > 0 && received.len() >= n {
        assert((received + more)[0] == received[0]);
        assert((received + more).skip(n as int) =~= received.skip(n as int) + more);
        law_handshake_in_pieces(
            phase_after(phase, received[0]),
            received.skip(n as int),
            more,
        );
    }
}

/// Any security type but "none", and nothing else, is answered with a failure
/// that closes the connection.
pub proof fn law_other_security_is_refused(
    e: RfbProtocolEngine,
    first: u8,
    width: u32,
    height: u32,
    format: PixelFormat,
)
    ensures
        e.answer(first, width, height, format) is Reject <==> turns_away(e.phase, first),
        turns_away(e.phase, first) ==> e.answer(first, width, height, format)
            == HandshakeView::Reject(wire::be32(SECURITY_RESULT_FAILED)),
{
}

/// The rate that a client sets lies in the range allowed, and one from that
/// range is taken as it is.
pub proof fn law_live_fps_range(fps: int)
    ensures
        LIVE_FPS_MIN <= clamped_fps(fps) <= LIVE_FPS_MAX,
        LIVE_FPS_MIN <= fps <= LIVE_FPS_MAX ==> clamped_fps(fps) == fps,
{
}

/// What the first message in some bytes leads to.
pub open spec fn reaction(s: Seq<u8>) -> Option<ActionView> {
    match message::decode(s) {
        message::Decoded::Message(m, _) => Some(action_for(m)),
        _ => None,
    }
}

/// A key message leads to that key going down or up: down exactly where its
/// second byte is not zero, and the key is the number in its last four bytes.
pub proof fn law_keys_go_down_and_up(s: Seq<u8>)
    requires
        s.len() >= 8,
        s[0] == 4,
    ensures
        reaction(s) == Some(
            ActionView::Key {
                down: s[1] != 0,
                key_sym: (s[4] * 0x100_0000 + s[5] * 0x1_0000 + s[6] * 0x100 + s[7]) as u32,
            },
        ),
{
    message::law_key_event_bytes(s);
}

/// A key that is pressed and released goes down and then up, and is the same
/// key both times.
pub proof fn law_pressed_keys_are_released(
    pressed: u8,
    a: u8,
    b: u8,
    c: u8,
    d: u8,
    more: Seq<u8>,
)
    requires
        pressed != 0,
    ensures
        ({
            let s = seq![4u8, pressed, 0u8, 0u8, a, b, c, d] + seq![
                4u8,
                0u8,
                0u8,
                0u8,
                a,
                b,
                c,
                d,
            ] + more;
            &&& reaction(s) matches Some(ActionView::Key { down, key_sym })
            &&& down
            &&& message::decode(s) matches message::Decoded::Message(_, size)
            &&& reaction(s.skip(size as int)) == Some(ActionView::Key { down: false, key_sym })
        }),
{
    let press = seq![4u8, pressed, 0u8, 0u8, a, b, c, d];
    let release = seq![4u8, 0u8, 0u8, 0u8, a, b, c, d];
    let s = press + release + more;
    law_keys_go_down_and_up(s);
    message::law_key_event_bytes(s);
    let t = s.skip(8);
    assert(t =~= release + more);
    law_keys_go_down_and_up(t);
}

/// A pointer message leads to the pointer being where it says, with the buttons
/// down that it says.
pub proof fn law_pointer_goes_where_it_is_sent(s: Seq<u8>)
    requires
        s.len() >= 6,
        s[0] == 5,
    ensures
        reaction(s) == Some(
            ActionView::Pointer {
                button_mask: s[1],
                x: (s[2] * 256 + s[3]) as u16,
                y: (s[4] * 256 + s[5]) as u16,
            },
        ),
{
    message::law_pointer_event_bytes(s);
}

/// A clipboard message leads to its text being put in the clipboard.
pub proof fn law_cut_text_is_taken_over(s: Seq<u8>)
    requires
        s.len() >= 8,
        s[0] == 6,
        ({
            let length = s[4] * 0x100_0000 + s[5] * 0x1_0000 + s[6] * 0x100 + s[7];
            length <= 10 * 1024 * 1024 && s.len() >= 8 + length
        }),
    ensures
        ({
            let length = s[4] * 0x100_0000 + s[5] * 0x1_0000 + s[6] * 0x100 + s[7];
            reaction(s) == Some(ActionView::CutText(text::utf8_lossy(s.subrange(8, 8 + length))))
        }),
{
    message::law_cut_text_bytes(s);
}

/// A rate that a client asks for is set: as it is from 1 to 30, and the nearer
/// of these two otherwise.
pub proof fn law_rate_is_set(s: Seq<u8>)
    requires
        s.len() >= 4,
        s[0] == 254,
    ensures
        ({
            let asked = s[2] * 256 + s[3];
            &&& reaction(s) matches Some(ActionView::SetFps(fps))
            &&& 1 <= fps <= 30
            &&& 1 <= asked <= 30 ==> fps == asked
            &&& asked == 0 ==> fps == 1
            &&& asked > 30 ==> fps == 30
        }),
{
    message::law_set_fps_bytes(s);
}

/// The full screen is sent at once to a client that asks for it, of the
/// rectangle that it asks for; an incremental request, a new format or a list of
/// encodings is taken in without an answer.
pub proof fn law_full_updates_are_sent_at_once(s: Seq<u8>)
    requires
        s.len() >= 20,
    ensures
        s[0] == 3 && s[1] == 0 ==> reaction(s) == Some(
            ActionView::SendUpdate { target: Some(message::rect_in(s, 2)), incremental: false },
        ),
        s[0] == 3 && s[1] != 0 ==> reaction(s) == Some(ActionView::Nothing),
        s[0] == 150 ==> reaction(s) == Some(ActionView::Nothing),
        s[0] == 0 ==> reaction(s) == Some(ActionView::Nothing),
{
    message::law_update_request_bytes(s);
    if s[0] == 0 {
        message::law_set_pixel_format_bytes(s);
    }
}

/// What a client asked for is remembered until it is answered: an incremental
/// request, or the start of continuous updates, is owed an update of its
/// rectangle when the messages at hand are done, and on the next change of the
/// screen; one that is not incremental has had its answer. Continuous updates go
/// on, of the whole screen, until they are turned off.
pub proof fn law_requests_are_answered(
    before: ClientState,
    after: ClientState,
    incremental: bool,
    rect: Rect,
)
    ensures
        after.follows(
            &before,
            MessageView::FramebufferUpdateRequest { incremental, rect },
        ) && incremental ==> after.action_when_idle() == (ActionView::SendUpdate {
            target: Some(rect),
            incremental: true,
        }) && after.action_on_damage() == (ActionView::SendUpdate {
            target: Some(rect),
            incremental: true,
        }),
        after.follows(
            &before,
            MessageView::FramebufferUpdateRequest { incremental, rect },
        ) && !incremental ==> after.action_when_idle() == ActionView::Nothing,
        after.follows(&before, MessageView::EnableContinuousUpdates { enable: true, rect })
            ==> after.continuous_updates && after.action_when_idle() == (ActionView::SendUpdate {
            target: Some(rect),
            incremental: true,
        }),
        after.follows(&before, MessageView::EnableContinuousUpdates { enable: false, rect })
            ==> !after.continuous_updates && after.action_when_idle() == before.action_when_idle(),
        after.continuous_updates && after.pending_update_rect is None ==> after.action_on_damage()
            == (ActionView::SendUpdate { target: None, incremental: true }),
        !after.continuous_updates && after.pending_update_rect is None ==> after.action_on_damage()
            == ActionView::Nothing,
{
}

/// A client gets what it said it can read: the list of encodings decides, by
/// their numbers, what is known of it; the format is the one it set; and keys,
/// pointer, texts and rates change nothing of either.
pub proof fn law_client_gets_what_it_asked_for(
    before: ClientState,
    after: ClientState,
    m: MessageView,
)
    requires
        after.follows(&before, m),
    ensures
        m matches MessageView::SetEncodings(e) ==> {
            &&& after.supports_tight == (exists|i: int| 0 <= i < e.len() && e[i] == 7)
            &&& after.supports_zrle == (exists|i: int| 0 <= i < e.len() && e[i] == 16)
            &&& after.supports_last_rect == (exists|i: int| 0 <= i < e.len() && e[i] == -224)
            &&& after.supports_desktop_size == (exists|i: int| 0 <= i < e.len() && e[i] == -223)
            &&& after.supports_cursor == (exists|i: int| 0 <= i < e.len() && e[i] == -239)
            &&& after.client_encodings@ == e
        },
        !(m is SetEncodings) ==> {
            &&& after.supports_tight == before.supports_tight
            &&& after.supports_zrle == before.supports_zrle
            &&& after.supports_last_rect == before.supports_last_rect
            &&& after.supports_desktop_size == before.supports_desktop_size
            &&& after.supports_cursor == before.supports_cursor
            &&& after.client_encodings == before.client_encodings
        },
        m matches MessageView::SetPixelFormat(f) ==> after.client_format == f,
        !(m is SetPixelFormat) ==> after.client_format == before.client_format,
        !(m is FramebufferUpdateRequest) && !(m is EnableContinuousUpdates)
            ==> after.pending_update_rect == before.pending_update_rect
            && after.continuous_updates == before.continuous_updates,
{
}

/// Each rectangle of an update is in the best encoding that the client knows:
/// its header says Tight (7) before ZRLE (16) before raw (0), and where on the
/// screen it belongs.
pub proof fn law_rects_say_how_and_where(fb: TileFramebuffer, rect: Rect, client: ClientState)
    ensures
        ({
            let s = encoded_rect(fb, rect, client);
            &&& s.len() >= 12
            &&& s[0] * 256 + s[1] == rect.x
            &&& s[2] * 256 + s[3] == rect.y
            &&& s[4] * 256 + s[5] == rect.width
            &&& s[6] * 256 + s[7] == rect.height
            &&& s[8] == 0 && s[9] == 0 && s[10] == 0
            &&& s[11] == if client.supports_tight {
                7int
            } else if client.supports_zrle {
                16
            } else {
                0
            }
        }),
{
    let s = encoded_rect(fb, rect, client);
    let encoding: i32 = if client.supports_tight {
        7
    } else if client.supports_zrle {
        16
    } else {
        0
    };
    let h = message::UpdateRectHeader { rect, encoding };
    message::law_header_layout(h);
    let head = message::header_bytes(h);
    if client.supports_tight {
        encoder::lemma_starts_with_header(fb, rect, client.client_format);
    } else if client.supports_zrle {
        encoder::lemma_starts_with_header(fb, rect, client.client_format);
    } else {
        encoder::lemma_starts_with_header(fb, rect, client.client_format);
    }
    assert(s.take(12) == head);
    assert forall|i: int| 0 <= i < 12 implies s[i] == head[i] by {
        assert(s.take(12)[i] == s[i]);
    }
}

/// The form of an update: type 0, a byte of padding, the number of rectangles,
/// the rectangles one after the other, and, for clients that know it, the
/// pseudo-rectangle of encoding -224 that ends it and is counted too.
pub proof fn law_update_layout(fb: TileFramebuffer, rects: Seq<Rect>, client: ClientState)
    requires
        0 < rects.len() < 65535,
    ensures
        ({
            let s = update_bytes(fb, rects, client);
            let body = encoded_rects(fb, rects, client);
            let end = seq![0u8, 0, 0, 0, 0, 0, 0, 0, 0xff, 0xff, 0xff, 0x20];
            &&& s[0] == 0 && s[1] == 0
            &&& s[2] * 256 + s[3] == rects.len() + if client.supports_last_rect {
                1int
            } else {
                0
            }
            &&& s.skip(4) == if client.supports_last_rect {
                body + end
            } else {
                body
            }
        }),
{
    let s = update_bytes(fb, rects, client);
    let n = announced(rects.len(), client) as u16;
    wire::law_be16_digits(n, 0, 0);
    assert(s[2] == wire::be16(n)[0] && s[3] == wire::be16(n)[1]);
    let body = encoded_rects(fb, rects, client);
    let end = seq![0u8, 0, 0, 0, 0, 0, 0, 0, 0xff, 0xff, 0xff, 0x20];
    encoder::lemma_last_rect_bytes();
    assert(s.skip(4) =~= if client.supports_last_rect {
        body + end
    } else {
        body
    });
}

/// No rectangle of an update is left out or put in another place: those of one
/// more rectangle come behind those before it.
pub proof fn law_rects_follow_each_other(
    fb: TileFramebuffer,
    first: Seq<Rect>,
    then: Seq<Rect>,
    client: ClientState,
)
    ensures
        encoded_rects(fb, first + then, client) == encoded_rects(fb, first, client)
            + encoded_rects(fb, then, client),
        encoded_rects(fb, Seq::empty(), client) == Seq::<u8>::empty(),
        forall|r: Rect| #[trigger]
            encoded_rects(fb, seq![r], client) == encoded_rect(fb, r, client),
    decreases then.len(),
{
    assert forall|r: Rect| #[trigger] encoded_rects(fb, seq![r], client) == encoded_rect(
        fb,
        r,
        client,
    ) by {
        reveal_with_fuel(encoded_rects, 2);
        assert(seq![r].drop_last() =~= Seq::<Rect>::empty());
        assert(Seq::<u8>::empty() + encoded_rect(fb, r, client) =~= encoded_rect(fb, r, client));
    }
    if then.len() == 0 {
        assert(first + then =~= first);
        assert(encoded_rects(fb, first, client) + Seq::<u8>::empty() =~= encoded_rects(
            fb,
            first,
            client,
        ));
    } else {
        law_rects_follow_each_other(fb, first, then.drop_last(), client);
        assert((first + then).drop_last() =~= first + then.drop_last());
        assert((first + then).last() == then.last());
        assert(encoded_rects(fb, first + then, client) =~= encoded_rects(fb, first, client)
            + encoded_rects(fb, then, client));
    }
}

/// Damage in the rectangle that a client asked for is sent: a damaged rectangle
/// that shares a pixel with it is in the update. Without a rectangle all damage
/// is sent, and never anything that is not damage.
pub proof fn law_damage_in_the_target_is_sent(
    rects: Seq<Rect>,
    target: Option<Rect>,
    i: int,
    px: int,
    py: int,
)
    requires
        0 <= i < rects.len(),
        px < 65535,
        py < 65535,
        ({
            let r = rects[i];
            r.x <= px < r.x + r.width && r.y <= py < r.y + r.height
        }),
        target matches Some(t) ==> t.x <= px < t.x + t.width && t.y <= py < t.y + t.height,
    ensures
        wanted(rects, target).contains(rects[i]),
{
    law_update_takes_what_meets_the_target(rects, target, rects[i]);
    assert(rects.contains(rects[i]));
}

/// What is not asked for is not sent: a rectangle of an update is damage, and
/// touches the rectangle asked for.
pub proof fn law_only_damage_is_sent(rects: Seq<Rect>, target: Option<Rect>, i: int)
    requires
        0 <= i < wanted(rects, target).len(),
    ensures
        rects.contains(wanted(rects, target)[i]),
        target matches Some(t) ==> {
            let r = wanted(rects, target)[i];
            r.x < t.x + t.width && t.x < r.x + r.width && r.y < t.y + t.height && t.y < r.y
                + r.height
        },
{
    let r = wanted(rects, target)[i];
    law_update_takes_what_meets_the_target(rects, target, r);
    assert(wanted(rects, target).contains(r));
}

/// A full update holds the whole screen: whatever was sent before, each pixel
/// lies in one of the rectangles that it sends, but for tiles whose pixels happen
/// to hash to zero.
pub proof fn law_full_update_holds_the_screen(fb: TileFramebuffer, px: int, py: int)
    requires
        fb.wf(),
        fb.width <= 65536,
        fb.height <= 65536,
        0 <= px < fb.width,
        0 <= py < fb.height,
        framebuffer::tile_hash(
            fb.buffer@,
            fb.width,
            fb.height,
            py / 64 * framebuffer::tiles_across(fb.width) + px / 64,
        ) != 0,
    ensures
        exists|i: int|
            0 <= i < damage_for(fb, false).len() && ({
                let r = #[trigger] damage_for(fb, false)[i];
                r.x <= px < r.x + r.width && r.y <= py < r.y + r.height
            }),
{
    let t = py / 64 * framebuffer::tiles_across(fb.width) + px / 64;
    laws::law_tiles_cover_the_screen(fb.width, fb.height, px, py);
    let n = fb.tile_count() as nat;
    lemma_blank_damage(fb, n, t);
    let r = framebuffer::tile_rect(fb.width, fb.height, t);
    let i = damage_for(fb, false).index_of(r);
    assert(damage_for(fb, false)[i] == r);
}

proof fn lemma_blank_damage(fb: TileFramebuffer, n: nat, t: int)
    requires
        n <= fb.tile_count(),
        0 <= t < n,
        framebuffer::tile_hash(fb.buffer@, fb.width, fb.height, t) != 0,
    ensures
        framebuffer::damage_in(
            fb.buffer@,
            fb.width,
            fb.height,
            Seq::new(fb.tile_count() as nat, |t: int| true),
            Seq::new(fb.tile_count() as nat, |t: int| 0u64),
            n,
        ).contains(framebuffer::tile_rect(fb.width, fb.height, t)),
    decreases n,
{
    let dirty = Seq::new(fb.tile_count() as nat, |t: int| true);
    let hashes = Seq::new(fb.tile_count() as nat, |t: int| 0u64);
    let rest = framebuffer::damage_in(
        fb.buffer@,
        fb.width,
        fb.height,
        dirty,
        hashes,
        (n - 1) as nat,
    );
    let all = framebuffer::damage_in(fb.buffer@, fb.width, fb.height, dirty, hashes, n);
    let r = framebuffer::tile_rect(fb.width, fb.height, t);
    if t < n - 1 {
        lemma_blank_damage(fb, (n - 1) as nat, t);
        let i = rest.index_of(r);
        assert(all[i] == r);
    } else {
        assert(all[rest.len() as int] == r);
    }
}

/// The bytes of the handshake: one security type on offer, none (1); accepted
/// with a zero, refused with a one; then the size, the format and the name of the
/// desktop.
pub proof fn law_handshake_answers(
    e: RfbProtocolEngine,
    first: u8,
    width: u32,
    height: u32,
    format: PixelFormat,
)
    ensures
        e.phase == Phase::Version ==> e.answer(first, width, height, format)
            == HandshakeView::Send(seq![1u8, 1u8]),
        e.phase == Phase::Security && first == 1 ==> e.answer(first, width, height, format)
            == HandshakeView::Send(seq![0u8, 0u8, 0u8, 0u8]),
        e.phase == Phase::Security && first != 1 ==> e.answer(first, width, height, format)
            == HandshakeView::Reject(seq![0u8, 0u8, 0u8, 1u8]),
        e.phase == Phase::ClientInit && width <= 65535 && height <= 65535 ==> {
            &&& e.answer(first, width, height, format) matches HandshakeView::Start(s)
            &&& s == message::server_init_bytes(
                width as u16,
                height as u16,
                format,
                vstd::utf8::encode_utf8(e.desktop_name@),
            )
        },
{
    assert(wire::be32(0) =~= seq![0u8, 0u8, 0u8, 0u8]);
    assert(wire::be32(1) =~= seq![0u8, 0u8, 0u8, 1u8]);
}

/// A client that has said nothing yet gets raw pixels in the server's format, is
/// owed nothing, and gets an update without the rectangle that ends it.
pub proof fn law_new_client_gets_raw_pixels(
    c: ClientState,
    format: PixelFormat,
    fb: TileFramebuffer,
    rect: Rect,
)
    requires
        c.starts(format),
    ensures
        encoded_rect(fb, rect, c) == encoder::raw_rect(fb, rect, format),
        c.action_when_idle() == ActionView::Nothing,
        c.action_on_damage() == ActionView::Nothing,
        !c.supports_last_rect,
{
}

} // verus!
