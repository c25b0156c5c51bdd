//! Messages of the RFB protocol (RFC 6143) and their bytes.

use crate::buffer;
use crate::buffer::{advance, append, buffer_len, byte_at, split_to};
use crate::display::pixel;
use crate::display::pixel::PixelFormat;
use crate::display::rect::Rect;
use crate::text;
use crate::text::from_utf8_lossy;
use crate::wire;
use crate::wire::{i32_from_bits, i32_to_bits, u16_of_be, u16_to_be, u32_of_be, u32_to_be};
use bytes::BytesMut;
use vstd::prelude::*;

verus! {

pub const RFB_VERSION_3_8: [u8; 12] = [82, 70, 66, 32, 48, 48, 51, 46, 48, 48, 56, 10];

pub const RFB_VERSION_3_7: [u8; 12] = [82, 70, 66, 32, 48, 48, 51, 46, 48, 48, 55, 10];

pub const RFB_VERSION_3_3: [u8; 12] = [82, 70, 66, 32, 48, 48, 51, 46, 48, 48, 51, 10];

// Security types.
pub const SECURITY_TYPE_INVALID: u8 = 0;

pub const SECURITY_TYPE_NONE: u8 = 1;

pub const SECURITY_TYPE_VNC_AUTH: u8 = 2;

// Security results.
pub const SECURITY_RESULT_OK: u32 = 0;

pub const SECURITY_RESULT_FAILED: u32 = 1;

// Encodings.
pub const ENCODING_RAW: i32 = 0;

pub const ENCODING_COPY_RECT: i32 = 1;

pub const ENCODING_RRE: i32 = 2;

pub const ENCODING_HEXTILE: i32 = 5;

pub const ENCODING_TIGHT: i32 = 7;

pub const ENCODING_ZRLE: i32 = 16;

// Pseudo-encodings.
pub const PSEUDO_ENCODING_CURSOR: i32 = -239;

pub const PSEUDO_ENCODING_DESKTOP_SIZE: i32 = -223;

pub const PSEUDO_ENCODING_LAST_RECT: i32 = -224;

pub const PSEUDO_ENCODING_EXT_KEY_EVENT: i32 = -258;

pub const PSEUDO_ENCODING_DESKTOP_NAME: i32 = -307;

pub const PSEUDO_ENCODING_CONTINUOUS_UPDATES: i32 = -313;

// Messages from the client.
pub const CLIENT_MSG_SET_PIXEL_FORMAT: u8 = 0;

pub const CLIENT_MSG_SET_ENCODINGS: u8 = 2;

pub const CLIENT_MSG_FRAMEBUFFER_UPDATE_REQ: u8 = 3;

pub const CLIENT_MSG_KEY_EVENT: u8 = 4;

pub const CLIENT_MSG_POINTER_EVENT: u8 = 5;

pub const CLIENT_MSG_CLIENT_CUT_TEXT: u8 = 6;

pub const CLIENT_MSG_ENABLE_CONTINUOUS_UPDATES: u8 = 150;

pub const CLIENT_MSG_SET_FPS: u8 = 254;

// Messages from the server.
pub const SERVER_MSG_FRAMEBUFFER_UPDATE: u8 = 0;

pub const SERVER_MSG_SET_COLOUR_MAP_ENTRIES: u8 = 1;

pub const SERVER_MSG_BELL: u8 = 2;

pub const SERVER_MSG_SERVER_CUT_TEXT: u8 = 3;

pub const SERVER_MSG_END_OF_CONTINUOUS_UPDATES: u8 = 150;

/// Longest clipboard text that is read from a client, in bytes (10 MiB).
pub const CUT_TEXT_PARSE_LIMIT: u32 = 10_485_760;

/// A message from the client.
#[derive(Debug, Clone, PartialEq)]
pub enum ClientMessage {
    SetPixelFormat(PixelFormat),
    SetEncodings(Vec<i32>),
    FramebufferUpdateRequest { incremental: bool, rect: Rect },
    KeyEvent { down: bool, key_sym: u32 },
    PointerEvent { button_mask: u8, x: u16, y: u16 },
    ClientCutText(String),
    EnableContinuousUpdates { enable: bool, rect: Rect },
    /// Ask for another capture rate, in frames per second.
    SetFps(u16),
}

/// What a message from the client says.
pub enum MessageView {
    SetPixelFormat(PixelFormat),
    SetEncodings(Seq<i32>),
    FramebufferUpdateRequest { incremental: bool, rect: Rect },
    KeyEvent { down: bool, key_sym: u32 },
    PointerEvent { button_mask: u8, x: u16, y: u16 },
    ClientCutText(Seq<char>),
    EnableContinuousUpdates { enable: bool, rect: Rect },
    SetFps(u16),
}

impl View for ClientMessage {
    type V = MessageView;

    open spec fn view(&self) -> MessageView {
        match *self {
            ClientMessage::SetPixelFormat(f) => MessageView::SetPixelFormat(f),
            ClientMessage::SetEncodings(e) => MessageView::SetEncodings(e@),
            ClientMessage::FramebufferUpdateRequest {
                incremental,
                rect,
            } => MessageView::FramebufferUpdateRequest { incremental, rect },
            ClientMessage::KeyEvent { down, key_sym } => MessageView::KeyEvent { down, key_sym },
            ClientMessage::PointerEvent { button_mask, x, y } => MessageView::PointerEvent {
                button_mask,
                x,
                y,
            },
            ClientMessage::ClientCutText(t) => MessageView::ClientCutText(t@),
            ClientMessage::EnableContinuousUpdates {
                enable,
                rect,
            } => MessageView::EnableContinuousUpdates { enable, rect },
            ClientMessage::SetFps(fps) => MessageView::SetFps(fps),
        }
    }
}

/// Why bytes from a client cannot be a message.
#[derive(Debug, Clone, Copy, PartialEq, Eq, Structural)]
pub enum ParseError {
    UnknownMessageType(u8),
    /// A clipboard text is longer than the limit; its length in bytes.
    CutTextTooLong(u32),
}

/// What the bytes received so far amount to.
pub enum Decoded {
    /// No whole message yet.
    Incomplete,
    /// A message, and how many bytes it takes up.
    Message(MessageView, nat),
    Invalid(ParseError),
}

/// The 16-bit number at `at`.
pub open spec fn u16_at(s: Seq<u8>, at: int) -> u16 {
    wire::from_be16(s[at], s[at + 1])
}

/// The 32-bit number at `at`.
pub open spec fn u32_at(s: Seq<u8>, at: int) -> u32 {
    wire::from_be32(s[at], s[at + 1], s[at + 2], s[at + 3])
}

/// The rectangle whose four numbers start at `at`.
pub open spec fn rect_at(s: Seq<u8>, at: int) -> Rect {
    Rect {
        x: u16_at(s, at),
        y: u16_at(s, at + 2),
        width: u16_at(s, at + 4),
        height: u16_at(s, at + 6),
    }
}

/// A message of a fixed size, once all of it is there.
pub open spec fn once(s: Seq<u8>, size: nat, m: MessageView) -> Decoded {
    if s.len() < size {
        Decoded::Incomplete
    } else {
        Decoded::Message(m, size)
    }
}

/// The first message in the bytes received.
pub open spec fn decode(s: Seq<u8>) -> Decoded {
    if s.len() == 0 {
        Decoded::Incomplete
    } else if s[0] == CLIENT_MSG_SET_PIXEL_FORMAT {
        once(s, 20, MessageView::SetPixelFormat(pixel::format_of(s.subrange(4, 20))))
    } else if s[0] == CLIENT_MSG_SET_ENCODINGS {
        if s.len() < 4 {
            Decoded::Incomplete
        } else {
            let count = u16_at(s, 2) as nat;
            once(
                s,
                4 + 4 * count,
                MessageView::SetEncodings(
                    Seq::new(count, |i: int| wire::i32_of_bits(u32_at(s, 4 + 4 * i))),
                ),
            )
        }
    } else if s[0] == CLIENT_MSG_FRAMEBUFFER_UPDATE_REQ {
        once(
            s,
            10,
            MessageView::FramebufferUpdateRequest { incremental: s[1] != 0, rect: rect_at(s, 2) },
        )
    } else if s[0] == CLIENT_MSG_KEY_EVENT {
        once(s, 8, MessageView::KeyEvent { down: s[1] != 0, key_sym: u32_at(s, 4) })
    } else if s[0] == CLIENT_MSG_POINTER_EVENT {
        once(
            s,
            6,
            MessageView::PointerEvent { button_mask: s[1], x: u16_at(s, 2), y: u16_at(s, 4) },
        )
    } else if s[0] == CLIENT_MSG_CLIENT_CUT_TEXT {
        if s.len() < 8 {
            Decoded::Incomplete
        } else {
            let length = u32_at(s, 4);
            if length > CUT_TEXT_PARSE_LIMIT {
                Decoded::Invalid(ParseError::CutTextTooLong(length))
            } else {
                once(
                    s,
                    8 + length as nat,
                    MessageView::ClientCutText(text::utf8_lossy(s.subrange(8, 8 + length))),
                )
            }
        }
    } else if s[0] == CLIENT_MSG_ENABLE_CONTINUOUS_UPDATES {
        once(
            s,
            10,
            MessageView::EnableContinuousUpdates { enable: s[1] != 0, rect: rect_at(s, 2) },
        )
    } else if s[0] == CLIENT_MSG_SET_FPS {
        once(s, 4, MessageView::SetFps(u16_at(s, 2)))
    } else {
        Decoded::Invalid(ParseError::UnknownMessageType(s[0]))
    }
}

fn read_u16(buf: &BytesMut, at: usize) -> (r: u16)
    requires
        at + 2 <= usize::MAX,
        at + 2 <= buffer::contents(*buf).len(),
    ensures
        r == u16_at(buffer::contents(*buf), at as int),
{
    u16_of_be(byte_at(buf, at), byte_at(buf, at + 1))
}

fn read_u32(buf: &BytesMut, at: usize) -> (r: u32)
    requires
        at + 4 <= usize::MAX,
        at + 4 <= buffer::contents(*buf).len(),
    ensures
        r == u32_at(buffer::contents(*buf), at as int),
{
    u32_of_be(byte_at(buf, at), byte_at(buf, at + 1), byte_at(buf, at + 2), byte_at(buf, at + 3))
}

fn read_rect(buf: &BytesMut, at: usize) -> (r: Rect)
    requires
        at + 8 <= usize::MAX,
        at + 8 <= buffer::contents(*buf).len(),
    ensures
        r == rect_at(buffer::contents(*buf), at as int),
{
    Rect::new(
        read_u16(buf, at),
        read_u16(buf, at + 2),
        read_u16(buf, at + 4),
        read_u16(buf, at + 6),
    )
}

fn read_format(buf: &BytesMut) -> (r: PixelFormat)
    requires
        20 <= buffer::contents(*buf).len(),
    ensures
        r == pixel::format_of(buffer::contents(*buf).subrange(4, 20)),
{
    let bytes = [
        byte_at(buf, 4),
        byte_at(buf, 5),
        byte_at(buf, 6),
        byte_at(buf, 7),
        byte_at(buf, 8),
        byte_at(buf, 9),
        byte_at(buf, 10),
        byte_at(buf, 11),
        byte_at(buf, 12),
        byte_at(buf, 13),
        byte_at(buf, 14),
        byte_at(buf, 15),
        byte_at(buf, 16),
        byte_at(buf, 17),
        byte_at(buf, 18),
        byte_at(buf, 19),
    ];
    assert(bytes@ =~= buffer::contents(*buf).subrange(4, 20));
    PixelFormat::from_bytes(&bytes)
}

fn read_encodings(buf: &BytesMut, count: u16) -> (r: Vec<i32>)
    requires
        4 + 4 * count <= buffer::contents(*buf).len(),
    ensures
        r@ == Seq::new(
            count as nat,
            |i: int| wire::i32_of_bits(u32_at(buffer::contents(*buf), 4 + 4 * i)),
        ),
{
    let mut encodings: Vec<i32> = Vec::new();
    let mut i: u16 = 0;
    while i < count
        invariant
            i <= count,
            4 + 4 * count <= buffer::contents(*buf).len(),
            encodings@ == Seq::new(
                i as nat,
                |j: int| wire::i32_of_bits(u32_at(buffer::contents(*buf), 4 + 4 * j)),
            ),
        decreases count - i,
    {
        encodings.push(i32_from_bits(read_u32(buf, 4 + 4 * i as usize)));
        i = i + 1;
        assert(encodings@ =~= Seq::new(
            i as nat,
            |j: int| wire::i32_of_bits(u32_at(buffer::contents(*buf), 4 + 4 * j)),
        ));
    }
    encodings
}

impl ClientMessage {
    /// Takes the first message off the buffer. `Ok(None)` where it is not all
    /// there yet; then, and on an error, the buffer is left alone. Clipboard
    /// text that is valid UTF-8 is read exactly; in other text, what is not
    /// valid is replaced.
    pub fn parse(buf: &mut BytesMut) -> (r: Result<Option<ClientMessage>, ParseError>)
        ensures
            match decode(buffer::contents(*old(buf))) {
                Decoded::Incomplete => r == Ok::<Option<ClientMessage>, ParseError>(None)
                    && buffer::contents(*final(buf)) == buffer::contents(*old(buf)),
                Decoded::Message(m, size) => r is Ok && r->Ok_0 is Some && r->Ok_0->0@ == m
                    && buffer::contents(*final(buf)) == buffer::contents(*old(buf)).skip(
                    size as int,
                ),
                Decoded::Invalid(e) => r == Err::<Option<ClientMessage>, ParseError>(e)
                    && buffer::contents(*final(buf)) == buffer::contents(*old(buf)),
            },
            r matches Ok(Some(ClientMessage::ClientCutText(t))) ==> {
                let s = buffer::contents(*old(buf));
                let bytes = s.subrange(8, 8 + u32_at(s, 4));
                vstd::utf8::valid_utf8(bytes) ==> t@ == vstd::utf8::decode_utf8(bytes)
            },
    {
        let ghost s = buffer::contents(*buf);
        let size: usize = buffer_len(buf);
        if size == 0 {
            return Ok(None);
        }
        let msg_type: u8 = byte_at(buf, 0);
        if msg_type == CLIENT_MSG_SET_PIXEL_FORMAT {
            if size < 20 {
                return Ok(None);
            }
            let format = read_format(buf);
            advance(buf, 20);
            Ok(Some(ClientMessage::SetPixelFormat(format)))
        } else if msg_type == CLIENT_MSG_SET_ENCODINGS {
            if size < 4 {
                return Ok(None);
            }
            let count: u16 = read_u16(buf, 2);
            let needed: usize = 4 + 4 * count as usize;
            if size < needed {
                return Ok(None);
            }
            let encodings = read_encodings(buf, count);
            advance(buf, needed);
            Ok(Some(ClientMessage::SetEncodings(encodings)))
        } else if msg_type == CLIENT_MSG_FRAMEBUFFER_UPDATE_REQ {
            if size < 10 {
                return Ok(None);
            }
            let incremental = byte_at(buf, 1) != 0;
            let rect = read_rect(buf, 2);
            advance(buf, 10);
            Ok(Some(ClientMessage::FramebufferUpdateRequest { incremental, rect }))
        } else if msg_type == CLIENT_MSG_KEY_EVENT {
            if size < 8 {
                return Ok(None);
            }
            let down = byte_at(buf, 1) != 0;
            let key_sym: u32 = read_u32(buf, 4);
            advance(buf, 8);
            Ok(Some(ClientMessage::KeyEvent { down, key_sym }))
        } else if msg_type == CLIENT_MSG_POINTER_EVENT {
            if size < 6 {
                return Ok(None);
            }
            let button_mask: u8 = byte_at(buf, 1);
            let x: u16 = read_u16(buf, 2);
            let y: u16 = read_u16(buf, 4);
            advance(buf, 6);
            Ok(Some(ClientMessage::PointerEvent { button_mask, x, y }))
        } else if msg_type == CLIENT_MSG_CLIENT_CUT_TEXT {
            if size < 8 {
                return Ok(None);
            }
            let length: u32 = read_u32(buf, 4);
            if length > CUT_TEXT_PARSE_LIMIT {
                return Err(ParseError::CutTextTooLong(length));
            }
            if size < 8 + length as usize {
                return Ok(None);
            }
            advance(buf, 8);
            let bytes = split_to(buf, length as usize);
            assert(bytes@ =~= s.subrange(8, 8 + length));
            assert(buffer::contents(*buf) =~= s.skip(8 + length));
            Ok(Some(ClientMessage::ClientCutText(from_utf8_lossy(bytes.as_slice()))))
        } else if msg_type == CLIENT_MSG_ENABLE_CONTINUOUS_UPDATES {
            if size < 10 {
                return Ok(None);
            }
            let enable = byte_at(buf, 1) != 0;
            let rect = read_rect(buf, 2);
            advance(buf, 10);
            Ok(Some(ClientMessage::EnableContinuousUpdates { enable, rect }))
        } else if msg_type == CLIENT_MSG_SET_FPS {
            if size < 4 {
                return Ok(None);
            }
            let fps: u16 = read_u16(buf, 2);
            advance(buf, 4);
            Ok(Some(ClientMessage::SetFps(fps)))
        } else {
            Err(ParseError::UnknownMessageType(msg_type))
        }
    }
}

/// Header of one rectangle of a framebuffer update (RFC 6143, 7.6.1).
#[derive(Debug, Clone, Copy, PartialEq, Eq, Structural)]
pub struct UpdateRectHeader {
    pub rect: Rect,
    pub encoding: i32,
}

/// The twelve bytes of a rectangle header: position, size and encoding, each
/// most significant byte first.
pub open spec fn header_bytes(h: UpdateRectHeader) -> Seq<u8> {
    wire::be16(h.rect.x) + wire::be16(h.rect.y) + wire::be16(h.rect.width) + wire::be16(
        h.rect.height,
    ) + wire::be32(wire::i32_bits(h.encoding))
}

/// The header in the first twelve bytes.
pub open spec fn header_of(s: Seq<u8>) -> UpdateRectHeader {
    UpdateRectHeader { rect: rect_at(s, 0), encoding: wire::i32_of_bits(u32_at(s, 8)) }
}

impl UpdateRectHeader {
    pub const HEADER_SIZE: usize = 12;

    pub fn new(rect: Rect, encoding: i32) -> (r: Self)
        ensures
            r == (UpdateRectHeader { rect, encoding }),
    {
        UpdateRectHeader { rect, encoding }
    }

    /// The bytes of the header.
    pub fn to_bytes(&self) -> (r: [u8; 12])
        ensures
            r@ == header_bytes(*self),
    {
        let x = u16_to_be(self.rect.x);
        let y = u16_to_be(self.rect.y);
        let w = u16_to_be(self.rect.width);
        let h = u16_to_be(self.rect.height);
        let e = u32_to_be(i32_to_bits(self.encoding));
        let r = [x[0], x[1], y[0], y[1], w[0], w[1], h[0], h[1], e[0], e[1], e[2], e[3]];
        assert(r@ =~= header_bytes(*self));
        r
    }

    /// Appends the header to a buffer.
    pub fn write_to(&self, buf: &mut BytesMut)
        ensures
            buffer::contents(*final(buf)) == buffer::contents(*old(buf)) + header_bytes(*self),
    {
        let bytes = self.to_bytes();
        append(buf, bytes.as_slice());
    }

    /// Reads a header; `None` where there are fewer than twelve bytes.
    pub fn parse(slice: &[u8]) -> (r: Option<Self>)
        ensures
            r == if slice@.len() < 12 {
                None
            } else {
                Some(header_of(slice@))
            },
    {
        if slice.len() < 12 {
            return None;
        }
        let rect = Rect::new(
            u16_of_be(slice[0], slice[1]),
            u16_of_be(slice[2], slice[3]),
            u16_of_be(slice[4], slice[5]),
            u16_of_be(slice[6], slice[7]),
        );
        let encoding: i32 = i32_from_bits(u32_of_be(slice[8], slice[9], slice[10], slice[11]));
        Some(UpdateRectHeader { rect, encoding })
    }
}

/// Builders of messages from the server.
pub struct ServerMessage;

/// The start of a session as the client sees it (RFC 6143, 7.3.2).
pub open spec fn server_init_bytes(
    width: u16,
    height: u16,
    format: PixelFormat,
    name: Seq<u8>,
) -> Seq<u8> {
    wire::be16(width) + wire::be16(height) + pixel::format_bytes(format) + wire::be32(
        name.len() as u32,
    ) + name
}

/// The clipboard text for the client (RFC 6143, 7.6.4).
pub open spec fn server_cut_text_bytes(text: Seq<u8>) -> Seq<u8> {
    seq![SERVER_MSG_SERVER_CUT_TEXT, 0u8, 0u8, 0u8] + wire::be32(text.len() as u32) + text
}

impl ServerMessage {
    /// Size, pixel format and name of the desktop.
    pub fn server_init(
        width: u16,
        height: u16,
        format: &PixelFormat,
        desktop_name: &str,
    ) -> (r: Vec<u8>)
        ensures
            r@ == server_init_bytes(width, height, *format, vstd::utf8::encode_utf8(desktop_name@)),
    {
        let name_bytes = desktop_name.as_bytes();
        let mut buf: Vec<u8> = Vec::new();
        buf.extend_from_slice(u16_to_be(width).as_slice());
        buf.extend_from_slice(u16_to_be(height).as_slice());
        buf.extend_from_slice(format.to_bytes().as_slice());
        buf.extend_from_slice(u32_to_be(name_bytes.len() as u32).as_slice());
        buf.extend_from_slice(name_bytes);
        assert(buf@ =~= server_init_bytes(width, height, *format, vstd::utf8::encode_utf8(desktop_name@)));
        buf
    }

    /// The clipboard text.
    pub fn server_cut_text(text: &str) -> (r: Vec<u8>)
        ensures
            r@ == server_cut_text_bytes(vstd::utf8::encode_utf8(text@)),
    {
        let bytes = text.as_bytes();
        let mut buf: Vec<u8> = Vec::new();
        buf.push(SERVER_MSG_SERVER_CUT_TEXT);
        buf.push(0);
        buf.push(0);
        buf.push(0);
        buf.extend_from_slice(u32_to_be(bytes.len() as u32).as_slice());
        buf.extend_from_slice(bytes);
        assert(buf@ =~= server_cut_text_bytes(vstd::utf8::encode_utf8(text@)));
        buf
    }

    /// The bell (RFC 6143, 7.6.3).
    pub fn bell() -> (r: [u8; 1])
        ensures
            r@ == seq![SERVER_MSG_BELL],
    {
        let r = [SERVER_MSG_BELL];
        assert(r@ =~= seq![SERVER_MSG_BELL]);
        r
    }

    /// The end of continuous updates.
    pub fn end_of_continuous_updates() -> (r: [u8; 1])
        ensures
            r@ == seq![SERVER_MSG_END_OF_CONTINUOUS_UPDATES],
    {
        let r = [SERVER_MSG_END_OF_CONTINUOUS_UPDATES];
        assert(r@ =~= seq![SERVER_MSG_END_OF_CONTINUOUS_UPDATES]);
        r
    }
}

/// A header read back from its own bytes is the same header.
pub proof fn law_header_round_trip(h: UpdateRectHeader)
    ensures
        header_bytes(h).len() == 12,
        header_of(header_bytes(h)) == h,
{
    wire::law_be16_round_trip(h.rect.x);
    wire::law_be16_round_trip(h.rect.y);
    wire::law_be16_round_trip(h.rect.width);
    wire::law_be16_round_trip(h.rect.height);
    wire::law_be32_round_trip(wire::i32_bits(h.encoding));
    wire::law_i32_bits_round_trip(h.encoding);
    let s = header_bytes(h);
    assert(s[0] == wire::be16(h.rect.x)[0] && s[1] == wire::be16(h.rect.x)[1]);
    assert(s[2] == wire::be16(h.rect.y)[0] && s[3] == wire::be16(h.rect.y)[1]);
    assert(s[4] == wire::be16(h.rect.width)[0] && s[5] == wire::be16(h.rect.width)[1]);
    assert(s[6] == wire::be16(h.rect.height)[0] && s[7] == wire::be16(h.rect.height)[1]);
    let e = wire::be32(wire::i32_bits(h.encoding));
    assert(s[8] == e[0] && s[9] == e[1] && s[10] == e[2] && s[11] == e[3]);
}

/// A message that is all there stays what it is when more bytes arrive, and
/// so does an error.
pub proof fn law_more_bytes_change_no_message(s: Seq<u8>, more: Seq<u8>)
    requires
        !(decode(s) is Incomplete),
    ensures
        decode(s + more) == decode(s),
{
    let t = s + more;
    assert(t[0] == s[0]);
    if s[0] == CLIENT_MSG_SET_PIXEL_FORMAT {
        assert(t.subrange(4, 20) =~= s.subrange(4, 20));
    } else if s[0] == CLIENT_MSG_SET_ENCODINGS {
        let count = u16_at(s, 2) as nat;
        let a = Seq::new(count, |i: int| wire::i32_of_bits(u32_at(s, 4 + 4 * i)));
        let b = Seq::new(count, |i: int| wire::i32_of_bits(u32_at(t, 4 + 4 * i)));
        assert(a =~= b);
    } else if s[0] == CLIENT_MSG_CLIENT_CUT_TEXT {
        let length = u32_at(s, 4);
        if length <= CUT_TEXT_PARSE_LIMIT {
            assert(t.subrange(8, 8 + length) =~= s.subrange(8, 8 + length));
        }
    }
}

/// A message takes up at least four bytes and no more than there are, so that
/// taking messages off a buffer comes to an end.
pub proof fn law_message_size(s: Seq<u8>)
    ensures
        decode(s) matches Decoded::Message(m, size) ==> 4 <= size <= s.len(),
{
}

/// The bytes of a message: what a client sends to say `m`. The text of a
/// clipboard message is given as bytes.
pub open spec fn message_bytes(m: MessageView, text: Seq<u8>) -> Seq<u8> {
    match m {
        MessageView::SetPixelFormat(f) => seq![CLIENT_MSG_SET_PIXEL_FORMAT, 0u8, 0u8, 0u8]
            + pixel::format_bytes(f),
        MessageView::SetEncodings(e) => seq![CLIENT_MSG_SET_ENCODINGS, 0u8] + wire::be16(
            e.len() as u16,
        ) + Seq::new(
            4 * e.len(),
            |k: int| wire::be32(wire::i32_bits(e[k / 4]))[k % 4],
        ),
        MessageView::FramebufferUpdateRequest { incremental, rect } => seq![
            CLIENT_MSG_FRAMEBUFFER_UPDATE_REQ,
            flag(incremental),
        ] + rect_bytes(rect),
        MessageView::KeyEvent { down, key_sym } => seq![
            CLIENT_MSG_KEY_EVENT,
            flag(down),
            0u8,
            0u8,
        ] + wire::be32(key_sym),
        MessageView::PointerEvent { button_mask, x, y } => seq![
            CLIENT_MSG_POINTER_EVENT,
            button_mask,
        ] + wire::be16(x) + wire::be16(y),
        MessageView::ClientCutText(_) => seq![CLIENT_MSG_CLIENT_CUT_TEXT, 0u8, 0u8, 0u8]
            + wire::be32(text.len() as u32) + text,
        MessageView::EnableContinuousUpdates { enable, rect } => seq![
            CLIENT_MSG_ENABLE_CONTINUOUS_UPDATES,
            flag(enable),
        ] + rect_bytes(rect),
        MessageView::SetFps(fps) => seq![CLIENT_MSG_SET_FPS, 0u8] + wire::be16(fps),
    }
}

pub open spec fn flag(b: bool) -> u8 {
    if b {
        1
    } else {
        0
    }
}

/// The eight bytes of a rectangle.
pub open spec fn rect_bytes(r: Rect) -> Seq<u8> {
    wire::be16(r.x) + wire::be16(r.y) + wire::be16(r.width) + wire::be16(r.height)
}

proof fn lemma_rect_at(s: Seq<u8>, at: int, r: Rect)
    requires
        0 <= at,
        at + 8 <= s.len(),
        s.subrange(at, at + 8) == rect_bytes(r),
    ensures
        rect_at(s, at) == r,
{
    wire::law_be16_round_trip(r.x);
    wire::law_be16_round_trip(r.y);
    wire::law_be16_round_trip(r.width);
    wire::law_be16_round_trip(r.height);
    let b = rect_bytes(r);
    let c = s.subrange(at, at + 8);
    assert(s[at] == c[0] && s[at + 1] == c[1] && s[at + 2] == c[2] && s[at + 3] == c[3] && s[at + 4]
        == c[4] && s[at + 5] == c[5] && s[at + 6] == c[6] && s[at + 7] == c[7]);
    assert(b[0] == wire::be16(r.x)[0] && b[1] == wire::be16(r.x)[1]);
    assert(b[2] == wire::be16(r.y)[0] && b[3] == wire::be16(r.y)[1]);
    assert(b[4] == wire::be16(r.width)[0] && b[5] == wire::be16(r.width)[1]);
    assert(b[6] == wire::be16(r.height)[0] && b[7] == wire::be16(r.height)[1]);
}

/// Whatever a client says is read as what it said: decoding the bytes of a
/// message gives the message, and uses them up. A list of encodings has to be
/// countable in 16 bits and a text no longer than the limit; the text is what
/// its bytes stand for.
pub proof fn law_decode_inverts_message_bytes(m: MessageView, text: Seq<u8>)
    requires
        m matches MessageView::SetEncodings(e) ==> e.len() <= u16::MAX,
        m matches MessageView::ClientCutText(t) ==> text.len() <= CUT_TEXT_PARSE_LIMIT && t
            == text::utf8_lossy(text),
    ensures
        decode(message_bytes(m, text)) == Decoded::Message(m, message_bytes(m, text).len()),
{
    let s = message_bytes(m, text);
    match m {
        MessageView::SetPixelFormat(f) => {
            pixel::law_format_round_trip(f);
            assert(s.subrange(4, 20) =~= pixel::format_bytes(f));
        },
        MessageView::SetEncodings(e) => {
            let n = e.len();
            wire::law_be16_round_trip(n as u16);
            assert(s[2] == wire::be16(n as u16)[0] && s[3] == wire::be16(n as u16)[1]);
            let got = Seq::new(n, |i: int| wire::i32_of_bits(u32_at(s, 4 + 4 * i)));
            assert forall|i: int| 0 <= i < n implies got[i] == e[i] by {
                let v = wire::i32_bits(e[i]);
                wire::law_be32_round_trip(v);
                wire::law_i32_bits_round_trip(e[i]);
                assert((4 * i) / 4 == i && (4 * i + 1) / 4 == i && (4 * i + 2) / 4 == i && (4 * i
                    + 3) / 4 == i);
                assert(s[4 + 4 * i] == wire::be32(v)[0]);
                assert(s[4 + 4 * i + 1] == wire::be32(v)[1]);
                assert(s[4 + 4 * i + 2] == wire::be32(v)[2]);
                assert(s[4 + 4 * i + 3] == wire::be32(v)[3]);
            }
            assert(got =~= e);
        },
        MessageView::FramebufferUpdateRequest { incremental, rect } => {
            assert(s.subrange(2, 10) =~= rect_bytes(rect));
            lemma_rect_at(s, 2, rect);
        },
        MessageView::KeyEvent { down, key_sym } => {
            wire::law_be32_round_trip(key_sym);
            let b = wire::be32(key_sym);
            assert(s[4] == b[0] && s[5] == b[1] && s[6] == b[2] && s[7] == b[3]);
        },
        MessageView::PointerEvent { button_mask, x, y } => {
            wire::law_be16_round_trip(x);
            wire::law_be16_round_trip(y);
            assert(s[2] == wire::be16(x)[0] && s[3] == wire::be16(x)[1]);
            assert(s[4] == wire::be16(y)[0] && s[5] == wire::be16(y)[1]);
        },
        MessageView::ClientCutText(t) => {
            let n = text.len() as u32;
            wire::law_be32_round_trip(n);
            let b = wire::be32(n);
            assert(s[4] == b[0] && s[5] == b[1] && s[6] == b[2] && s[7] == b[3]);
            assert(s.subrange(8, 8 + n) =~= text);
        },
        MessageView::EnableContinuousUpdates { enable, rect } => {
            assert(s.subrange(2, 10) =~= rect_bytes(rect));
            lemma_rect_at(s, 2, rect);
        },
        MessageView::SetFps(fps) => {
            wire::law_be16_round_trip(fps);
            assert(s[2] == wire::be16(fps)[0] && s[3] == wire::be16(fps)[1]);
        },
    }
}

/// Where the numbers of a rectangle header stand: twelve bytes, most significant
/// byte first, the encoding in two's complement.
pub proof fn law_header_layout(h: UpdateRectHeader)
    ensures
        ({
            let s = header_bytes(h);
            let e = s[8] * 0x100_0000 + s[9] * 0x1_0000 + s[10] * 0x100 + s[11];
            &&& s.len() == 12
            &&& s[0] * 256 + s[1] == h.rect.x
            &&& s[2] * 256 + s[3] == h.rect.y
            &&& s[4] * 256 + s[5] == h.rect.width
            &&& s[6] * 256 + s[7] == h.rect.height
            &&& e == h.encoding || e == h.encoding + 0x1_0000_0000
        }),
{
    law_header_round_trip(h);
    let s = header_bytes(h);
    wire::law_be16_digits(h.rect.x, 0, 0);
    wire::law_be16_digits(h.rect.y, 0, 0);
    wire::law_be16_digits(h.rect.width, 0, 0);
    wire::law_be16_digits(h.rect.height, 0, 0);
    let bits = wire::i32_bits(h.encoding);
    wire::law_be32_digits(bits, 0, 0, 0, 0);
    assert(s[0] == wire::be16(h.rect.x)[0] && s[1] == wire::be16(h.rect.x)[1]);
    assert(s[2] == wire::be16(h.rect.y)[0] && s[3] == wire::be16(h.rect.y)[1]);
    assert(s[4] == wire::be16(h.rect.width)[0] && s[5] == wire::be16(h.rect.width)[1]);
    assert(s[6] == wire::be16(h.rect.height)[0] && s[7] == wire::be16(h.rect.height)[1]);
    let e = wire::be32(bits);
    assert(s[8] == e[0] && s[9] == e[1] && s[10] == e[2] && s[11] == e[3]);
}

/// How the numbers in a header are read.
pub proof fn law_header_reading(s: Seq<u8>)
    requires
        s.len() >= 12,
    ensures
        ({
            let h = header_of(s);
            let e = s[8] * 0x100_0000 + s[9] * 0x1_0000 + s[10] * 0x100 + s[11];
            &&& h.rect.x == s[0] * 256 + s[1]
            &&& h.rect.y == s[2] * 256 + s[3]
            &&& h.rect.width == s[4] * 256 + s[5]
            &&& h.rect.height == s[6] * 256 + s[7]
            &&& h.encoding == e || h.encoding == e - 0x1_0000_0000
        }),
{
}

/// Type 4: whether a key went down, and which. The second byte tells whether it
/// is down; the symbol is in the last four of eight bytes.
pub proof fn law_key_event_bytes(s: Seq<u8>)
    requires
        s.len() >= 8,
        s[0] == 4,
    ensures
        decode(s) == Decoded::Message(
            MessageView::KeyEvent {
                down: s[1] != 0,
                key_sym: (s[4] * 0x100_0000 + s[5] * 0x1_0000 + s[6] * 0x100 + s[7]) as u32,
            },
            8,
        ),
{
}

/// Type 5: which buttons are down, and where the pointer is.
pub proof fn law_pointer_event_bytes(s: Seq<u8>)
    requires
        s.len() >= 6,
        s[0] == 5,
    ensures
        decode(s) == Decoded::Message(
            MessageView::PointerEvent {
                button_mask: s[1],
                x: (s[2] * 256 + s[3]) as u16,
                y: (s[4] * 256 + s[5]) as u16,
            },
            6,
        ),
{
}

/// The rectangle in eight bytes: left, top, width and height.
pub open spec fn rect_in(s: Seq<u8>, at: int) -> Rect {
    Rect {
        x: (s[at] * 256 + s[at + 1]) as u16,
        y: (s[at + 2] * 256 + s[at + 3]) as u16,
        width: (s[at + 4] * 256 + s[at + 5]) as u16,
        height: (s[at + 6] * 256 + s[at + 7]) as u16,
    }
}

/// Type 3 asks for an update, and type 150 for updates from now on, of a
/// rectangle; their second byte tells whether incremental, and whether at all.
pub proof fn law_update_request_bytes(s: Seq<u8>)
    requires
        s.len() >= 10,
    ensures
        s[0] == 3 ==> decode(s) == Decoded::Message(
            MessageView::FramebufferUpdateRequest { incremental: s[1] != 0, rect: rect_in(s, 2) },
            10,
        ),
        s[0] == 150 ==> decode(s) == Decoded::Message(
            MessageView::EnableContinuousUpdates { enable: s[1] != 0, rect: rect_in(s, 2) },
            10,
        ),
{
}

/// Type 0: the pixel format that the client wants, behind three bytes of padding.
pub proof fn law_set_pixel_format_bytes(s: Seq<u8>)
    requires
        s.len() >= 20,
        s[0] == 0,
    ensures
        decode(s) == Decoded::Message(
            MessageView::SetPixelFormat(
                PixelFormat {
                    bits_per_pixel: s[4],
                    depth: s[5],
                    big_endian_flag: s[6],
                    true_colour_flag: s[7],
                    red_max: (s[8] * 256 + s[9]) as u16,
                    green_max: (s[10] * 256 + s[11]) as u16,
                    blue_max: (s[12] * 256 + s[13]) as u16,
                    red_shift: s[14],
                    green_shift: s[15],
                    blue_shift: s[16],
                },
            ),
            20,
        ),
{
}

/// Type 2: the encodings that the client knows, four bytes each in two's
/// complement, behind their number.
pub proof fn law_set_encodings_bytes(s: Seq<u8>)
    requires
        s.len() >= 4,
        s[0] == 2,
    ensures
        ({
            let count = s[2] * 256 + s[3];
            if s.len() < 4 + 4 * count {
                decode(s) == Decoded::Incomplete
            } else {
                &&& decode(s) matches Decoded::Message(MessageView::SetEncodings(e), size)
                &&& size == 4 + 4 * count
                &&& e.len() == count
                &&& forall|i: int|
                    0 <= i < count ==> {
                        let bits = s[4 + 4 * i] * 0x100_0000 + s[5 + 4 * i] * 0x1_0000 + s[6 + 4
                            * i] * 0x100 + s[7 + 4 * i];
                        (#[trigger] e[i]) == bits || e[i] == bits - 0x1_0000_0000
                    }
            }
        }),
{
}

/// Type 6: a text for the clipboard, behind its length in bytes, which may be up
/// to 10 MiB.
pub proof fn law_cut_text_bytes(s: Seq<u8>)
    requires
        s.len() >= 8,
        s[0] == 6,
    ensures
        ({
            let length = s[4] * 0x100_0000 + s[5] * 0x1_0000 + s[6] * 0x100 + s[7];
            if length > 10 * 1024 * 1024 {
                decode(s) == Decoded::Invalid(ParseError::CutTextTooLong(length as u32))
            } else if s.len() < 8 + length {
                decode(s) == Decoded::Incomplete
            } else {
                decode(s) == Decoded::Message(
                    MessageView::ClientCutText(text::utf8_lossy(s.subrange(8, 8 + length))),
                    (8 + length) as nat,
                )
            }
        }),
{
}

/// Type 254: another capture rate, in the last two of four bytes.
pub proof fn law_set_fps_bytes(s: Seq<u8>)
    requires
        s.len() >= 4,
        s[0] == 254,
    ensures
        decode(s) == Decoded::Message(MessageView::SetFps((s[2] * 256 + s[3]) as u16), 4),
{
}

/// A message that is not all there is waited for: only the type, and what its
/// length is read from, has to have come. Any other type is an error at once.
pub proof fn law_what_is_waited_for(s: Seq<u8>)
    ensures
        s.len() == 0 ==> decode(s) is Incomplete,
        s.len() > 0 && s[0] == 0 && s.len() < 20 ==> decode(s) is Incomplete,
        s.len() > 0 && s[0] == 2 && s.len() < 4 ==> decode(s) is Incomplete,
        s.len() > 0 && (s[0] == 3 || s[0] == 150) && s.len() < 10 ==> decode(s) is Incomplete,
        s.len() > 0 && (s[0] == 4 || s[0] == 6) && s.len() < 8 ==> decode(s) is Incomplete,
        s.len() > 0 && s[0] == 5 && s.len() < 6 ==> decode(s) is Incomplete,
        s.len() > 0 && s[0] == 254 && s.len() < 4 ==> decode(s) is Incomplete,
        s.len() > 0 && s[0] != 0 && !(2 <= s[0] <= 6) && s[0] != 150 && s[0] != 254 ==> decode(s)
            == Decoded::Invalid(ParseError::UnknownMessageType(s[0])),
{
}

/// What the server's first message holds: width and height, the format, and the
/// name behind its length.
pub proof fn law_server_init_layout(width: u16, height: u16, f: PixelFormat, name: Seq<u8>)
    requires
        name.len() <= u32::MAX,
    ensures
        ({
            let s = server_init_bytes(width, height, f, name);
            &&& s.len() == 24 + name.len()
            &&& s[0] * 256 + s[1] == width
            &&& s[2] * 256 + s[3] == height
            &&& s.subrange(4, 20) == pixel::format_bytes(f)
            &&& s[20] * 0x100_0000 + s[21] * 0x1_0000 + s[22] * 0x100 + s[23] == name.len()
            &&& s.skip(24) == name
        }),
{
    let s = server_init_bytes(width, height, f, name);
    pixel::law_format_layout(f);
    wire::law_be16_digits(width, 0, 0);
    wire::law_be16_digits(height, 0, 0);
    wire::law_be32_digits(name.len() as u32, 0, 0, 0, 0);
    let n = wire::be32(name.len() as u32);
    assert(s[0] == wire::be16(width)[0] && s[1] == wire::be16(width)[1]);
    assert(s[2] == wire::be16(height)[0] && s[3] == wire::be16(height)[1]);
    assert(s.subrange(4, 20) =~= pixel::format_bytes(f));
    assert(s[20] == n[0] && s[21] == n[1] && s[22] == n[2] && s[23] == n[3]);
    assert(s.skip(24) =~= name);
}

/// The clipboard message to clients: type 3, padding, the length, the text.
pub proof fn law_server_cut_text_layout(text: Seq<u8>)
    requires
        text.len() <= u32::MAX,
    ensures
        ({
            let s = server_cut_text_bytes(text);
            &&& s.take(4) == seq![3u8, 0u8, 0u8, 0u8]
            &&& s[4] * 0x100_0000 + s[5] * 0x1_0000 + s[6] * 0x100 + s[7] == text.len()
            &&& s.skip(8) == text
        }),
{
    let s = server_cut_text_bytes(text);
    wire::law_be32_digits(text.len() as u32, 0, 0, 0, 0);
    let n = wire::be32(text.len() as u32);
    assert(s.take(4) =~= seq![3u8, 0u8, 0u8, 0u8]);
    assert(s[4] == n[0] && s[5] == n[1] && s[6] == n[2] && s[7] == n[3]);
    assert(s.skip(8) =~= text);
}

} // verus!
