use bytes::{BufMut, BytesMut};
use clm_vdisplay::display::framebuffer::{PixelFormat, Rect, TileFramebuffer};
use clm_vdisplay::rfb::engine::{
    build_framebuffer_update, clamp_live_fps, ClientState, HandshakeAction, Phase,
    RfbProtocolEngine, SessionAction,
};
use clm_vdisplay::rfb::message::{
    ClientMessage, ParseError, UpdateRectHeader, ENCODING_RAW, ENCODING_TIGHT, ENCODING_ZRLE,
    PSEUDO_ENCODING_CURSOR, PSEUDO_ENCODING_DESKTOP_SIZE, PSEUDO_ENCODING_LAST_RECT,
};
use clm_vdisplay::rfb::tcp_server::TcpRfbServer;
use clm_vdisplay::rfb::ws_server::{WsAnswer, WsRfbServer, UNAUTHORIZED_BODY, UNAUTHORIZED_STATUS};

fn engine() -> RfbProtocolEngine {
    RfbProtocolEngine::new(7, "1.2.3.4:5".to_string(), "desk".to_string(), None)
}

fn step(engine: &mut RfbProtocolEngine, staging: &mut BytesMut) -> HandshakeAction {
    engine.handshake(staging, 640, 480, &PixelFormat::bgra32())
}

#[test]
fn handshake_to_the_end() {
    let mut engine = engine();
    assert_eq!(RfbProtocolEngine::greeting(), b"RFB 003.008\n".to_vec());
    let mut staging = BytesMut::from(&b"RFB 003.0"[..]);
    assert!(matches!(step(&mut engine, &mut staging), HandshakeAction::Receive));
    assert_eq!(staging.len(), 9);
    staging.extend_from_slice(b"08\n");
    // The bytes behind the version stay for the next step.
    staging.put_u8(1);
    match step(&mut engine, &mut staging) {
        HandshakeAction::Send(bytes) => assert_eq!(bytes, vec![1, 1]),
        _ => panic!("unexpected action"),
    }
    match step(&mut engine, &mut staging) {
        HandshakeAction::Send(bytes) => assert_eq!(bytes, vec![0, 0, 0, 0]),
        _ => panic!("unexpected action"),
    }
    assert!(matches!(step(&mut engine, &mut staging), HandshakeAction::Receive));
    staging.put_u8(1);
    match step(&mut engine, &mut staging) {
        HandshakeAction::Start(bytes) => {
            assert_eq!(&bytes[..4], &[2, 128, 1, 224]);
            assert_eq!(&bytes[20..], &[0, 0, 0, 4, b'd', b'e', b's', b'k']);
        }
        _ => panic!("unexpected action"),
    }
    assert_eq!(engine.phase, Phase::Session);
    assert!(staging.is_empty());
}

#[test]
fn other_security_is_refused() {
    for security in [0u8, 2, 255] {
        let mut engine = engine();
        let mut staging = BytesMut::from(&b"RFB 003.003\n"[..]);
        step(&mut engine, &mut staging);
        staging.put_u8(security);
        match step(&mut engine, &mut staging) {
            HandshakeAction::Reject(bytes) => assert_eq!(bytes, vec![0, 0, 0, 1]),
            _ => panic!("unexpected action"),
        }
        assert_ne!(engine.phase, Phase::Session);
    }
}

#[test]
fn messages_become_actions() {
    let mut engine = engine();
    let mut staging = BytesMut::new();
    staging.extend_from_slice(&[5, 1, 0, 3, 0, 4]);
    staging.extend_from_slice(&[254, 0, 0, 200]);
    staging.extend_from_slice(&[3, 1, 0, 0, 0, 0, 0, 9, 0, 9]);
    staging.extend_from_slice(&[4, 0]);
    match engine.next_action(&mut staging) {
        Ok(Some(SessionAction::Pointer { button_mask, x, y })) => {
            assert_eq!((button_mask, x, y), (1, 3, 4))
        }
        _ => panic!("unexpected action"),
    }
    assert!(matches!(engine.next_action(&mut staging), Ok(Some(SessionAction::SetFps(30)))));
    assert!(matches!(engine.next_action(&mut staging), Ok(Some(SessionAction::Nothing))));
    assert!(matches!(engine.next_action(&mut staging), Ok(None)));
    assert_eq!(&staging[..], &[4, 0]);
    match engine.state.after_messages() {
        SessionAction::SendUpdate { target, incremental } => {
            assert_eq!(target, Some(Rect::new(0, 0, 9, 9)));
            assert!(incremental);
        }
        _ => panic!("unexpected action"),
    }
    assert!(matches!(engine.state.after_messages(), SessionAction::Nothing));
    let mut unknown = BytesMut::from(&[200u8][..]);
    assert!(matches!(
        engine.next_action(&mut unknown),
        Err(ParseError::UnknownMessageType(200))
    ));
}

#[test]
fn every_message_has_its_effect() {
    let mut state = ClientState::new(PixelFormat::bgra32());
    state.handle_message(ClientMessage::SetPixelFormat(PixelFormat::rgb24()));
    assert_eq!(state.client_format, PixelFormat::rgb24());
    state.handle_message(ClientMessage::SetEncodings(vec![
        ENCODING_ZRLE,
        PSEUDO_ENCODING_LAST_RECT,
        PSEUDO_ENCODING_CURSOR,
    ]));
    assert!(state.supports_zrle && state.supports_last_rect && state.supports_cursor);
    assert!(!state.supports_tight && !state.supports_desktop_size);
    state.handle_message(ClientMessage::SetEncodings(vec![
        ENCODING_TIGHT,
        PSEUDO_ENCODING_DESKTOP_SIZE,
    ]));
    assert!(state.supports_tight && state.supports_desktop_size);
    assert!(!state.supports_zrle && !state.supports_last_rect && !state.supports_cursor);
    assert_eq!(state.client_encodings, vec![ENCODING_TIGHT, PSEUDO_ENCODING_DESKTOP_SIZE]);
    let rect = Rect::new(1, 2, 3, 4);
    let action = state
        .handle_message(ClientMessage::FramebufferUpdateRequest { incremental: false, rect });
    assert!(matches!(action, SessionAction::SendUpdate { target: Some(_), incremental: false }));
    assert_eq!(state.pending_update_rect, None);
    assert!(matches!(
        state.handle_message(ClientMessage::KeyEvent { down: true, key_sym: 9 }),
        SessionAction::Key { down: true, key_sym: 9 }
    ));
    match state.handle_message(ClientMessage::ClientCutText("hi".to_string())) {
        SessionAction::CutText(text) => assert_eq!(text, "hi"),
        _ => panic!("unexpected action"),
    }
}

#[test]
fn damage_is_answered_when_waited_for() {
    let mut state = ClientState::new(PixelFormat::bgra32());
    assert!(matches!(state.on_damage(), SessionAction::Nothing));
    let rect = Rect::new(0, 0, 5, 5);
    state.handle_message(ClientMessage::EnableContinuousUpdates { enable: true, rect });
    match state.on_damage() {
        SessionAction::SendUpdate { target, incremental } => {
            assert_eq!(target, Some(rect));
            assert!(incremental);
        }
        _ => panic!("unexpected action"),
    }
    // From then on, all damage is sent.
    assert!(matches!(
        state.on_damage(),
        SessionAction::SendUpdate { target: None, incremental: true }
    ));
    state.handle_message(ClientMessage::EnableContinuousUpdates { enable: false, rect });
    assert!(matches!(state.on_damage(), SessionAction::Nothing));
}

#[test]
fn live_rates_are_held_in_range() {
    assert_eq!(clamp_live_fps(0), 1);
    assert_eq!(clamp_live_fps(1), 1);
    assert_eq!(clamp_live_fps(15), 15);
    assert_eq!(clamp_live_fps(30), 30);
    assert_eq!(clamp_live_fps(31), 30);
}

#[test]
fn updates_of_the_screen() {
    let mut fb = TileFramebuffer::new(128, 64);
    let mut client = ClientState::new(PixelFormat::bgra32());
    let mut buf = BytesMut::from(&[1u8, 2, 3][..]);
    assert_eq!(build_framebuffer_update(&mut fb, &client, None, true, &mut buf), 2);
    assert_eq!(&buf[..4], &[0, 0, 0, 2]);
    assert_eq!(buf.len(), 4 + 2 * (12 + 64 * 64 * 4));
    let first = UpdateRectHeader::parse(&buf[4..]).unwrap();
    assert_eq!(first, UpdateRectHeader::new(Rect::new(0, 0, 64, 64), ENCODING_RAW));

    // A static screen sends nothing.
    assert_eq!(build_framebuffer_update(&mut fb, &client, None, true, &mut buf), 0);
    assert!(buf.is_empty());

    // A full update of the right half only, ended by a rectangle of its own.
    client.handle_message(ClientMessage::SetEncodings(vec![
        ENCODING_TIGHT,
        ENCODING_ZRLE,
        PSEUDO_ENCODING_LAST_RECT,
    ]));
    let right = Some(Rect::new(100, 0, 10, 10));
    assert_eq!(build_framebuffer_update(&mut fb, &client, right, false, &mut buf), 1);
    assert_eq!(&buf[..4], &[0, 0, 0, 2]);
    let only = UpdateRectHeader::parse(&buf[4..]).unwrap();
    assert_eq!(only, UpdateRectHeader::new(Rect::new(64, 0, 64, 64), ENCODING_TIGHT));
    let last = UpdateRectHeader::parse(&buf[4 + 12 + 4..]).unwrap();
    assert_eq!(last.encoding, PSEUDO_ENCODING_LAST_RECT);
    assert_eq!(buf.len(), 4 + 16 + 12);

    client.handle_message(ClientMessage::SetEncodings(vec![ENCODING_ZRLE]));
    assert_eq!(build_framebuffer_update(&mut fb, &client, None, false, &mut buf), 2);
    assert_eq!(UpdateRectHeader::parse(&buf[4..]).unwrap().encoding, ENCODING_ZRLE);
}

#[test]
fn tokens_are_required() {
    let open = WsRfbServer::new("0.0.0.0:1".to_string(), "desk".to_string(), None);
    assert_eq!(open.answer("/", None, None), WsAnswer::Accept { binary: false });
    assert_eq!(
        open.answer("/", None, Some("base64, binary")),
        WsAnswer::Accept { binary: true }
    );
    let closed =
        WsRfbServer::new("0.0.0.0:1".to_string(), "desk".to_string(), Some("s3".to_string()));
    assert_eq!(closed.answer("/", None, None), WsAnswer::Unauthorized);
    assert_eq!(closed.answer("/?s3", None, Some("binary")), WsAnswer::Unauthorized);
    assert_eq!(closed.answer("/?a=b&token=s3", None, None), WsAnswer::Accept { binary: false });
    assert_eq!(
        closed.answer("/", Some("Bearer s3"), Some("chat")),
        WsAnswer::Accept { binary: false }
    );
    assert_eq!(closed.answer("/", Some("Bearer s"), None), WsAnswer::Unauthorized);
    assert_eq!(UNAUTHORIZED_STATUS, 401);
    assert_eq!(UNAUTHORIZED_BODY, "Unauthorized: Token Required");
    let tcp = TcpRfbServer::new("0.0.0.0:1".to_string(), "desk".to_string(), None);
    assert_eq!(tcp.bind_addr, "0.0.0.0:1");
}
