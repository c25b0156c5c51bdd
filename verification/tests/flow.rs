use bytes::BytesMut;
use clm_vdisplay::display::framebuffer::{PixelFormat, Rect, TileFramebuffer};
use clm_vdisplay::input::ClipboardManager;
use clm_vdisplay::metrics::MetricsRegistry;
use clm_vdisplay::rfb::encoder::encode_zrle_rect;
use clm_vdisplay::rfb::engine::{HandshakeAction, Phase, RfbProtocolEngine, SessionAction};
use clm_vdisplay::rfb::message::{ClientMessage, ServerMessage};
use clm_vdisplay::server::{DisplaySession, SessionConfig};
use clm_vdisplay::x11::clipboard::{
    ClipboardAtoms, SelectionData, SelectionRequest, X11ClipboardBridge,
};

#[test]
fn a_handshake_in_one_piece() {
    let mut engine = RfbProtocolEngine::new(1, "peer".to_string(), "desk".to_string(), None);
    // Version, security, sharing, and a first message of the session.
    let mut staging = BytesMut::from(&b"RFB 003.008\n\x01\x00\xfe\x00\x00\x0f"[..]);
    let mut sent = 0;
    while engine.phase != Phase::Session {
        match engine.handshake(&mut staging, 64, 64, &PixelFormat::bgra32()) {
            HandshakeAction::Send(_) | HandshakeAction::Start(_) => sent += 1,
            _ => panic!("unexpected action"),
        }
    }
    assert_eq!(sent, 3);
    assert_eq!(&staging[..], &[0xfe, 0, 0, 15]);
    assert!(matches!(engine.next_action(&mut staging), Ok(Some(SessionAction::SetFps(15)))));
}

#[test]
fn a_handshake_byte_by_byte() {
    let mut engine = RfbProtocolEngine::new(1, "peer".to_string(), "desk".to_string(), None);
    let mut staging = BytesMut::new();
    let bytes = b"RFB 003.008\n\x01\x00";
    for (i, &byte) in bytes.iter().enumerate() {
        assert_ne!(engine.phase, Phase::Session);
        staging.extend_from_slice(&[byte]);
        let action = engine.handshake(&mut staging, 64, 64, &PixelFormat::bgra32());
        assert_eq!(matches!(action, HandshakeAction::Receive), i < 11);
    }
    assert_eq!(engine.phase, Phase::Session);
}

#[test]
fn a_whole_frame_is_shown() {
    let mut fb = TileFramebuffer::new(100, 70);
    let frame: Vec<u8> = (0..100 * 70 * 4).map(|i| (i * 31 % 251) as u8).collect();
    fb.update_rect_from_full_frame(0, 0, 100, 70, &frame);
    assert_eq!(fb.raw_slice(), &frame[..]);
    assert_eq!(fb.detect_damage_tiles().len(), 4);
    // The same part of the same frame again.
    fb.update_rect_from_full_frame(10, 10, 80, 50, &frame);
    assert!(fb.has_dirty_tiles());
    assert!(fb.detect_damage_tiles().is_empty());
}

#[test]
fn zrle_tells_pictures_apart() {
    let mut fb = TileFramebuffer::new(8, 8);
    let format = PixelFormat::bgra32();
    let mut one = BytesMut::new();
    encode_zrle_rect(&fb, &Rect::new(0, 0, 8, 8), &format, &mut one);
    fb.update_rect(3, 3, 1, 1, &[0, 0, 0, 1], 4);
    let mut other = BytesMut::new();
    encode_zrle_rect(&fb, &Rect::new(0, 0, 8, 8), &format, &mut other);
    assert_ne!(one, other);
}

#[test]
fn clipboard_there_and_back() {
    let atoms = ClipboardAtoms {
        clipboard: 11,
        primary: 12,
        utf8: 13,
        targets: 14,
        text: 15,
        timestamp: 16,
        incr: 17,
        property: 18,
        string: 19,
    };
    let mut bridge = X11ClipboardBridge::new(99, atoms);
    let mut clipboard = ClipboardManager::new();
    let text = "grüß €\n";

    // From the client to the desktop.
    let mut staging = BytesMut::from(&[6u8, 0, 0, 0, 0, 0, 0, text.len() as u8][..]);
    staging.extend_from_slice(text.as_bytes());
    let kept = match ClientMessage::parse(&mut staging) {
        Ok(Some(ClientMessage::ClientCutText(t))) => clipboard.set_from_client(t),
        _ => panic!("no text"),
    };
    assert_eq!(bridge.own_from_client(&kept), [11, 12]);
    let reply = bridge.handle_selection_request(&SelectionRequest {
        time: 1,
        requestor: 5,
        selection: 11,
        target: 13,
        property: 20,
    });
    match reply.data {
        SelectionData::Text(ty, bytes) => {
            assert_eq!(ty, 13);
            assert_eq!(bytes, text.as_bytes());
        }
        _ => panic!("no text on offer"),
    }

    // From the desktop to the client.
    let read = bridge.read_property_text(13, text.as_bytes()).expect("text in the property");
    let told = clipboard.set_from_server(read);
    let message = ServerMessage::server_cut_text(&told);
    assert_eq!(&message[8..], text.as_bytes());
}

#[test]
fn connections_balance() {
    let mut m = MetricsRegistry::new();
    m.inc_active_connections();
    m.inc_active_connections();
    m.dec_active_connections();
    assert_eq!((m.active_connections, m.total_connections), (1, 2));
}

#[test]
fn an_area_is_its_rows() {
    let mut fb = TileFramebuffer::new(40, 30);
    let frame: Vec<u8> = (0..40 * 30 * 4).map(|i| (i * 37 % 241) as u8).collect();
    fb.update_rect_from_full_frame(0, 0, 40, 30, &frame);
    let rgb565 = PixelFormat {
        bits_per_pixel: 16,
        depth: 16,
        red_max: 31,
        green_max: 63,
        blue_max: 31,
        red_shift: 11,
        green_shift: 5,
        blue_shift: 0,
        ..PixelFormat::bgra32()
    };
    for format in [PixelFormat::bgra32(), PixelFormat::rgba32(), PixelFormat::rgb24(), rgb565] {
        // Many rows, partly beyond the right and the lower edge; and few rows.
        for rect in [Rect::new(33, 5, 12, 32), Rect::new(2, 3, 5, 4)] {
            let whole = fb.extract_rect_bytes(&rect, &format);
            let mut rows = Vec::new();
            for r in 0..rect.height {
                let row = Rect::new(rect.x, rect.y + r, rect.width, 1);
                rows.extend(fb.extract_rect_bytes(&row, &format));
            }
            assert_eq!(whole, rows);
        }
    }
    // The pixel right of the screen, and the row below it.
    let edge = fb.extract_rect_bytes(&Rect::new(39, 29, 2, 2), &PixelFormat::bgra32());
    assert_eq!(&edge[..4], &frame[frame.len() - 4..]);
    assert_eq!(&edge[4..], &[0; 12]);
}

#[test]
fn the_parts_of_a_new_session() {
    let session = DisplaySession::new(SessionConfig {
        display_num: 7,
        width: 70,
        height: 50,
        rfb_port: 5907,
        ws_port: None,
        auth_token: None,
        mode: "hybrid".to_string(),
    });
    let display = session.display;
    assert_eq!(display.depth, 24);
    let x11 = display.x11.expect("an X11 part");
    assert_eq!((x11.display_num, x11.width, x11.height, x11.depth), (7, 70, 50, 24));
    assert_eq!(x11.lock_file, "/tmp/.X7-lock");
    assert_eq!(x11.socket_path, "/tmp/.X11-unix/X7");
    let wayland = display.wayland.expect("a Wayland part");
    assert_eq!(wayland.display_name, "wayland-7");
    assert_eq!((wayland.width, wayland.height), (70, 50));
    let mut shared = display.framebuffer;
    assert_eq!((shared.frame_counter, shared.inner.frame_version), (1, 1));
    assert_eq!(shared.inner.format, PixelFormat::bgra32());
    assert!(shared.inner.raw_slice().iter().all(|&b| b == 0));
    assert_eq!(shared.inner.detect_damage_tiles().len(), 2);
}
