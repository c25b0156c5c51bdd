use bytes::{BufMut, BytesMut};
use clm_vdisplay::display::framebuffer::{PixelFormat, Rect};
use clm_vdisplay::rfb::message::{
    ClientMessage, ParseError, ServerMessage, UpdateRectHeader, CLIENT_MSG_CLIENT_CUT_TEXT,
    CLIENT_MSG_ENABLE_CONTINUOUS_UPDATES, CLIENT_MSG_FRAMEBUFFER_UPDATE_REQ,
    CLIENT_MSG_KEY_EVENT, CLIENT_MSG_POINTER_EVENT, CLIENT_MSG_SET_ENCODINGS, CLIENT_MSG_SET_FPS,
    CLIENT_MSG_SET_PIXEL_FORMAT, CUT_TEXT_PARSE_LIMIT, ENCODING_RAW, ENCODING_TIGHT,
    PSEUDO_ENCODING_DESKTOP_SIZE, PSEUDO_ENCODING_LAST_RECT, RFB_VERSION_3_3, RFB_VERSION_3_7,
    RFB_VERSION_3_8,
};

#[test]
fn test_update_rect_header_12_bytes_big_endian() {
    let header = UpdateRectHeader::new(Rect::new(10, 20, 64, 64), ENCODING_RAW);
    let bytes = header.to_bytes();
    assert_eq!(bytes.len(), 12);
    assert_eq!(&bytes[0..2], &10u16.to_be_bytes());
    assert_eq!(&bytes[2..4], &20u16.to_be_bytes());
    assert_eq!(&bytes[4..6], &64u16.to_be_bytes());
    assert_eq!(&bytes[6..8], &64u16.to_be_bytes());
    assert_eq!(&bytes[8..12], &0i32.to_be_bytes());

    let mut buf = BytesMut::new();
    header.write_to(&mut buf);
    assert_eq!(&buf[..], &bytes[..]);

    let parsed = UpdateRectHeader::parse(&bytes).expect("Failed to parse header");
    assert_eq!(parsed, header);
}

#[test]
fn test_update_rect_header_pseudo_encodings() {
    // LastRect (-224)
    let last_rect = UpdateRectHeader::new(Rect::new(0, 0, 0, 0), PSEUDO_ENCODING_LAST_RECT);
    let bytes = last_rect.to_bytes();
    assert_eq!(bytes.len(), 12);
    assert_eq!(&bytes[8..12], &(-224i32).to_be_bytes());
    let parsed = UpdateRectHeader::parse(&bytes).unwrap();
    assert_eq!(parsed.encoding, PSEUDO_ENCODING_LAST_RECT);

    // DesktopSize (-223)
    let dt_size = UpdateRectHeader::new(Rect::new(0, 0, 1920, 1080), PSEUDO_ENCODING_DESKTOP_SIZE);
    let bytes = dt_size.to_bytes();
    let parsed = UpdateRectHeader::parse(&bytes).unwrap();
    assert_eq!(parsed.rect.width, 1920);
    assert_eq!(parsed.rect.height, 1080);
    assert_eq!(parsed.encoding, PSEUDO_ENCODING_DESKTOP_SIZE);
}

#[test]
fn test_client_message_parse_set_encodings() {
    let mut buf = BytesMut::new();
    buf.put_u8(CLIENT_MSG_SET_ENCODINGS);
    buf.put_u8(0); // pad
    buf.put_u16(3); // count
    buf.put_i32(ENCODING_RAW);
    buf.put_i32(ENCODING_TIGHT);
    buf.put_i32(PSEUDO_ENCODING_LAST_RECT);

    let msg = ClientMessage::parse(&mut buf).unwrap().expect("parsed message");
    match msg {
        ClientMessage::SetEncodings(encs) => {
            assert_eq!(encs, vec![ENCODING_RAW, ENCODING_TIGHT, PSEUDO_ENCODING_LAST_RECT]);
        }
        _ => panic!("Unexpected message type"),
    }
}

#[test]
fn test_client_message_parse_framebuffer_update_req() {
    let mut buf = BytesMut::new();
    buf.put_u8(CLIENT_MSG_FRAMEBUFFER_UPDATE_REQ);
    buf.put_u8(1); // incremental
    buf.put_u16(0); // x
    buf.put_u16(0); // y
    buf.put_u16(1920); // w
    buf.put_u16(1080); // h

    let msg = ClientMessage::parse(&mut buf).unwrap().expect("parsed message");
    match msg {
        ClientMessage::FramebufferUpdateRequest { incremental, rect } => {
            assert!(incremental);
            assert_eq!(rect, Rect::new(0, 0, 1920, 1080));
        }
        _ => panic!("Unexpected message type"),
    }
}

#[test]
fn test_server_init_payload() {
    let fmt = PixelFormat::bgra32();
    let payload = ServerMessage::server_init(1920, 1080, &fmt, "TestDesktop");
    assert_eq!(&payload[0..2], &1920u16.to_be_bytes());
    assert_eq!(&payload[2..4], &1080u16.to_be_bytes());
    assert_eq!(&payload[4..20], &fmt.to_bytes()[..]);
    assert_eq!(&payload[20..24], &11u32.to_be_bytes());
    assert_eq!(&payload[24..], b"TestDesktop");
}

fn message(bytes: &[u8]) -> ClientMessage {
    let mut buf = BytesMut::from(bytes);
    let msg = ClientMessage::parse(&mut buf).unwrap().expect("parsed message");
    assert!(buf.is_empty());
    // What follows a message is left in the buffer.
    let mut more = BytesMut::from(bytes);
    more.put_u8(77);
    assert_eq!(ClientMessage::parse(&mut more).unwrap(), Some(msg.clone()));
    assert_eq!(&more[..], &[77]);
    // A message that is not all there is not taken.
    for n in 0..bytes.len() {
        let mut part = BytesMut::from(&bytes[..n]);
        assert_eq!(ClientMessage::parse(&mut part), Ok(None));
        assert_eq!(&part[..], &bytes[..n]);
    }
    msg
}

#[test]
fn every_message_is_read() {
    let format = PixelFormat::rgb24();
    let mut bytes = vec![CLIENT_MSG_SET_PIXEL_FORMAT, 0, 0, 0];
    bytes.extend_from_slice(&format.to_bytes());
    assert_eq!(message(&bytes), ClientMessage::SetPixelFormat(format));
    assert_eq!(
        message(&[CLIENT_MSG_SET_ENCODINGS, 0, 0, 1, 0xFF, 0xFF, 0xFF, 0x20]),
        ClientMessage::SetEncodings(vec![-224])
    );
    assert_eq!(
        message(&[CLIENT_MSG_FRAMEBUFFER_UPDATE_REQ, 0, 0, 1, 0, 2, 0, 3, 0, 4]),
        ClientMessage::FramebufferUpdateRequest {
            incremental: false,
            rect: Rect::new(1, 2, 3, 4)
        }
    );
    assert_eq!(
        message(&[CLIENT_MSG_KEY_EVENT, 1, 0, 0, 0, 0, 0xFF, 0x0D]),
        ClientMessage::KeyEvent { down: true, key_sym: 0xFF0D }
    );
    assert_eq!(
        message(&[CLIENT_MSG_POINTER_EVENT, 5, 1, 0, 0, 9]),
        ClientMessage::PointerEvent { button_mask: 5, x: 256, y: 9 }
    );
    assert_eq!(
        message(&[CLIENT_MSG_ENABLE_CONTINUOUS_UPDATES, 1, 0, 1, 0, 2, 0, 3, 0, 4]),
        ClientMessage::EnableContinuousUpdates { enable: true, rect: Rect::new(1, 2, 3, 4) }
    );
    assert_eq!(message(&[CLIENT_MSG_SET_FPS, 0, 0, 25]), ClientMessage::SetFps(25));
}

#[test]
fn cut_text_is_read_as_utf8() {
    let mut bytes = vec![CLIENT_MSG_CLIENT_CUT_TEXT, 0, 0, 0, 0, 0, 0, 6];
    bytes.extend_from_slice("h\u{e9}llo".as_bytes());
    assert_eq!(message(&bytes), ClientMessage::ClientCutText("h\u{e9}llo".to_string()));
    let invalid = [CLIENT_MSG_CLIENT_CUT_TEXT, 0, 0, 0, 0, 0, 0, 3, b'a', 0xFF, b'b'];
    assert_eq!(message(&invalid), ClientMessage::ClientCutText("a\u{fffd}b".to_string()));
}

#[test]
fn cut_text_has_a_limit() {
    let mut bytes = vec![CLIENT_MSG_CLIENT_CUT_TEXT, 0, 0, 0];
    bytes.extend_from_slice(&(CUT_TEXT_PARSE_LIMIT + 1).to_be_bytes());
    let mut buf = BytesMut::from(&bytes[..]);
    assert_eq!(
        ClientMessage::parse(&mut buf),
        Err(ParseError::CutTextTooLong(10 * 1024 * 1024 + 1))
    );
    assert_eq!(&buf[..], &bytes[..]);
    let mut longest = BytesMut::from(&[CLIENT_MSG_CLIENT_CUT_TEXT, 0, 0, 0][..]);
    longest.put_u32(CUT_TEXT_PARSE_LIMIT);
    assert_eq!(ClientMessage::parse(&mut longest), Ok(None));
    longest.resize(8 + CUT_TEXT_PARSE_LIMIT as usize, b'x');
    match ClientMessage::parse(&mut longest) {
        Ok(Some(ClientMessage::ClientCutText(text))) => assert_eq!(text.len(), 10 * 1024 * 1024),
        _ => panic!("Unexpected message type"),
    }
}

#[test]
fn unknown_messages_are_errors() {
    let mut buf = BytesMut::from(&[99u8, 1, 2][..]);
    assert_eq!(ClientMessage::parse(&mut buf), Err(ParseError::UnknownMessageType(99)));
    assert_eq!(&buf[..], &[99, 1, 2]);
}

#[test]
fn short_headers_are_refused() {
    assert_eq!(UpdateRectHeader::parse(&[0; 11]), None);
    assert_eq!(UpdateRectHeader::HEADER_SIZE, 12);
}

#[test]
fn messages_from_the_server() {
    assert_eq!(ServerMessage::server_cut_text("ab"), vec![3, 0, 0, 0, 0, 0, 0, 2, b'a', b'b']);
    assert_eq!(ServerMessage::bell(), [2]);
    assert_eq!(ServerMessage::end_of_continuous_updates(), [150]);
    assert_eq!(&RFB_VERSION_3_8, b"RFB 003.008\n");
    assert_eq!(&RFB_VERSION_3_7, b"RFB 003.007\n");
    assert_eq!(&RFB_VERSION_3_3, b"RFB 003.003\n");
}
