use clm_vdisplay::config::AppConfig;
use clm_vdisplay::display::framebuffer::TileFramebuffer;
use clm_vdisplay::metrics::{handle_request, request_path, respond, MetricsRegistry, MetricsServer};
use clm_vdisplay::numeral::{parse_unsigned, to_decimal};
use clm_vdisplay::streaming::cdp_pipe::{finished, CaptureError, CdpScreencastPipe};
use clm_vdisplay::streaming::{WebRtcConfig, WebRtcStreamer};
use clm_vdisplay::text::{
    contains_text, is_white_space, same_text, split_char, split_whitespace, trim,
};
use clm_vdisplay::VERSION;

#[test]
fn display_numbers() {
    assert_eq!(AppConfig::parse_display_num(":100"), 100);
    assert_eq!(AppConfig::parse_display_num("::7"), 7);
    assert_eq!(AppConfig::parse_display_num("42"), 42);
    assert_eq!(AppConfig::parse_display_num(":4294967295"), u32::MAX);
    assert_eq!(AppConfig::parse_display_num(":4294967296"), 100);
    assert_eq!(AppConfig::parse_display_num(":x"), 100);
    assert_eq!(AppConfig::parse_display_num(""), 100);
}

#[test]
fn resolutions() {
    assert_eq!(AppConfig::parse_resolution("1280x720x16"), (1280, 720, 16));
    assert_eq!(AppConfig::parse_resolution("1280x720"), (1280, 720, 24));
    assert_eq!(AppConfig::parse_resolution("0x-1x300"), (1920, 1080, 24));
    assert_eq!(AppConfig::parse_resolution(""), (1920, 1080, 24));
    assert_eq!(AppConfig::parse_resolution("5x6x7x8"), (5, 6, 7));
}

#[test]
fn configurations() {
    let usual = AppConfig::default();
    assert_eq!((usual.display_num, usual.rfb_port, usual.fps), (100, 5900, 60));
    assert_eq!(usual.control_socket, "/tmp/clm-vdisplay.sock");
    assert!(usual.manage_x11 && !usual.attach && !usual.enable_metrics);
    let config =
        AppConfig::from_start_args(":9", "10x20x8", 1, None, None, "x11", Some(9100));
    assert_eq!((config.width, config.height, config.depth), (10, 20, 8));
    assert_eq!(config.control_socket, "/tmp/clm-vdisplay-9.sock");
    assert!(config.enable_metrics && config.manage_x11 && !config.attach);
    assert_eq!((config.fps, config.xvfb_path.as_str()), (60, "Xvfb"));
    let attached = AppConfig::from_start_args_full(
        ":9", "10x20x8", 1, None, None, "x11", None, true, true, "X".to_string(), None, 0,
    );
    assert!(!attached.manage_x11 && attached.attach);
    assert_eq!((attached.fps, attached.xvfb_args), (60, None));
}

#[test]
fn counters() {
    let mut metrics = MetricsRegistry::new();
    metrics.inc_active_connections();
    metrics.inc_active_connections();
    metrics.dec_active_connections();
    metrics.record_frame_update(3, 500, 42);
    metrics.record_frame_update(1, 100, 7);
    assert_eq!(metrics.active_connections, 1);
    assert_eq!(
        metrics.render_prometheus(),
        "# HELP clm_vdisplay_active_connections Number of active VNC/WS connections\n\
         # TYPE clm_vdisplay_active_connections gauge\n\
         clm_vdisplay_active_connections 1\n\n\
         # HELP clm_vdisplay_total_connections_count Total connections established\n\
         # TYPE clm_vdisplay_total_connections_count counter\n\
         clm_vdisplay_total_connections_count 2\n\n\
         # HELP clm_vdisplay_frames_encoded_total Total frames encoded\n\
         # TYPE clm_vdisplay_frames_encoded_total counter\n\
         clm_vdisplay_frames_encoded_total 2\n\n\
         # HELP clm_vdisplay_damage_tiles_total Total damage tiles tracked\n\
         # TYPE clm_vdisplay_damage_tiles_total counter\n\
         clm_vdisplay_damage_tiles_total 4\n\n\
         # HELP clm_vdisplay_bytes_sent_total Total bytes sent to clients\n\
         # TYPE clm_vdisplay_bytes_sent_total counter\n\
         clm_vdisplay_bytes_sent_total 600\n\n\
         # HELP clm_vdisplay_last_encode_duration_microseconds Last frame encoding latency\n\
         # TYPE clm_vdisplay_last_encode_duration_microseconds gauge\n\
         clm_vdisplay_last_encode_duration_microseconds 7\n"
    );
    let mut wrapped = MetricsRegistry::default();
    wrapped.dec_active_connections();
    assert_eq!(wrapped.active_connections, u64::MAX);
}

#[test]
fn answers_over_http() {
    let metrics = MetricsRegistry::new();
    assert_eq!(request_path("GET /metrics HTTP/1.1\r\nHost: a b\r\n"), "/metrics");
    assert_eq!(request_path("GET\r\n /x"), "/");
    assert_eq!(request_path(""), "/");
    let body = format!("{{\"status\":\"ok\",\"version\":\"{}\"}}", VERSION);
    let expected = format!(
        "HTTP/1.1 200 OK\r\nContent-Type: application/json\r\nContent-Length: {}\r\nConnection: close\r\n\r\n{}",
        body.len(),
        body
    );
    assert_eq!(respond("/health", &metrics), expected);
    assert_eq!(handle_request(b"GET /healthz HTTP/1.1\r\n\r\n", &metrics), expected);
    let shown = respond("/metrics", &metrics);
    assert!(shown.contains("Content-Type: text/plain; version=0.0.4\r\n"));
    assert!(shown.ends_with(&metrics.render_prometheus()));
    assert_eq!(
        handle_request(b"GET /nothing\xff HTTP/1.1\r\n\r\n", &metrics),
        "HTTP/1.1 404 Not Found\r\nContent-Type: text/plain\r\nContent-Length: 10\r\nConnection: close\r\n\r\nNot Found\n"
    );
    assert_eq!(MetricsServer::new(9100).bind_addr(), "0.0.0.0:9100");
}

#[test]
fn screenshots() {
    let mut fb = TileFramebuffer::new(16, 8);
    fb.update_rect(0, 0, 1, 1, &[1, 2, 3, 4], 4);
    let pipe = CdpScreencastPipe::new("b".to_string(), 0);
    assert_eq!(pipe.quality, 1);
    assert_eq!(CdpScreencastPipe::new("b".to_string(), 101).quality, 100);
    assert_eq!(CdpScreencastPipe::new("b".to_string(), 80).quality, 80);
    let jpeg = pipe.capture_jpeg(&fb).expect("a picture");
    assert_eq!(&jpeg[..3], &[0xFF, 0xD8, 0xFF]);
    let png = pipe.capture_png(&fb).expect("a picture");
    assert_eq!(&png[..8], b"\x89PNG\r\n\x1a\n");
    assert_eq!(&png[16..24], &[0, 0, 0, 16, 0, 0, 0, 8]);
    assert_eq!(finished(None), Err(CaptureError::Encoding));
    assert_eq!(finished(Some(vec![1])), Ok(vec![1]));
    // Too wide for 16-bit coordinates.
    let wide = TileFramebuffer::new(65537, 1);
    assert_eq!(pipe.capture_png(&wide), Err(CaptureError::TooFewPixels));
    // No pixels at all.
    let empty = TileFramebuffer::new(0, 0);
    assert_eq!(pipe.capture_jpeg(&empty), Err(CaptureError::Encoding));
}

#[test]
fn webrtc_stub() {
    let config = WebRtcConfig::default();
    assert_eq!((config.max_bitrate_kbps, config.target_fps), (4000, 60));
    assert_eq!(config.ice_servers, vec!["stun:stun.l.google.com:19302".to_string()]);
    let answer = WebRtcStreamer::new(config).handle_offer("anything");
    assert!(answer.starts_with("v=0\r\n") && answer.ends_with("SAVPF 96\r\n"));
}

#[test]
fn numerals() {
    for n in [0u64, 9, 10, 65535, u64::MAX] {
        assert_eq!(to_decimal(n), n.to_string());
    }
    let parse = |s: &str, max: u32| parse_unsigned(&s.chars().collect::<Vec<char>>(), max);
    for s in ["0", "+5", "0042", "4294967295", "", "+", "-1", "1 ", "4294967296", "99999999999999999999"] {
        assert_eq!(parse(s, u32::MAX), s.parse::<u32>().ok());
    }
    for s in ["255", "256"] {
        assert_eq!(parse(s, 255).map(|n| n as u8), s.parse::<u8>().ok());
    }
}

#[test]
fn texts() {
    for code in 0..0x3100u32 {
        if let Some(c) = char::from_u32(code) {
            assert_eq!(is_white_space(c), c.is_whitespace());
        }
    }
    for s in ["", " ", " a b ", "\u{3000}x\u{a0}", "no"] {
        assert_eq!(trim(s).iter().collect::<String>(), s.trim());
        let words: Vec<String> = s.split_whitespace().map(|w| w.to_string()).collect();
        assert_eq!(split_whitespace(s), words);
    }
    for s in ["", "x", "axb", "xx", "a"] {
        let parts: Vec<String> = s.split('x').map(|p| p.to_string()).collect();
        let got: Vec<String> = split_char(s, 'x').iter().map(|p| p.iter().collect()).collect();
        assert_eq!(got, parts);
    }
    for (hay, needle) in [("hello", "ell"), ("hello", ""), ("", ""), ("", "a"), ("aab", "ab"), ("ab", "abc")] {
        assert_eq!(contains_text(hay, needle), hay.contains(needle));
    }
    assert!(same_text("abc", "abc") && !same_text("abc", "abd") && !same_text("ab", "abc"));
}
