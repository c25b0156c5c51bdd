use clm_vdisplay::display::framebuffer::{
    PixelFormat, Rect, SharedFramebuffer, TileFramebuffer, TILE_SIZE,
};
use clm_vdisplay::display::pixel::convert_pixel;
use clm_vdisplay::display::VirtualDisplay;

#[test]
fn test_full_capture_request_flag() {
    let mut fb = SharedFramebuffer::new(64, 64);
    // Construction requests an initial full-screen grab.
    assert!(fb.take_full_capture_request());
    assert!(!fb.take_full_capture_request());
    fb.request_full_capture();
    assert!(fb.take_full_capture_request());
    assert!(!fb.take_full_capture_request());
}

#[test]
fn test_rect_intersection() {
    let r1 = Rect::new(0, 0, 100, 100);
    let r2 = Rect::new(50, 50, 100, 100);
    assert!(r1.intersects(&r2));

    let inter = r1.intersection(&r2).expect("intersection expected");
    assert_eq!(inter, Rect::new(50, 50, 50, 50));

    let r3 = Rect::new(200, 200, 50, 50);
    assert!(!r1.intersects(&r3));
    assert_eq!(r1.intersection(&r3), None);
}

#[test]
fn test_tile_framebuffer_64x64_damage_tracking() {
    let mut fb = TileFramebuffer::new(128, 128);
    assert_eq!(fb.tiles_x, 2);
    assert_eq!(fb.tiles_y, 2);

    // First detect: all tiles dirty
    let damaged = fb.detect_damage_tiles();
    assert_eq!(damaged.len(), 4);

    // Next detect without changes: 0 tiles dirty
    let damaged2 = fb.detect_damage_tiles();
    assert_eq!(damaged2.len(), 0);

    // Update single tile (top-left)
    let patch = vec![0xFF; 64 * 64 * 4];
    fb.update_rect(0, 0, 64, 64, &patch, 64 * 4);

    let damaged3 = fb.detect_damage_tiles();
    assert_eq!(damaged3.len(), 1);
    assert_eq!(damaged3[0], Rect::new(0, 0, 64, 64));
}

#[test]
fn test_extract_rect_bytes_rgb24() {
    let mut fb = TileFramebuffer::new(64, 64);
    // BGRA format: B=10, G=20, R=30, A=255
    let pixel = [10u8, 20, 30, 255];
    let patch: Vec<u8> = pixel.iter().cycle().take(64 * 64 * 4).copied().collect();
    fb.update_rect(0, 0, 64, 64, &patch, 64 * 4);

    let rect = Rect::new(0, 0, 2, 2);
    let rgb_format = PixelFormat::rgb24();
    let extracted = fb.extract_rect_bytes(&rect, &rgb_format);

    assert_eq!(extracted.len(), 2 * 2 * 3); // 12 bytes
    // In RGB24: R=30, G=20, B=10
    assert_eq!(&extracted[0..3], &[30, 20, 10]);
    assert_eq!(&extracted[3..6], &[30, 20, 10]);
}

#[test]
fn test_rect_intersection_overflow_boundary() {
    let r1 = Rect::new(0, 0, 100, 100);
    let r2 = Rect::new(u16::MAX - 50, u16::MAX - 50, 100, 100);
    // Ensure saturating arithmetic does not panic on integer overflow
    assert!(!r1.intersects(&r2));
    assert_eq!(r1.intersection(&r2), None);

    let r3 = Rect::new(u16::MAX - 20, u16::MAX - 20, 50, 50);
    let r4 = Rect::new(u16::MAX - 10, u16::MAX - 10, 50, 50);
    let inter = r3.intersection(&r4).expect("intersection expected");
    assert_eq!(inter.x, u16::MAX - 10);
    assert_eq!(inter.y, u16::MAX - 10);
    assert_eq!(inter.width, 10);
    assert_eq!(inter.height, 10);
}

#[test]
fn test_extract_rect_zero_dimensions_no_panic() {
    let fb = TileFramebuffer::new(64, 64);
    let mut out = vec![0u8; 100];
    let rect = Rect::new(0, 0, 0, 0);
    let format = PixelFormat::bgra32();
    fb.extract_rect_bytes_into(&rect, &format, &mut out);

    let mut invalid_fmt = format;
    invalid_fmt.bits_per_pixel = 0;
    let rect2 = Rect::new(0, 0, 64, 64);
    fb.extract_rect_bytes_into(&rect2, &invalid_fmt, &mut out);
}

#[test]
fn test_extract_rect_16bit_rgb565() {
    let mut fb = TileFramebuffer::new(64, 64);
    // BGRA format: B=0, G=255, R=0, A=255 -> Pure Green
    let pixel = [0u8, 255, 0, 255];
    let patch: Vec<u8> = pixel.iter().cycle().take(64 * 64 * 4).copied().collect();
    fb.update_rect(0, 0, 64, 64, &patch, 64 * 4);

    let mut rgb565 = PixelFormat {
        bits_per_pixel: 16,
        depth: 16,
        big_endian_flag: 0,
        true_colour_flag: 1,
        red_max: 31,
        green_max: 63,
        blue_max: 31,
        red_shift: 11,
        green_shift: 5,
        blue_shift: 0,
    };
    let rect = Rect::new(0, 0, 2, 2);
    let extracted = fb.extract_rect_bytes(&rect, &rgb565);
    assert_eq!(extracted.len(), 2 * 2 * 2); // 8 bytes
    let pixel_val = u16::from_le_bytes([extracted[0], extracted[1]]);
    // Green component: 63 << 5 = 0x07E0 = 2016
    assert_eq!(pixel_val, 0x07E0);

    // Test Big-Endian 16-bit
    rgb565.big_endian_flag = 1;
    let extracted_be = fb.extract_rect_bytes(&rect, &rgb565);
    let pixel_val_be = u16::from_be_bytes([extracted_be[0], extracted_be[1]]);
    assert_eq!(pixel_val_be, 0x07E0);
}

#[test]
fn test_update_rect_from_full_frame_non_zero_coordinates() {
    let mut fb = TileFramebuffer::new(128, 128);
    // Create full-frame pattern where pixel (x, y) = (x as u8, y as u8, 0x55, 0xFF)
    let mut full_frame = vec![0u8; 128 * 128 * 4];
    for y in 0..128 {
        for x in 0..128 {
            let idx = (y * 128 + x) * 4;
            full_frame[idx] = x as u8; // B
            full_frame[idx + 1] = y as u8; // G
            full_frame[idx + 2] = 0x55; // R
            full_frame[idx + 3] = 0xFF; // A
        }
    }

    // Damage sub-region at x=64, y=64, w=32, h=32
    fb.update_rect_from_full_frame(64, 64, 32, 32, &full_frame);

    // Verify tile damage tracking marked tile (1, 1) dirty
    let damaged = fb.detect_damage_tiles();
    assert!(damaged.contains(&Rect::new(64, 64, 64, 64)));

    // Verify pixel data inside framebuffer at (64, 64) matches pattern
    let rect = Rect::new(64, 64, 2, 2);
    let extracted = fb.extract_rect_bytes(&rect, &PixelFormat::bgra32());
    assert_eq!(&extracted[0..4], &[64, 64, 0x55, 0xFF]);
    assert_eq!(&extracted[4..8], &[65, 64, 0x55, 0xFF]);
}

#[test]
fn test_extract_rect_8bit_true_colour() {
    let mut fb = TileFramebuffer::new(64, 64);
    // BGRA format: B=0, G=0, R=255, A=255 -> Pure Red
    let pixel = [0u8, 0, 255, 255];
    let patch: Vec<u8> = pixel.iter().cycle().take(64 * 64 * 4).copied().collect();
    fb.update_rect(0, 0, 64, 64, &patch, 64 * 4);

    let rgb332 = PixelFormat {
        bits_per_pixel: 8,
        depth: 8,
        big_endian_flag: 0,
        true_colour_flag: 1,
        red_max: 7,
        green_max: 7,
        blue_max: 3,
        red_shift: 5,
        green_shift: 2,
        blue_shift: 0,
    };

    let rect = Rect::new(0, 0, 2, 2);
    let extracted = fb.extract_rect_bytes(&rect, &rgb332);
    assert_eq!(extracted.len(), 2 * 2); // 4 bytes
    // Pure Red: red_max (7) << 5 = 0b1110_0000 = 224
    assert_eq!(extracted[0], 224);
}

#[test]
fn test_damage_tracking_static_frame_zero_bandwidth() {
    let mut fb = TileFramebuffer::new(128, 128);
    // Initial detection
    let initial_damaged = fb.detect_damage_tiles();
    assert_eq!(initial_damaged.len(), 4);

    // Subsequent detection on static framebuffer yields 0 damaged tiles
    let static_damaged = fb.detect_damage_tiles();
    assert_eq!(static_damaged.len(), 0);

    // Simulate 60 FPS capture loop writing identical browser frame
    let browser_frame = vec![128u8; 128 * 128 * 4];
    fb.update_rect_from_full_frame(0, 0, 128, 128, &browser_frame);
    let first_update = fb.detect_damage_tiles();
    assert_eq!(first_update.len(), 4);

    // Second update with IDENTICAL frame must emit 0 damage
    fb.update_rect_from_full_frame(0, 0, 128, 128, &browser_frame);
    let second_update = fb.detect_damage_tiles();
    assert_eq!(second_update.len(), 0);
}

#[test]
fn test_child_window_render_produces_non_zero_pixels() {
    let mut fb = TileFramebuffer::new(256, 256);
    // Initially black background (0x00)
    let initial_pixels = fb.extract_rect_bytes(&Rect::new(0, 0, 256, 256), &PixelFormat::bgra32());
    assert!(initial_pixels.iter().all(|&b| b == 0));

    // Simulate Chrome child window rendering tab/address bar at (0, 0, 256, 60) with non-zero pixels
    let mut chrome_window = vec![0x33u8; 256 * 60 * 4];
    for i in 0..(256 * 60) {
        chrome_window[i * 4] = 0xF1; // B
        chrome_window[i * 4 + 1] = 0xF2; // G
        chrome_window[i * 4 + 2] = 0xF3; // R
        chrome_window[i * 4 + 3] = 0xFF; // A
    }
    fb.update_rect(0, 0, 256, 60, &chrome_window, 256 * 4);

    let damaged = fb.detect_damage_tiles();
    assert!(!damaged.is_empty());

    let window_pixels = fb.extract_rect_bytes(&Rect::new(0, 0, 256, 60), &PixelFormat::bgra32());
    // Verify non-zero data
    assert!(window_pixels.iter().any(|&b| b != 0));
    assert_eq!(&window_pixels[0..4], &[0xF1, 0xF2, 0xF3, 0xFF]);
}

fn gradient(w: usize, h: usize) -> Vec<u8> {
    let mut image = Vec::new();
    for y in 0..h {
        for x in 0..w {
            image.extend_from_slice(&[x as u8, y as u8, (x + y) as u8, 200]);
        }
    }
    image
}

#[test]
fn format_survives_its_bytes() {
    let format = PixelFormat {
        bits_per_pixel: 16,
        depth: 15,
        big_endian_flag: 1,
        true_colour_flag: 1,
        red_max: 31,
        green_max: 63,
        blue_max: 0x1234,
        red_shift: 11,
        green_shift: 5,
        blue_shift: 1,
    };
    let bytes = format.to_bytes();
    assert_eq!(bytes, [16, 15, 1, 1, 0, 31, 0, 63, 0x12, 0x34, 11, 5, 1, 0, 0, 0]);
    assert_eq!(PixelFormat::from_bytes(&bytes), format);
}

#[test]
fn standard_formats() {
    assert_eq!(PixelFormat::rgba32().red_shift, 0);
    assert_eq!(PixelFormat::rgba32().blue_shift, 16);
    assert_eq!(PixelFormat::bgra32().red_shift, 16);
    assert_eq!(PixelFormat::bgr24().bits_per_pixel, 24);
    assert_eq!(PixelFormat::bgr24().red_shift, 16);
}

#[test]
fn pixels_in_every_layout() {
    let mut f = PixelFormat::bgra32();
    assert_eq!(convert_pixel(1, 2, 3, 4, &f), [1, 2, 3, 4]);
    assert_eq!(convert_pixel(1, 2, 3, 4, &PixelFormat::rgba32()), [3, 2, 1, 4]);
    assert_eq!(convert_pixel(1, 2, 3, 4, &PixelFormat::rgb24()), [3, 2, 1, 0]);
    assert_eq!(convert_pixel(1, 2, 3, 4, &PixelFormat::bgr24()), [1, 2, 3, 0]);
    // 32 bits, red in the second byte: neither of the shuffles.
    f.red_shift = 8;
    f.green_shift = 16;
    f.blue_shift = 24;
    assert_eq!(convert_pixel(1, 2, 3, 4, &f), [0, 3, 2, 1]);
    f.big_endian_flag = 1;
    assert_eq!(convert_pixel(1, 2, 3, 4, &f), [1, 2, 3, 0]);
    // 24 bits of the same.
    f.bits_per_pixel = 24;
    f.red_shift = 16;
    f.green_shift = 0;
    f.blue_shift = 8;
    assert_eq!(convert_pixel(1, 2, 3, 4, &f), [2, 1, 3, 0]);
}

#[test]
fn what_was_drawn_is_read_back() {
    let mut fb = TileFramebuffer::new(200, 150);
    let image = gradient(70, 40);
    fb.update_rect(30, 50, 70, 40, &image, 70 * 4);
    let got = fb.extract_rect_bytes(&Rect::new(30, 50, 70, 40), &PixelFormat::bgra32());
    assert_eq!(got, image);
    // A few rows are read by one thread, many rows by several.
    let few = fb.extract_rect_bytes(&Rect::new(30, 50, 70, 3), &PixelFormat::bgra32());
    assert_eq!(few[..], image[..70 * 3 * 4]);
    // The pixel left of the image is untouched.
    let left = fb.extract_rect_bytes(&Rect::new(29, 50, 1, 1), &PixelFormat::bgra32());
    assert_eq!(left, vec![0, 0, 0, 0]);
}

#[test]
fn drawing_is_cut_off_at_the_edges() {
    let mut fb = TileFramebuffer::new(10, 10);
    let image = vec![9u8; 8 * 8 * 4];
    fb.update_rect(6, 7, 8, 8, &image, 8 * 4);
    let got = fb.extract_rect_bytes(&Rect::new(0, 0, 10, 10), &PixelFormat::bgra32());
    for y in 0..10usize {
        for x in 0..10usize {
            let expected = if x >= 6 && y >= 7 { 9 } else { 0 };
            assert_eq!(got[(y * 10 + x) * 4], expected);
        }
    }
    let version = fb.frame_version;
    fb.update_rect(10, 0, 1, 1, &image, 4);
    fb.update_rect(0, 0, 0, 1, &image, 4);
    assert_eq!(fb.frame_version, version);
}

#[test]
fn rows_that_the_source_lacks_are_left_out() {
    let mut fb = TileFramebuffer::new(4, 4);
    // Two and a half rows.
    let image = vec![7u8; 4 * 4 * 2 + 8];
    fb.update_rect(0, 0, 4, 4, &image, 16);
    assert!(fb.raw_slice()[..32].iter().all(|&b| b == 7));
    assert!(fb.raw_slice()[32..].iter().all(|&b| b == 0));
    fb.update_rect(0, 0, 4, 4, &image, usize::MAX);
    let short_frame = vec![5u8; 16];
    fb.update_rect_from_full_frame(0, 0, 4, 4, &short_frame);
    assert!(fb.raw_slice()[..16].iter().all(|&b| b == 5));
    assert!(fb.raw_slice()[16..32].iter().all(|&b| b == 7));
}

#[test]
fn reading_beyond_the_screen() {
    let mut fb = TileFramebuffer::new(4, 4);
    let image = vec![3u8; 64];
    fb.update_rect(0, 0, 4, 4, &image, 16);
    let mut out = vec![0xEEu8; 6 * 6 * 4];
    fb.extract_rect_bytes_into(&Rect::new(0, 0, 6, 6), &PixelFormat::bgra32(), &mut out);
    // Columns right of the screen are zeroed, rows below it left alone.
    assert_eq!(out[..24], [3, 3, 3, 3, 3, 3, 3, 3, 3, 3, 3, 3, 3, 3, 3, 3, 0, 0, 0, 0, 0, 0, 0, 0]);
    assert!(out[4 * 24..].iter().all(|&b| b == 0xEE));
    // The same by several threads, and with room for a part of the rows only.
    let mut short = vec![0xEEu8; 24 * 2 + 10];
    fb.extract_rect_bytes_into(&Rect::new(0, 0, 6, 20), &PixelFormat::bgra32(), &mut short);
    assert_eq!(short[..48], out[..48]);
    assert!(short[48..].iter().all(|&b| b == 0xEE));
}

#[test]
fn wide_pixels_keep_their_spare_bytes() {
    let fb = TileFramebuffer::new(2, 1);
    let mut f = PixelFormat::bgra32();
    f.bits_per_pixel = 48;
    let mut out = vec![0xEEu8; 12];
    fb.extract_rect_bytes_into(&Rect::new(0, 0, 2, 1), &f, &mut out);
    assert_eq!(out, vec![0, 0, 0, 0, 0xEE, 0xEE, 0, 0, 0, 0, 0xEE, 0xEE]);
}

#[test]
fn full_refresh_reports_every_tile() {
    let mut fb = TileFramebuffer::new(130, 70);
    assert_eq!((fb.tiles_x, fb.tiles_y), (3, 2));
    fb.detect_damage_tiles();
    assert!(!fb.has_dirty_tiles());
    fb.mark_all_damaged();
    assert!(fb.has_dirty_tiles());
    let damage = fb.detect_damage_tiles();
    assert_eq!(
        damage,
        vec![
            Rect::new(0, 0, 64, 64),
            Rect::new(64, 0, 64, 64),
            Rect::new(128, 0, 2, 64),
            Rect::new(0, 64, 64, 6),
            Rect::new(64, 64, 64, 6),
            Rect::new(128, 64, 2, 6),
        ]
    );
    assert_eq!(TILE_SIZE, 64);
}

#[test]
fn damage_lies_where_something_was_drawn() {
    let mut fb = TileFramebuffer::new(256, 256);
    fb.detect_damage_tiles();
    let image = gradient(4, 4);
    fb.update_rect(126, 62, 4, 4, &image, 16);
    let damage = fb.detect_damage_tiles();
    assert_eq!(
        damage,
        vec![
            Rect::new(64, 0, 64, 64),
            Rect::new(128, 0, 64, 64),
            Rect::new(64, 64, 64, 64),
            Rect::new(128, 64, 64, 64),
        ]
    );
    fb.mark_tile_dirty(0, 0);
    fb.mark_tile_dirty(9, 9);
    assert_eq!(fb.detect_damage_tiles().len(), 0);
}

#[test]
fn resizing_flags_everything() {
    let mut fb = TileFramebuffer::new(2, 2);
    let image = vec![1u8; 16];
    fb.update_rect(0, 0, 2, 2, &image, 8);
    fb.resize(2, 3);
    assert_eq!(fb.buffer.len(), 24);
    assert_eq!(fb.buffer[..16], [1u8; 16]);
    assert_eq!(fb.buffer[16..], [0u8; 8]);
    assert!(fb.has_dirty_tiles());
    assert!(TileFramebuffer::dimensions_supported(1920, 1080));
    assert!(!TileFramebuffer::dimensions_supported(u32::MAX, u32::MAX));
}

#[test]
fn modes_of_a_display() {
    let both = VirtualDisplay::new(100, 64, 48, "hybrid");
    let wayland = both.wayland.expect("a compositor");
    assert_eq!(wayland.display_name, "wayland-100");
    let x11 = both.x11.expect("a server");
    assert_eq!(x11.lock_file, "/tmp/.X100-lock");
    assert_eq!(x11.socket_path, "/tmp/.X11-unix/X100");
    let mut fb = both.framebuffer;
    let image = vec![8u8; 16];
    assert_eq!(wayland.attach_shm_buffer(&mut fb, 0, 0, 2, 2, &image, 8), 2);
    assert_eq!(x11.update_window_buffer(&mut fb, 2, 0, 2, 2, &image, 8), 3);
    assert_eq!(fb.inner.raw_slice()[..16], [8u8; 16]);
    assert_eq!(fb.note_capture_complete(), 4);

    let only_x11 = VirtualDisplay::new(1, 64, 48, "x11");
    assert!(only_x11.wayland.is_none() && only_x11.x11.is_some());
    let only_wayland = VirtualDisplay::new(1, 64, 48, "wayland");
    assert!(only_wayland.wayland.is_some() && only_wayland.x11.is_none());
    let neither = VirtualDisplay::new(1, 64, 48, "other");
    assert!(neither.wayland.is_none() && neither.x11.is_none());
    assert_eq!(neither.mode, "other");
}
