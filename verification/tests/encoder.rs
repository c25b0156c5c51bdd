use bytes::BytesMut;
use clm_vdisplay::display::framebuffer::{PixelFormat, Rect, TileFramebuffer};
use clm_vdisplay::rfb::encoder::{
    encode_copy_rect, encode_pseudo_cursor, encode_pseudo_desktop_name,
    encode_pseudo_desktop_size, encode_pseudo_last_rect, encode_raw_rect, encode_tight_rect,
    encode_zrle_rect, get_solid_color_slice, write_compact_len, write_tight_compressed,
    write_zrle,
};
use clm_vdisplay::rfb::message::{
    UpdateRectHeader, ENCODING_COPY_RECT, ENCODING_RAW, ENCODING_TIGHT, ENCODING_ZRLE,
    PSEUDO_ENCODING_CURSOR, PSEUDO_ENCODING_DESKTOP_NAME, PSEUDO_ENCODING_DESKTOP_SIZE,
    PSEUDO_ENCODING_LAST_RECT,
};
use flate2::read::ZlibDecoder;
use std::io::Read;

#[test]
fn test_write_compact_len_1_2_3_bytes() {
    let mut buf = BytesMut::new();

    // 1 byte (< 128)
    write_compact_len(&mut buf, 50);
    assert_eq!(&buf[..], &[50]);

    // 2 bytes (128..16383)
    buf.clear();
    write_compact_len(&mut buf, 300);
    assert_eq!(buf.len(), 2);
    assert_eq!(buf[0], (300 & 0x7F) as u8 | 0x80);
    assert_eq!(buf[1], (300 >> 7) as u8);

    // 3 bytes (>= 16384)
    buf.clear();
    write_compact_len(&mut buf, 20000);
    assert_eq!(buf.len(), 3);
    assert_eq!(buf[0], (20000 & 0x7F) as u8 | 0x80);
    assert_eq!(buf[1], ((20000 >> 7) & 0x7F) as u8 | 0x80);
    assert_eq!(buf[2], (20000 >> 14) as u8);
}

#[test]
fn test_encode_raw_rect_byte_alignment() {
    let mut fb = TileFramebuffer::new(64, 64);
    let patch = vec![0x42; 64 * 64 * 4];
    fb.update_rect(0, 0, 64, 64, &patch, 64 * 4);

    let mut buf = BytesMut::new();
    let format = PixelFormat::bgra32();
    let rect = Rect::new(0, 0, 64, 64);

    encode_raw_rect(&fb, &rect, &format, &mut buf);

    // Header: 12 bytes + Data: 64 * 64 * 4 = 16384 bytes
    assert_eq!(buf.len(), 12 + 16384);

    let header = UpdateRectHeader::parse(&buf[..12]).expect("parsed header");
    assert_eq!(header.rect, rect);
    assert_eq!(header.encoding, ENCODING_RAW);
    assert_eq!(&buf[12..16], &[0x42, 0x42, 0x42, 0x42]);
}

#[test]
fn test_encode_tight_rect_solid_fill() {
    let fb = TileFramebuffer::new(64, 64);
    let mut buf = BytesMut::new();
    let format = PixelFormat::bgra32();
    let rect = Rect::new(0, 0, 64, 64);

    encode_tight_rect(&fb, &rect, &format, &mut buf);

    // Header: 12 bytes
    // Solid fill flag: 1 byte (0x80)
    // Solid pixel (RGB24 for depth 24): 3 bytes (0, 0, 0)
    assert_eq!(buf.len(), 12 + 1 + 3);

    let header = UpdateRectHeader::parse(&buf[..12]).expect("parsed header");
    assert_eq!(header.encoding, ENCODING_TIGHT);
    assert_eq!(buf[12], 0x80); // Fill
    assert_eq!(&buf[13..16], &[0, 0, 0]);
}

#[test]
fn test_pseudo_encodings_generation() {
    let mut buf = BytesMut::new();

    // DesktopSize
    encode_pseudo_desktop_size(1920, 1080, &mut buf);
    assert_eq!(buf.len(), 12);
    let h_ds = UpdateRectHeader::parse(&buf[..12]).unwrap();
    assert_eq!(h_ds.rect, Rect::new(0, 0, 1920, 1080));
    assert_eq!(h_ds.encoding, PSEUDO_ENCODING_DESKTOP_SIZE);

    // LastRect
    buf.clear();
    encode_pseudo_last_rect(&mut buf);
    assert_eq!(buf.len(), 12);
    let h_lr = UpdateRectHeader::parse(&buf[..12]).unwrap();
    assert_eq!(h_lr.rect, Rect::new(0, 0, 0, 0));
    assert_eq!(h_lr.encoding, PSEUDO_ENCODING_LAST_RECT);

    // DesktopName
    buf.clear();
    encode_pseudo_desktop_name("MyDesktop", &mut buf);
    assert_eq!(buf.len(), 12 + 4 + 9);
    let h_dn = UpdateRectHeader::parse(&buf[..12]).unwrap();
    assert_eq!(h_dn.encoding, PSEUDO_ENCODING_DESKTOP_NAME);
    assert_eq!(&buf[12..16], &9u32.to_be_bytes());
    assert_eq!(&buf[16..], b"MyDesktop");
}

#[test]
fn test_encode_tight_rect_zlib_compression_and_decompression() {
    let mut fb = TileFramebuffer::new(64, 64);
    // Create non-solid gradient data
    let mut patch = vec![0u8; 64 * 64 * 4];
    for y in 0..64 {
        for x in 0..64 {
            let idx = (y * 64 + x) * 4;
            patch[idx] = (x * 4) as u8; // B
            patch[idx + 1] = (y * 4) as u8; // G
            patch[idx + 2] = ((x + y) * 2) as u8; // R
            patch[idx + 3] = 255; // A
        }
    }
    fb.update_rect(0, 0, 64, 64, &patch, 64 * 4);

    let mut buf = BytesMut::new();
    let format = PixelFormat::bgra32();
    let rect = Rect::new(0, 0, 64, 64);

    encode_tight_rect(&fb, &rect, &format, &mut buf);

    // Header: 12 bytes
    let header = UpdateRectHeader::parse(&buf[..12]).expect("parsed header");
    assert_eq!(header.rect, rect);
    assert_eq!(header.encoding, ENCODING_TIGHT);

    // comp_ctl: 0x01 (stream 0, reset flag)
    assert_eq!(buf[12], 0x01);

    // Read compact length
    let mut offset = 13;
    let b0 = buf[offset] as usize;
    offset += 1;
    let compressed_len = if b0 & 0x80 == 0 {
        b0
    } else {
        let b1 = buf[offset] as usize;
        offset += 1;
        if b1 & 0x80 == 0 {
            (b0 & 0x7F) | (b1 << 7)
        } else {
            let b2 = buf[offset] as usize;
            offset += 1;
            (b0 & 0x7F) | ((b1 & 0x7F) << 7) | (b2 << 14)
        }
    };

    let compressed_bytes = &buf[offset..offset + compressed_len];
    let mut decoder = ZlibDecoder::new(compressed_bytes);
    let mut decompressed = Vec::new();
    decoder.read_to_end(&mut decompressed).expect("decompression must succeed");

    // Depth 24 TrueColour -> 64 * 64 * 3 = 12288 bytes (RGB24)
    assert_eq!(decompressed.len(), 64 * 64 * 3);

    // Verify RGB24 pixel values
    let expected_rgb = fb.extract_rect_bytes(&rect, &PixelFormat::rgb24());
    assert_eq!(decompressed, expected_rgb);
}

#[test]
fn test_encode_pseudo_cursor() {
    let mut buf = BytesMut::new();
    let rgba = vec![255u8, 0, 0, 255]; // 1 red pixel, opaque
    let format = PixelFormat::bgra32();
    encode_pseudo_cursor(0, 0, 1, 1, &rgba, &format, &mut buf);

    assert_eq!(buf.len(), 12 + 4 + 1); // 12 header + 4 color + 1 bitmask byte
    let header = UpdateRectHeader::parse(&buf[..12]).unwrap();
    assert_eq!(header.encoding, PSEUDO_ENCODING_CURSOR);
    assert_eq!(header.rect.width, 1);
    assert_eq!(header.rect.height, 1);
}

#[test]
fn cursor_mask_and_colours() {
    let mut buf = BytesMut::new();
    // Nine pixels in one row: opaque, clear, half, then opaque ones; the image
    // ends after eight of them.
    let mut rgba = Vec::new();
    for (i, alpha) in [255u8, 0, 128, 129, 255, 255, 255, 255].iter().enumerate() {
        rgba.extend_from_slice(&[i as u8, 10, 20, *alpha]);
    }
    let mut format = PixelFormat::rgb24();
    encode_pseudo_cursor(3, 4, 9, 1, &rgba, &format, &mut buf);
    assert_eq!(buf.len(), 12 + 27 + 2);
    assert_eq!(&buf[12..18], &[0, 10, 20, 1, 10, 20]);
    assert_eq!(&buf[36..39], &[0, 0, 0]);
    assert_eq!(&buf[39..], &[0b1001_1111, 0]);
    // A format with two bytes to the pixel gets no colours.
    format.bits_per_pixel = 16;
    buf.clear();
    encode_pseudo_cursor(3, 4, 9, 1, &rgba, &format, &mut buf);
    assert_eq!(buf.len(), 12 + 18 + 2);
    assert!(buf[12..30].iter().all(|&b| b == 0));
}

#[test]
fn copy_rect_bytes() {
    let mut buf = BytesMut::new();
    encode_copy_rect(&Rect::new(1, 2, 3, 4), 0x0102, 0x0304, &mut buf);
    assert_eq!(&buf[..], &[0, 1, 0, 2, 0, 3, 0, 4, 0, 0, 0, 1, 1, 2, 3, 4]);
    assert_eq!(UpdateRectHeader::parse(&buf).unwrap().encoding, ENCODING_COPY_RECT);
}

#[test]
fn solid_colours() {
    assert_eq!(get_solid_color_slice(&[1, 2, 3, 1, 2, 3], 3), Some(&[1u8, 2, 3][..]));
    assert_eq!(get_solid_color_slice(&[1, 2, 3, 1, 2, 4], 3), None);
    assert_eq!(get_solid_color_slice(&[1, 2, 3, 1], 3), None);
    assert_eq!(get_solid_color_slice(&[], 3), None);
    assert_eq!(get_solid_color_slice(&[1], 0), None);
}

#[test]
fn small_tight_rects_are_plain() {
    let mut fb = TileFramebuffer::new(3, 1);
    fb.update_rect(0, 0, 3, 1, &[1, 2, 3, 0, 4, 5, 6, 0, 7, 8, 9, 0], 12);
    let mut buf = BytesMut::new();
    encode_tight_rect(&fb, &Rect::new(0, 0, 3, 1), &PixelFormat::bgra32(), &mut buf);
    assert_eq!(&buf[12..], &[0x00, 3, 2, 1, 6, 5, 4, 9, 8, 7]);
}

#[test]
fn tight_without_compression() {
    let mut buf = BytesMut::new();
    let pixels = vec![5u8; 200];
    write_tight_compressed(&pixels, None, &mut buf);
    assert_eq!(&buf[..3], &[0x00, 0xC8, 0x01]);
    assert_eq!(&buf[3..], &pixels[..]);
    buf.clear();
    write_tight_compressed(&pixels, Some(vec![1, 2, 3]), &mut buf);
    assert_eq!(&buf[..], &[0x01, 3, 1, 2, 3]);
}

#[test]
fn tight_tells_pictures_apart() {
    let mut fb = TileFramebuffer::new(8, 8);
    let mut image: Vec<u8> = (0..=255u8).collect();
    fb.update_rect(0, 0, 8, 8, &image, 32);
    let mut one = BytesMut::new();
    encode_tight_rect(&fb, &Rect::new(0, 0, 8, 8), &PixelFormat::bgra32(), &mut one);
    image[100] ^= 1;
    fb.update_rect(0, 0, 8, 8, &image, 32);
    let mut two = BytesMut::new();
    encode_tight_rect(&fb, &Rect::new(0, 0, 8, 8), &PixelFormat::bgra32(), &mut two);
    assert_ne!(one, two);
}

#[test]
fn zrle_rects() {
    let mut fb = TileFramebuffer::new(8, 8);
    let image: Vec<u8> = (0..=255u8).collect();
    fb.update_rect(0, 0, 8, 8, &image, 32);
    let mut buf = BytesMut::new();
    let rect = Rect::new(0, 0, 8, 8);
    encode_zrle_rect(&fb, &rect, &PixelFormat::bgra32(), &mut buf);
    let header = UpdateRectHeader::parse(&buf).unwrap();
    assert_eq!(header.encoding, ENCODING_ZRLE);
    let len = u32::from_be_bytes([buf[12], buf[13], buf[14], buf[15]]) as usize;
    assert_eq!(buf.len(), 16 + len);
    let mut decoder = ZlibDecoder::new(&buf[16..]);
    let mut tile = Vec::new();
    decoder.read_to_end(&mut tile).expect("decompression must succeed");
    assert_eq!(tile[0], 0);
    assert_eq!(tile[1..], image[..]);

    // Without a compressed form the tile itself is sent.
    for compressed in [None, Some(Vec::new())] {
        buf.clear();
        write_zrle(&rect, vec![0, 1, 2], compressed, &mut buf);
        assert_eq!(&buf[12..], &[0, 0, 0, 3, 0, 1, 2]);
    }
    buf.clear();
    write_zrle(&rect, vec![0, 1, 2], Some(vec![9, 9]), &mut buf);
    assert_eq!(&buf[12..], &[0, 0, 0, 2, 9, 9]);
}
