//! Screenshots for a browser's screencast.

use crate::buffer;
use crate::display::framebuffer::TileFramebuffer;
use crate::display::pixel;
use crate::display::pixel::PixelFormat;
use crate::display::rect::Rect;
use crate::streaming::picture;
use crate::streaming::picture::{write_jpeg, write_png};
use vstd::prelude::*;

verus! {

/// Why there is no screenshot.
#[derive(Debug, Clone, Copy, PartialEq, Eq, Structural)]
pub enum CaptureError {
    /// The screen is too large for 16-bit coordinates, so that not all of its
    /// pixels were read.
    TooFewPixels,
    /// The image file could not be made.
    Encoding,
}

/// A quality held between 1 and 100.
pub open spec fn held_quality(quality: u8) -> u8 {
    if quality < 1 {
        1
    } else if quality > 100 {
        100
    } else {
        quality
    }
}

/// Takes screenshots of a display for one browser.
#[derive(Debug)]
pub struct CdpScreencastPipe {
    pub browser_id: String,
    pub quality: u8,
}

/// The whole screen, as far as 16-bit coordinates tell.
pub open spec fn full_rect(fb: TileFramebuffer) -> Rect {
    Rect { x: 0, y: 0, width: fb.width as u16, height: fb.height as u16 }
}

/// What a screenshot comes to, given the pixels read and the file made of
/// them.
pub open spec fn outcome(
    width: u32,
    height: u32,
    channels: nat,
    pixels: Seq<u8>,
    file: Option<Seq<u8>>,
) -> Result<Seq<u8>, CaptureError> {
    if width * height * channels > pixels.len() {
        Err(CaptureError::TooFewPixels)
    } else {
        match file {
            Some(f) => Ok(f),
            None => Err(CaptureError::Encoding),
        }
    }
}

/// A screenshot's bytes, or why there is none.
pub open spec fn viewed(r: Result<Vec<u8>, CaptureError>) -> Result<Seq<u8>, CaptureError> {
    match r {
        Ok(v) => Ok(v@),
        Err(e) => Err(e),
    }
}

/// The result of a screenshot from the file that was made of it.
pub fn finished(file: Option<Vec<u8>>) -> (r: Result<Vec<u8>, CaptureError>)
    ensures
        viewed(r) == match buffer::bytes_in(file) {
            Some(f) => Ok::<Seq<u8>, CaptureError>(f),
            None => Err(CaptureError::Encoding),
        },
{
    match file {
        Some(f) => Ok(f),
        None => Err(CaptureError::Encoding),
    }
}

/// Whether `count` bytes are enough for an image.
pub fn enough_pixels(width: u32, height: u32, channels: u8, count: usize) -> (r: bool)
    ensures
        r == (width * height * channels <= count),
{
    assert(width * height <= 0xffff_ffff * 0xffff_ffff) by (nonlinear_arith)
        requires
            width <= 0xffff_ffff,
            height <= 0xffff_ffff,
    ;
    let area: u64 = width as u64 * height as u64;
    assert(0 <= area * channels <= 0xffff_ffff_ffff_ffff * 255) by (nonlinear_arith)
        requires
            area <= 0xffff_ffff_ffff_ffff,
            channels <= 255,
    ;
    area as u128 * channels as u128 <= count as u128
}

impl CdpScreencastPipe {
    /// A pipe for one browser; the quality is held between 1 and 100.
    pub fn new(browser_id: String, quality: u8) -> (r: Self)
        ensures
            r.browser_id == browser_id,
            r.quality == held_quality(quality),
    {
        let held: u8 = if quality < 1 {
            1
        } else if quality > 100 {
            100
        } else {
            quality
        };
        CdpScreencastPipe { browser_id, quality: held }
    }

    /// The screen as a JPEG file.
    pub fn capture_jpeg(&self, fb: &TileFramebuffer) -> (r: Result<Vec<u8>, CaptureError>)
        requires
            fb.wf(),
        ensures
            ({
                let pixels = fb.area(full_rect(*fb), pixel::eight_bit_channels(24, 0, 16));
                viewed(r) == outcome(
                    fb.width,
                    fb.height,
                    3,
                    pixels,
                    picture::jpeg_file(fb.width, fb.height, pixels),
                )
            }),
    {
        let format = PixelFormat::rgb24();
        let rect = Rect::new(0, 0, fb.width as u16, fb.height as u16);
        proof {
            lemma_screen_fits(*fb, 3);
        }
        let pixels = fb.extract_rect_bytes(&rect, &format);
        if !enough_pixels(fb.width, fb.height, 3, pixels.len()) {
            return Err(CaptureError::TooFewPixels);
        }
        finished(write_jpeg(fb.width, fb.height, pixels))
    }

    /// The screen as a PNG file.
    pub fn capture_png(&self, fb: &TileFramebuffer) -> (r: Result<Vec<u8>, CaptureError>)
        requires
            fb.wf(),
        ensures
            ({
                let pixels = fb.area(full_rect(*fb), pixel::eight_bit_channels(32, 0, 16));
                viewed(r) == outcome(
                    fb.width,
                    fb.height,
                    4,
                    pixels,
                    picture::png_file(fb.width, fb.height, pixels),
                )
            }),
    {
        let format = PixelFormat::rgba32();
        let rect = Rect::new(0, 0, fb.width as u16, fb.height as u16);
        proof {
            lemma_screen_fits(*fb, 4);
        }
        let pixels = fb.extract_rect_bytes(&rect, &format);
        if !enough_pixels(fb.width, fb.height, 4, pixels.len()) {
            return Err(CaptureError::TooFewPixels);
        }
        finished(write_png(fb.width, fb.height, pixels))
    }
}

proof fn lemma_low_bits(v: u32)
    ensures
        (v as u16) <= v,
{
    assert((v as u16) <= v) by (bit_vector);
}

/// The pixels of the screen fit in memory in up to four channels.
proof fn lemma_screen_fits(fb: TileFramebuffer, channels: int)
    requires
        fb.wf(),
        0 <= channels <= 4,
    ensures
        full_rect(fb).width * full_rect(fb).height * channels <= isize::MAX,
{
    lemma_low_bits(fb.width);
    lemma_low_bits(fb.height);
    let w = full_rect(fb).width as int;
    let h = full_rect(fb).height as int;
    let fw = fb.width as int;
    let fh = fb.height as int;
    assert(w * h * channels <= fw * 4 * fh) by (nonlinear_arith)
        requires
            0 <= w <= fw,
            0 <= h <= fh,
            0 <= channels <= 4,
    ;
}

/// A screenshot is the file that was made, if enough pixels were read for it; and
/// without a file there is no screenshot.
pub proof fn law_screenshot_is_the_file(
    width: u32,
    height: u32,
    channels: nat,
    pixels: Seq<u8>,
    file: Option<Seq<u8>>,
)
    ensures
        ({
            let r = outcome(width, height, channels, pixels, file);
            &&& r matches Ok(f) ==> file == Some(f) && width * height * channels <= pixels.len()
            &&& r is Ok == (file is Some && width * height * channels <= pixels.len())
            &&& r == Err::<Seq<u8>, CaptureError>(CaptureError::TooFewPixels) <==> width * height
                * channels > pixels.len()
        }),
{
}

/// The area that a screenshot is taken of is the whole screen, as long as its
/// size fits in 16 bits.
pub proof fn law_screenshot_is_of_the_screen(fb: TileFramebuffer)
    requires
        fb.width <= 65535,
        fb.height <= 65535,
    ensures
        full_rect(fb).x == 0,
        full_rect(fb).y == 0,
        full_rect(fb).width == fb.width,
        full_rect(fb).height == fb.height,
{
}

/// A quality from 1 to 100 is taken as it is, and any other as the nearer of these
/// two.
pub proof fn law_quality_range(quality: u8)
    ensures
        1 <= held_quality(quality) <= 100,
        1 <= quality <= 100 ==> held_quality(quality) == quality,
        quality == 0 ==> held_quality(quality) == 1,
        quality > 100 ==> held_quality(quality) == 100,
{
}

} // verus!
