//! Image files, made by the `image` crate.

use crate::buffer;
use image::{ImageBuffer, ImageFormat, Rgb, Rgba};
use std::io::Cursor;
use vstd::prelude::*;

verus! {

/// The JPEG file that `ImageBuffer::write_to` makes of red, green and blue
/// bytes, or `None` where it reports an error.
pub uninterp spec fn jpeg_file(width: u32, height: u32, rgb: Seq<u8>) -> Option<Seq<u8>>;

/// The PNG file that `ImageBuffer::write_to` makes of red, green, blue and
/// alpha bytes, or `None` where it reports an error.
pub uninterp spec fn png_file(width: u32, height: u32, rgba: Seq<u8>) -> Option<Seq<u8>>;

/// `ImageBuffer::from_raw`, which takes the bytes of an image that are at
/// least as many as it needs, and `ImageBuffer::write_to` with
/// `ImageFormat::Jpeg`. Nothing is claimed of when it succeeds.
#[verifier::external_body]
pub(crate) fn write_jpeg(width: u32, height: u32, rgb: Vec<u8>) -> (r: Option<Vec<u8>>)
    requires
        width * height * 3 <= rgb@.len(),
    ensures
        buffer::bytes_in(r) == jpeg_file(width, height, rgb@),
{
    let img: ImageBuffer<Rgb<u8>, Vec<u8>> = ImageBuffer::from_raw(width, height, rgb)?;
    let mut file = Vec::new();
    img.write_to(&mut Cursor::new(&mut file), ImageFormat::Jpeg).ok()?;
    Some(file)
}

/// `ImageBuffer::from_raw`, which takes the bytes of an image that are at
/// least as many as it needs, and `ImageBuffer::write_to` with
/// `ImageFormat::Png`. Nothing is claimed of when it succeeds.
#[verifier::external_body]
pub(crate) fn write_png(width: u32, height: u32, rgba: Vec<u8>) -> (r: Option<Vec<u8>>)
    requires
        width * height * 4 <= rgba@.len(),
    ensures
        buffer::bytes_in(r) == png_file(width, height, rgba@),
{
    let img: ImageBuffer<Rgba<u8>, Vec<u8>> = ImageBuffer::from_raw(width, height, rgba)?;
    let mut file = Vec::new();
    img.write_to(&mut Cursor::new(&mut file), ImageFormat::Png).ok()?;
    Some(file)
}

} // verus!
