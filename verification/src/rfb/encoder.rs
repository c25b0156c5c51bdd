//! Encodings of framebuffer areas: raw, Tight, ZRLE, CopyRect and the
//! pseudo-encodings.

use crate::buffer;
use crate::buffer::{append, put_u8};
use crate::display::framebuffer::TileFramebuffer;
use crate::display::grid;
use crate::display::laws;
use crate::display::pixel;
use crate::display::pixel::PixelFormat;
use crate::display::rect::Rect;
use crate::rfb::message;
use crate::rfb::message::{
    UpdateRectHeader, ENCODING_COPY_RECT, ENCODING_RAW, ENCODING_TIGHT, ENCODING_ZRLE,
    PSEUDO_ENCODING_CURSOR, PSEUDO_ENCODING_DESKTOP_NAME, PSEUDO_ENCODING_DESKTOP_SIZE,
    PSEUDO_ENCODING_LAST_RECT,
};
use crate::rfb::zlib;
use crate::rfb::zlib::zlib_compress;
use crate::wire;
use crate::wire::{u16_to_be, u32_to_be};
use bytes::BytesMut;
use vstd::prelude::*;

verus! {

/// First byte of a Tight rectangle of a single colour.
pub const TIGHT_FILL: u8 = 0x80;

/// First byte of a Tight rectangle whose pixels are not compressed.
pub const TIGHT_PLAIN: u8 = 0x00;

/// First byte of a Tight rectangle compressed with stream 0, which is reset
/// first.
pub const TIGHT_ZLIB_RESET: u8 = 0x01;

/// A length in Tight's compact form: seven bits to the byte, least significant
/// first, the top bit set where another byte follows; eight bits in the third
/// byte.
pub open spec fn compact_len(len: nat) -> Seq<u8> {
    if len < 0x80 {
        seq![len as u8]
    } else if len < 0x4000 {
        seq![(len % 0x80 + 0x80) as u8, (len / 0x80) as u8]
    } else {
        seq![
            (len % 0x80 + 0x80) as u8,
            (len / 0x80 % 0x80 + 0x80) as u8,
            (len / 0x4000 % 0x100) as u8,
        ]
    }
}

/// The length that compact bytes stand for.
pub open spec fn compact_value(s: Seq<u8>) -> nat {
    if s[0] < 0x80 {
        s[0] as nat
    } else if s[1] < 0x80 {
        (s[0] - 0x80 + s[1] * 0x80) as nat
    } else {
        (s[0] - 0x80 + (s[1] - 0x80) * 0x80 + s[2] * 0x4000) as nat
    }
}

/// Appends a length in Tight's compact form.
pub fn write_compact_len(buf: &mut BytesMut, len: usize)
    ensures
        buffer::contents(*final(buf)) == buffer::contents(*old(buf)) + compact_len(len as nat),
{
    let ghost before = buffer::contents(*buf);
    let low: u8 = (len % 0x80) as u8;
    let rest: usize = len / 0x80;
    if rest == 0 {
        put_u8(buf, low);
        assert(buffer::contents(*buf) =~= before + compact_len(len as nat));
        return;
    }
    put_u8(buf, low + 0x80);
    let middle: u8 = (rest % 0x80) as u8;
    let high: usize = rest / 0x80;
    if high == 0 {
        put_u8(buf, middle);
        assert(buffer::contents(*buf) =~= before + compact_len(len as nat));
        return;
    }
    put_u8(buf, middle + 0x80);
    put_u8(buf, (high % 0x100) as u8);
    assert(buffer::contents(*buf) =~= before + compact_len(len as nat));
}

/// Reading a compact length gives the length back, whatever follows it. A
/// length of 4 MiB or more does not fit in three bytes.
pub proof fn law_compact_len_round_trip(len: nat, more: Seq<u8>)
    requires
        len < 0x40_0000,
    ensures
        compact_value(compact_len(len) + more) == len,
{
    let s = compact_len(len) + more;
    assert(s[0] == compact_len(len)[0]);
    if len >= 0x80 {
        assert(s[1] == compact_len(len)[1]);
    }
    if len >= 0x4000 {
        assert(s[2] == compact_len(len)[2]);
        assert(len == len % 0x80 + len / 0x80 % 0x80 * 0x80 + len / 0x4000 * 0x4000);
    }
}

/// Whether the pixels of an area can be held in memory.
pub open spec fn area_fits(rect: Rect, f: PixelFormat) -> bool {
    rect.width * rect.height * f.bytes_per_pixel() <= isize::MAX
}

/// The header of a rectangle.
pub open spec fn header(rect: Rect, encoding: i32) -> Seq<u8> {
    message::header_bytes(UpdateRectHeader { rect, encoding })
}

/// A raw rectangle: the header and the pixels.
pub open spec fn raw_rect(fb: TileFramebuffer, rect: Rect, f: PixelFormat) -> Seq<u8> {
    header(rect, ENCODING_RAW) + fb.area(rect, f)
}

/// Appends an area in the raw encoding.
pub fn encode_raw_rect(
    fb: &TileFramebuffer,
    rect: &Rect,
    client_format: &PixelFormat,
    buf: &mut BytesMut,
)
    requires
        fb.wf(),
        area_fits(*rect, *client_format),
    ensures
        buffer::contents(*final(buf)) == buffer::contents(*old(buf)) + raw_rect(
            *fb,
            *rect,
            *client_format,
        ),
{
    let ghost before = buffer::contents(*buf);
    UpdateRectHeader::new(*rect, ENCODING_RAW).write_to(buf);
    let pixels = fb.extract_rect_bytes(rect, client_format);
    append(buf, pixels.as_slice());
    assert(buffer::contents(*buf) =~= before + raw_rect(*fb, *rect, *client_format));
}

/// Whether the data is made of one pixel of `bpp` bytes, once or more.
pub open spec fn is_solid(data: Seq<u8>, bpp: int) -> bool {
    &&& 0 < data.len()
    &&& 0 < bpp
    &&& data.len() % bpp as nat == 0
    &&& forall|i: int| 0 <= i < data.len() ==> #[trigger] data[i] == data[i % bpp]
}

/// The pixel that the data is made of, if there is only one colour.
pub fn get_solid_color_slice(data: &[u8], bpp: usize) -> (r: Option<&[u8]>)
    ensures
        r is Some == is_solid(data@, bpp as int),
        r matches Some(pixel) ==> pixel@ == data@.take(bpp as int),
{
    let size: usize = data.len();
    if size == 0 || bpp == 0 || size % bpp != 0 {
        return None;
    }
    proof {
        vstd::arithmetic::div_mod::lemma_mod_is_zero(size as nat, bpp as nat);
    }
    let mut i: usize = 0;
    let mut within: usize = 0;
    while i < size
        invariant
            i <= size,
            size == data@.len(),
            0 < bpp <= size,
            size as nat % bpp as nat == 0,
            within == i as int % bpp as int,
            forall|j: int| 0 <= j < i ==> #[trigger] data@[j] == data@[j % (bpp as int)],
        decreases size - i,
    {
        proof {
            vstd::arithmetic::div_mod::lemma_mod_bound(i as int, bpp as int);
        }
        if data[i] != data[within] {
            assert(data@[i as int] != data@[i as int % bpp as int]);
            return None;
        }
        proof {
            lemma_next_in_pixel(i as int, bpp as int);
        }
        within = if within + 1 == bpp {
            0
        } else {
            within + 1
        };
        i = i + 1;
    }
    let pixel = vstd::slice::slice_subrange(data, 0, bpp);
    assert(pixel@ =~= data@.take(bpp as int));
    Some(pixel)
}

proof fn lemma_next_in_pixel(i: int, bpp: int)
    requires
        0 <= i,
        0 < bpp,
    ensures
        (i + 1) % bpp == if i % bpp + 1 == bpp {
            0
        } else {
            i % bpp + 1
        },
        (i + 1) / bpp == if i % bpp + 1 == bpp {
            i / bpp + 1
        } else {
            i / bpp
        },
{
    let q = i / bpp;
    let r = i % bpp;
    vstd::arithmetic::div_mod::lemma_fundamental_div_mod(i, bpp);
    vstd::arithmetic::div_mod::lemma_mod_bound(i, bpp);
    assert(bpp * q == q * bpp) by (nonlinear_arith);
    if r + 1 == bpp {
        assert(q * bpp + bpp == (q + 1) * bpp) by (nonlinear_arith);
        vstd::arithmetic::div_mod::lemma_fundamental_div_mod_converse(i + 1, bpp, q + 1, 0);
    } else {
        vstd::arithmetic::div_mod::lemma_fundamental_div_mod_converse(i + 1, bpp, q, r + 1);
    }
}

/// Whether Tight sends pixels of this format as red, green and blue bytes.
pub open spec fn is_truecolour24(f: PixelFormat) -> bool {
    f.depth == 24 && (f.bytes_per_pixel() == 3 || f.bytes_per_pixel() == 4)
}

/// The format in which Tight sends the pixels.
pub open spec fn tight_format(f: PixelFormat) -> PixelFormat {
    if is_truecolour24(f) {
        pixel::eight_bit_channels(24, 0, 16)
    } else {
        f
    }
}

/// Tight needs no more room than the client's own format.
pub proof fn lemma_tight_area_fits(rect: Rect, f: PixelFormat)
    requires
        area_fits(rect, f),
    ensures
        area_fits(rect, tight_format(f)),
{
    let area = rect.width * rect.height;
    let bpp = f.bytes_per_pixel() as int;
    if is_truecolour24(f) {
        assert(area * 3 <= area * bpp) by (nonlinear_arith)
            requires
                area == rect.width * rect.height,
                3 <= bpp,
        ;
    }
}

/// Bytes to a pixel in Tight, at least one.
pub open spec fn tight_bpp(f: PixelFormat) -> nat {
    if is_truecolour24(f) {
        3
    } else if f.bytes_per_pixel() == 0 {
        1
    } else {
        f.bytes_per_pixel()
    }
}

/// Pixels sent compressed, or as they are where there is no compressed form.
pub open spec fn tight_compressed(pixels: Seq<u8>, compressed: Option<Seq<u8>>) -> Seq<u8> {
    match compressed {
        Some(c) => seq![TIGHT_ZLIB_RESET] + compact_len(c.len()) + c,
        None => seq![TIGHT_PLAIN] + compact_len(pixels.len()) + pixels,
    }
}

/// What follows the header of a Tight rectangle: a single colour as such, up
/// to eleven bytes as they are, anything else compressed.
pub open spec fn tight_body(pixels: Seq<u8>, bpp: int, compressed: Option<Seq<u8>>) -> Seq<u8> {
    if is_solid(pixels, bpp) {
        seq![TIGHT_FILL] + pixels.take(bpp)
    } else if pixels.len() < 12 {
        seq![TIGHT_PLAIN] + pixels
    } else {
        tight_compressed(pixels, compressed)
    }
}

/// A Tight rectangle.
pub open spec fn tight_rect(fb: TileFramebuffer, rect: Rect, f: PixelFormat) -> Seq<u8> {
    let pixels = fb.area(rect, tight_format(f));
    header(rect, ENCODING_TIGHT) + tight_body(
        pixels,
        tight_bpp(f) as int,
        zlib::zlib_fast(pixels),
    )
}

/// Appends pixels in their compressed form, or as they are where there is none.
pub fn write_tight_compressed(pixels: &[u8], compressed: Option<Vec<u8>>, buf: &mut BytesMut)
    ensures
        buffer::contents(*final(buf)) == buffer::contents(*old(buf)) + tight_compressed(
            pixels@,
            buffer::bytes_in(compressed),
        ),
{
    let ghost before = buffer::contents(*buf);
    match compressed {
        Some(c) => {
            put_u8(buf, TIGHT_ZLIB_RESET);
            write_compact_len(buf, c.len());
            append(buf, c.as_slice());
        },
        None => {
            put_u8(buf, TIGHT_PLAIN);
            write_compact_len(buf, pixels.len());
            append(buf, pixels);
        },
    }
    assert(buffer::contents(*buf) =~= before + tight_compressed(
        pixels@,
        buffer::bytes_in(compressed),
    ));
}

/// Appends what follows the header of a Tight rectangle. No other pixels of
/// the same number give the same bytes, and pixels that were compressed are
/// what their compressed form inflates to.
pub fn write_tight_body(pixels: &[u8], bpp: usize, buf: &mut BytesMut)
    ensures
        buffer::contents(*final(buf)) == buffer::contents(*old(buf)) + tight_body(
            pixels@,
            bpp as int,
            zlib::zlib_fast(pixels@),
        ),
        forall|other: Seq<u8>|
            other.len() == pixels@.len() && #[trigger] tight_body(
                other,
                bpp as int,
                zlib::zlib_fast(other),
            ) == tight_body(pixels@, bpp as int, zlib::zlib_fast(pixels@)) ==> other == pixels@,
        !is_solid(pixels@, bpp as int) && pixels@.len() >= 12 ==> (zlib::zlib_fast(
            pixels@,
        ) matches Some(z) ==> zlib::inflated(z) == pixels@),
{
    let ghost before = buffer::contents(*buf);
    match get_solid_color_slice(pixels, bpp) {
        Some(colour) => {
            put_u8(buf, TIGHT_FILL);
            append(buf, colour);
        },
        None => {
            if pixels.len() < 12 {
                put_u8(buf, TIGHT_PLAIN);
                append(buf, pixels);
            } else {
                let compressed = zlib_compress(pixels);
                write_tight_compressed(pixels, compressed, buf);
            }
        },
    }
    proof {
        let body = tight_body(pixels@, bpp as int, zlib::zlib_fast(pixels@));
        assert(buffer::contents(*buf) =~= before + body);
        assert forall|other: Seq<u8>|
            other.len() == pixels@.len() && #[trigger] tight_body(
                other,
                bpp as int,
                zlib::zlib_fast(other),
            ) == body implies other == pixels@ by {
            law_tight_is_lossless(pixels@, other, bpp as int);
        }
    }
}

/// The first byte of a Tight rectangle tells how its pixels are sent.
proof fn lemma_tight_first_byte(p: Seq<u8>, bpp: int)
    ensures
        ({
            let first = tight_body(p, bpp, zlib::zlib_fast(p))[0];
            &&& first == TIGHT_FILL <==> is_solid(p, bpp)
            &&& !is_solid(p, bpp) && p.len() >= 12 ==> (first == TIGHT_ZLIB_RESET
                <==> zlib::zlib_fast(p) is Some)
        }),
{
    let s = tight_body(p, bpp, zlib::zlib_fast(p));
    if is_solid(p, bpp) {
        assert(s[0] == TIGHT_FILL);
    } else if p.len() < 12 {
        assert(s[0] == TIGHT_PLAIN);
    } else {
        match zlib::zlib_fast(p) {
            Some(c) => {
                assert(s[0] == TIGHT_ZLIB_RESET);
            },
            None => {
                assert(s[0] == TIGHT_PLAIN);
            },
        }
    }
}

/// Two areas of as many pixels whose Tight forms are the same are the same,
/// given that the compression tells them apart.
pub proof fn law_tight_is_lossless(a: Seq<u8>, b: Seq<u8>, bpp: int)
    requires
        a.len() == b.len(),
        tight_body(a, bpp, zlib::zlib_fast(a)) == tight_body(b, bpp, zlib::zlib_fast(b)),
        !is_solid(a, bpp) && a.len() >= 12 && zlib::zlib_fast(a) is Some && zlib::zlib_fast(b)
            == zlib::zlib_fast(a) ==> b == a,
    ensures
        b == a,
{
    let s = tight_body(a, bpp, zlib::zlib_fast(a));
    let t = tight_body(b, bpp, zlib::zlib_fast(b));
    lemma_tight_first_byte(a, bpp);
    lemma_tight_first_byte(b, bpp);
    if is_solid(a, bpp) {
        assert(is_solid(b, bpp));
        assert(s.skip(1) =~= a.take(bpp));
        assert(t.skip(1) =~= b.take(bpp));
        vstd::arithmetic::div_mod::lemma_mod_is_zero(a.len(), bpp as nat);
        assert forall|i: int| 0 <= i < a.len() implies a[i] == b[i] by {
            vstd::arithmetic::div_mod::lemma_mod_bound(i, bpp);
            assert(a.take(bpp)[i % bpp] == b.take(bpp)[i % bpp]);
        }
        assert(a =~= b);
    } else if a.len() < 12 {
        assert(s.skip(1) =~= a);
        assert(t.skip(1) =~= b);
    } else {
        match zlib::zlib_fast(a) {
            Some(c) => {
                let d = zlib::zlib_fast(b)->0;
                lemma_compact_prefix(c, d, seq![TIGHT_ZLIB_RESET]);
            },
            None => {
                lemma_compact_prefix(a, b, seq![TIGHT_PLAIN]);
            },
        }
    }
}

/// Bytes with their compact length in front determine the bytes.
proof fn lemma_compact_prefix(c: Seq<u8>, d: Seq<u8>, first: Seq<u8>)
    requires
        first + compact_len(c.len()) + c == first + compact_len(d.len()) + d,
    ensures
        c == d,
{
    let s = first + compact_len(c.len()) + c;
    let t = first + compact_len(d.len()) + d;
    let n = first.len() as int;
    assert(s[n] == compact_len(c.len())[0]);
    assert(t[n] == compact_len(d.len())[0]);
    if c.len() >= 0x80 && d.len() >= 0x80 {
        assert(s[n + 1] == compact_len(c.len())[1]);
        assert(t[n + 1] == compact_len(d.len())[1]);
    }
    let k = n + compact_len(c.len()).len();
    assert(k == n + compact_len(d.len()).len());
    assert(s.skip(k) =~= c);
    assert(t.skip(k) =~= d);
}

/// Appends an area in the Tight encoding. No other pixels of the same number
/// give the same bytes, and pixels that were compressed are what their
/// compressed form inflates to.
pub fn encode_tight_rect(
    fb: &TileFramebuffer,
    rect: &Rect,
    client_format: &PixelFormat,
    buf: &mut BytesMut,
)
    requires
        fb.wf(),
        area_fits(*rect, tight_format(*client_format)),
    ensures
        buffer::contents(*final(buf)) == buffer::contents(*old(buf)) + tight_rect(
            *fb,
            *rect,
            *client_format,
        ),
        ({
            let pixels = fb.area(*rect, tight_format(*client_format));
            let bpp = tight_bpp(*client_format) as int;
            forall|other: Seq<u8>|
                other.len() == pixels.len() && #[trigger] tight_body(
                    other,
                    bpp,
                    zlib::zlib_fast(other),
                ) == tight_body(pixels, bpp, zlib::zlib_fast(pixels)) ==> other == pixels
        }),
        ({
            let pixels = fb.area(*rect, tight_format(*client_format));
            let bpp = tight_bpp(*client_format) as int;
            !is_solid(pixels, bpp) && pixels.len() >= 12 ==> (zlib::zlib_fast(
                pixels,
            ) matches Some(z) ==> zlib::inflated(z) == pixels)
        }),
{
    let ghost before = buffer::contents(*buf);
    UpdateRectHeader::new(*rect, ENCODING_TIGHT).write_to(buf);
    let bpp: usize = (client_format.bits_per_pixel / 8) as usize;
    let truecolour24 = client_format.depth == 24 && (bpp == 3 || bpp == 4);
    let pixels = if truecolour24 {
        fb.extract_rect_bytes(rect, &PixelFormat::rgb24())
    } else {
        fb.extract_rect_bytes(rect, client_format)
    };
    let pixel_size: usize = if truecolour24 {
        3
    } else if bpp == 0 {
        1
    } else {
        bpp
    };
    write_tight_body(pixels.as_slice(), pixel_size, buf);
    assert(buffer::contents(*buf) =~= before + tight_rect(*fb, *rect, *client_format));
}

/// How the pixels of a true-colour area travel in Tight, where they are not all
/// of one colour, take up twelve bytes or more, and could be compressed to less
/// than 4 MiB: behind the header come the control byte, the compact length, from
/// which the length is read back, and a zlib stream that inflates to exactly the
/// red, green and blue bytes of the area, given that the compression tells data
/// apart.
pub proof fn law_tight_compressed_area(
    fb: TileFramebuffer,
    rect: Rect,
    f: PixelFormat,
    z: Seq<u8>,
)
    requires
        f.depth == 24,
        f.bits_per_pixel == 24 || f.bits_per_pixel == 32,
        !is_solid(fb.area(rect, pixel::eight_bit_channels(24, 0, 16)), 3),
        fb.area(rect, pixel::eight_bit_channels(24, 0, 16)).len() >= 12,
        zlib::zlib_fast(fb.area(rect, pixel::eight_bit_channels(24, 0, 16))) == Some(z),
        z.len() < 0x40_0000,
        forall|other: Seq<u8>| #[trigger]
            zlib::zlib_fast(other) == Some(z) ==> other == fb.area(
                rect,
                pixel::eight_bit_channels(24, 0, 16),
            ),
    ensures
        tight_rect(fb, rect, f) == header(rect, ENCODING_TIGHT) + seq![TIGHT_ZLIB_RESET]
            + compact_len(z.len()) + z,
        compact_value(compact_len(z.len()) + z) == z.len(),
        zlib::inflated(z) == fb.area(rect, pixel::eight_bit_channels(24, 0, 16)),
{
    law_compact_len_round_trip(z.len(), z);
    assert(tight_rect(fb, rect, f) =~= header(rect, ENCODING_TIGHT) + seq![TIGHT_ZLIB_RESET]
        + compact_len(z.len()) + z);
}

/// What a ZRLE rectangle is compressed from: one tile, marked as raw.
pub open spec fn zrle_tile(pixels: Seq<u8>) -> Seq<u8> {
    seq![0u8] + pixels
}

/// The data of a ZRLE rectangle: compressed, or as it is where compression
/// gave nothing.
pub open spec fn zrle_data(tile: Seq<u8>, compressed: Option<Seq<u8>>) -> Seq<u8> {
    match compressed {
        Some(c) => if c.len() == 0 {
            tile
        } else {
            c
        },
        None => tile,
    }
}

/// A ZRLE rectangle around its data.
pub open spec fn zrle_frame(rect: Rect, data: Seq<u8>) -> Seq<u8> {
    header(rect, ENCODING_ZRLE) + wire::be32(data.len() as u32) + data
}

/// A ZRLE rectangle.
pub open spec fn zrle_rect(fb: TileFramebuffer, rect: Rect, f: PixelFormat) -> Seq<u8> {
    let tile = zrle_tile(fb.area(rect, f));
    zrle_frame(rect, zrle_data(tile, zlib::zlib_fast(tile)))
}

/// Appends a ZRLE rectangle, given its tile and the compressed form of it.
pub fn write_zrle(rect: &Rect, tile: Vec<u8>, compressed: Option<Vec<u8>>, buf: &mut BytesMut)
    ensures
        buffer::contents(*final(buf)) == buffer::contents(*old(buf)) + zrle_frame(
            *rect,
            zrle_data(tile@, buffer::bytes_in(compressed)),
        ),
{
    let ghost before = buffer::contents(*buf);
    let ghost expected = zrle_frame(*rect, zrle_data(tile@, buffer::bytes_in(compressed)));
    let data = match compressed {
        Some(c) => if c.len() == 0 {
            tile
        } else {
            c
        },
        None => tile,
    };
    UpdateRectHeader::new(*rect, ENCODING_ZRLE).write_to(buf);
    append(buf, u32_to_be(data.len() as u32).as_slice());
    append(buf, data.as_slice());
    assert(buffer::contents(*buf) =~= before + expected);
}

/// Two tiles whose ZRLE data is the same are the same, where both could be
/// compressed or neither, given that compression gives something and tells the
/// tiles apart.
pub proof fn law_zrle_is_lossless(a: Seq<u8>, b: Seq<u8>)
    requires
        zlib::zlib_fast(a) is Some == zlib::zlib_fast(b) is Some,
        zlib::zlib_fast(a) matches Some(c) ==> c.len() > 0,
        zlib::zlib_fast(b) matches Some(d) ==> d.len() > 0,
        zlib::zlib_fast(a) is Some && zlib::zlib_fast(b) == zlib::zlib_fast(a) ==> b == a,
        zrle_data(a, zlib::zlib_fast(a)) == zrle_data(b, zlib::zlib_fast(b)),
    ensures
        b == a,
{
}

/// Appends an area in the ZRLE encoding. No other tile that is compressed, or
/// not, like this one gives the same data, and a tile that was compressed is
/// what its data inflates to.
pub fn encode_zrle_rect(
    fb: &TileFramebuffer,
    rect: &Rect,
    client_format: &PixelFormat,
    buf: &mut BytesMut,
)
    requires
        fb.wf(),
        area_fits(*rect, *client_format),
    ensures
        buffer::contents(*final(buf)) == buffer::contents(*old(buf)) + zrle_rect(
            *fb,
            *rect,
            *client_format,
        ),
        ({
            let tile = zrle_tile(fb.area(*rect, *client_format));
            forall|other: Seq<u8>|
                zlib::zlib_fast(other) is Some == zlib::zlib_fast(tile) is Some && (zlib::zlib_fast(
                    other,
                ) matches Some(d) ==> d.len() > 0) && #[trigger] zrle_data(
                    other,
                    zlib::zlib_fast(other),
                ) == zrle_data(tile, zlib::zlib_fast(tile)) ==> other == tile
        }),
        ({
            let tile = zrle_tile(fb.area(*rect, *client_format));
            zlib::zlib_fast(tile) is Some ==> zlib::inflated(
                zrle_data(tile, zlib::zlib_fast(tile)),
            ) == tile
        }),
{
    let pixels = fb.extract_rect_bytes(rect, client_format);
    let mut tile: Vec<u8> = Vec::new();
    tile.push(0);
    tile.extend_from_slice(pixels.as_slice());
    assert(tile@ =~= zrle_tile(pixels@));
    let compressed = zlib_compress(tile.as_slice());
    proof {
        let t = tile@;
        assert forall|other: Seq<u8>|
            zlib::zlib_fast(other) is Some == zlib::zlib_fast(t) is Some && (zlib::zlib_fast(
                other,
            ) matches Some(d) ==> d.len() > 0) && #[trigger] zrle_data(
                other,
                zlib::zlib_fast(other),
            ) == zrle_data(t, zlib::zlib_fast(t)) implies other == t by {
            law_zrle_is_lossless(t, other);
        }
    }
    write_zrle(rect, tile, compressed, buf);
}

/// A rectangle that the client copies from elsewhere on its screen.
pub open spec fn copy_rect(rect: Rect, src_x: u16, src_y: u16) -> Seq<u8> {
    header(rect, ENCODING_COPY_RECT) + wire::be16(src_x) + wire::be16(src_y)
}

/// Appends a rectangle that the client copies from elsewhere on its screen.
pub fn encode_copy_rect(rect: &Rect, src_x: u16, src_y: u16, buf: &mut BytesMut)
    ensures
        buffer::contents(*final(buf)) == buffer::contents(*old(buf)) + copy_rect(
            *rect,
            src_x,
            src_y,
        ),
{
    let ghost before = buffer::contents(*buf);
    UpdateRectHeader::new(*rect, ENCODING_COPY_RECT).write_to(buf);
    append(buf, u16_to_be(src_x).as_slice());
    append(buf, u16_to_be(src_y).as_slice());
    assert(buffer::contents(*buf) =~= before + copy_rect(*rect, src_x, src_y));
}

/// The pseudo-rectangle that tells the size of the desktop.
pub open spec fn desktop_size(width: u16, height: u16) -> Seq<u8> {
    header((Rect { x: 0, y: 0, width, height }), PSEUDO_ENCODING_DESKTOP_SIZE)
}

/// Appends the pseudo-rectangle that tells the size of the desktop.
pub fn encode_pseudo_desktop_size(width: u16, height: u16, buf: &mut BytesMut)
    ensures
        buffer::contents(*final(buf)) == buffer::contents(*old(buf)) + desktop_size(width, height),
{
    UpdateRectHeader::new(Rect::new(0, 0, width, height), PSEUDO_ENCODING_DESKTOP_SIZE).write_to(
        buf,
    );
}

/// The pseudo-rectangle after which an update has no more rectangles.
pub open spec fn last_rect() -> Seq<u8> {
    header((Rect { x: 0, y: 0, width: 0, height: 0 }), PSEUDO_ENCODING_LAST_RECT)
}

/// Appends the pseudo-rectangle that ends an update.
pub fn encode_pseudo_last_rect(buf: &mut BytesMut)
    ensures
        buffer::contents(*final(buf)) == buffer::contents(*old(buf)) + last_rect(),
{
    UpdateRectHeader::new(Rect::new(0, 0, 0, 0), PSEUDO_ENCODING_LAST_RECT).write_to(buf);
}

/// The pseudo-rectangle that tells the name of the desktop.
pub open spec fn desktop_name(name: Seq<u8>) -> Seq<u8> {
    header((Rect { x: 0, y: 0, width: 0, height: 0 }), PSEUDO_ENCODING_DESKTOP_NAME) + wire::be32(
        name.len() as u32,
    ) + name
}

/// Appends the pseudo-rectangle that tells the name of the desktop.
pub fn encode_pseudo_desktop_name(name: &str, buf: &mut BytesMut)
    ensures
        buffer::contents(*final(buf)) == buffer::contents(*old(buf)) + desktop_name(
            vstd::utf8::encode_utf8(name@),
        ),
{
    let ghost before = buffer::contents(*buf);
    UpdateRectHeader::new(Rect::new(0, 0, 0, 0), PSEUDO_ENCODING_DESKTOP_NAME).write_to(buf);
    let bytes = name.as_bytes();
    append(buf, u32_to_be(bytes.len() as u32).as_slice());
    append(buf, bytes);
    assert(buffer::contents(*buf) =~= before + desktop_name(vstd::utf8::encode_utf8(name@)));
}

/// Whether the image has pixel `p`, and more than half opaque.
pub open spec fn opaque_pixel(rgba: Seq<u8>, p: int) -> bool {
    p * 4 + 3 < rgba.len() && rgba[p * 4 + 3] > 128
}

/// Colours of a cursor: the bytes of its pixels as they are where the format
/// has three or four to the pixel, zero otherwise and beyond the image.
pub open spec fn cursor_colours(rgba: Seq<u8>, pixels: nat, bpp: nat) -> Seq<u8> {
    Seq::new(
        pixels * bpp,
        |k: int|
            if (bpp == 3 || bpp == 4) && k / bpp as int * 4 + 3 < rgba.len() {
                rgba[k / bpp as int * 4 + k % bpp as int]
            } else {
                0u8
            },
    )
}

/// The bit of weight `weight` for column `x` of row `y`: set where the cursor
/// is opaque.
pub open spec fn mask_bit(rgba: Seq<u8>, width: int, y: int, x: int, weight: int) -> int {
    if x < width && opaque_pixel(rgba, y * width + x) {
        weight
    } else {
        0
    }
}

/// Eight bits of the mask, the leftmost column in the highest.
pub open spec fn mask_byte(rgba: Seq<u8>, width: int, y: int, x: int) -> u8 {
    (mask_bit(rgba, width, y, x, 128) + mask_bit(rgba, width, y, x + 1, 64) + mask_bit(
        rgba,
        width,
        y,
        x + 2,
        32,
    ) + mask_bit(rgba, width, y, x + 3, 16) + mask_bit(rgba, width, y, x + 4, 8) + mask_bit(
        rgba,
        width,
        y,
        x + 5,
        4,
    ) + mask_bit(rgba, width, y, x + 6, 2) + mask_bit(rgba, width, y, x + 7, 1)) as u8
}

/// Bytes to a row of a mask.
pub open spec fn mask_stride(width: u16) -> int {
    (width + 7) / 8
}

/// The mask of a cursor, each row starting with a new byte.
pub open spec fn cursor_mask(rgba: Seq<u8>, width: u16, height: u16) -> Seq<u8> {
    Seq::new(
        (mask_stride(width) * height) as nat,
        |j: int|
            mask_byte(
                rgba,
                width as int,
                j / mask_stride(width),
                j % mask_stride(width) * 8,
            ),
    )
}

/// The pseudo-rectangle that describes the cursor; the corner of the rectangle is
/// the hot spot.
pub open spec fn cursor_rect(rect: Rect, rgba: Seq<u8>, bpp: nat) -> Seq<u8> {
    header(rect, PSEUDO_ENCODING_CURSOR) + cursor_colours(
        rgba,
        (rect.width * rect.height) as nat,
        bpp,
    ) + cursor_mask(rgba, rect.width, rect.height)
}

fn has_pixel(rgba: &[u8], p: usize) -> (r: bool)
    ensures
        r == (p * 4 + 3 < rgba@.len()),
        r ==> p * 4 + 3 < usize::MAX,
{
    let size: usize = rgba.len();
    size >= 4 && p <= (size - 4) / 4
}

fn weigh(rgba: &[u8], width: usize, y: usize, x: usize, weight: u8) -> (r: u8)
    requires
        width <= 65535,
        y < 65535,
    ensures
        r == mask_bit(rgba@, width as int, y as int, x as int, weight as int),
{
    if x < width {
        assert(y * width <= 65534 * 65535) by (nonlinear_arith)
            requires
                y <= 65534,
                width <= 65535,
        ;
        let p: usize = y * width + x;
        if has_pixel(rgba, p) && rgba[p * 4 + 3] > 128 {
            return weight;
        }
    }
    0
}

fn colours(rgba: &[u8], total: usize, bpp: usize) -> (r: Vec<u8>)
    requires
        bpp > 0 || total == 0,
    ensures
        r@.len() == total,
        forall|k: int|
            0 <= k < total ==> #[trigger] r@[k] == if (bpp == 3 || bpp == 4) && k / bpp as int * 4
                + 3 < rgba@.len() {
                rgba@[k / bpp as int * 4 + k % bpp as int]
            } else {
                0u8
            },
{
    let mut out: Vec<u8> = Vec::new();
    let mut k: usize = 0;
    let mut p: usize = 0;
    let mut c: usize = 0;
    while k < total
        invariant
            k <= total,
            p <= k,
            bpp > 0 || total == 0,
            bpp > 0 ==> p == k as int / bpp as int && c == k as int % bpp as int,
            out@.len() == k,
            forall|i: int|
                0 <= i < k ==> #[trigger] out@[i] == if (bpp == 3 || bpp == 4) && i / bpp as int * 4
                    + 3 < rgba@.len() {
                    rgba@[i / bpp as int * 4 + i % bpp as int]
                } else {
                    0u8
                },
        decreases total - k,
    {
        proof {
            lemma_next_in_pixel(k as int, bpp as int);
            vstd::arithmetic::div_mod::lemma_mod_bound(k as int, bpp as int);
        }
        let b: u8 = if (bpp == 3 || bpp == 4) && has_pixel(rgba, p) {
            rgba[p * 4 + c]
        } else {
            0
        };
        out.push(b);
        k = k + 1;
        c = c + 1;
        if c == bpp {
            c = 0;
            p = p + 1;
        }
    }
    out
}

fn mask(rgba: &[u8], width: u16, height: u16) -> (r: Vec<u8>)
    ensures
        r@ == cursor_mask(rgba@, width, height),
{
    let stride: usize = (width as usize + 7) / 8;
    let w: usize = width as usize;
    let rows: usize = height as usize;
    let mut out: Vec<u8> = Vec::new();
    let mut y: usize = 0;
    while y < rows
        invariant
            y <= rows,
            rows == height,
            w == width,
            stride == mask_stride(width),
            out@.len() == y * stride,
            forall|j: int|
                0 <= j < out@.len() ==> #[trigger] out@[j] == mask_byte(
                    rgba@,
                    w as int,
                    j / stride as int,
                    j % stride as int * 8,
                ),
        decreases rows - y,
    {
        let mut i: usize = 0;
        while i < stride
            invariant
                i <= stride,
                y < rows,
                rows == height,
                w == width,
                stride == mask_stride(width),
                out@.len() == y * stride + i,
                forall|j: int|
                    0 <= j < out@.len() ==> #[trigger] out@[j] == mask_byte(
                        rgba@,
                        w as int,
                        j / stride as int,
                        j % stride as int * 8,
                    ),
            decreases stride - i,
        {
            let x: usize = i * 8;
            let b: u8 = weigh(rgba, w, y, x, 128) + weigh(rgba, w, y, x + 1, 64) + weigh(
                rgba,
                w,
                y,
                x + 2,
                32,
            ) + weigh(rgba, w, y, x + 3, 16) + weigh(rgba, w, y, x + 4, 8) + weigh(
                rgba,
                w,
                y,
                x + 5,
                4,
            ) + weigh(rgba, w, y, x + 6, 2) + weigh(rgba, w, y, x + 7, 1);
            proof {
                grid::lemma_cell(out@.len() as int, stride as int, y as int, i as int);
            }
            out.push(b);
            i = i + 1;
        }
        y = y + 1;
        assert(y * stride == (y - 1) * stride + stride) by (nonlinear_arith);
    }
    assert(rows * stride == stride * rows) by (nonlinear_arith);
    assert(out@ =~= cursor_mask(rgba@, width, height));
    out
}

/// Appends the pseudo-rectangle that describes the cursor: its colours, then
/// its mask.
pub fn encode_pseudo_cursor(
    hotspot_x: u16,
    hotspot_y: u16,
    width: u16,
    height: u16,
    rgba_pixels: &[u8],
    client_format: &PixelFormat,
    buf: &mut BytesMut,
)
    requires
        area_fits((Rect { x: hotspot_x, y: hotspot_y, width, height }), *client_format),
    ensures
        buffer::contents(*final(buf)) == buffer::contents(*old(buf)) + cursor_rect(
            (Rect { x: hotspot_x, y: hotspot_y, width, height }),
            rgba_pixels@,
            client_format.bytes_per_pixel(),
        ),
{
    let ghost before = buffer::contents(*buf);
    let bpp: usize = (client_format.bits_per_pixel / 8) as usize;
    let ghost area = width * height;
    proof {
        assert(0 <= area <= 65535 * 65535) by (nonlinear_arith)
            requires
                area == width * height,
                0 <= width <= 65535,
                0 <= height <= 65535,
        ;
        assert(if bpp == 0 {
            area * bpp == 0
        } else {
            area <= area * bpp
        }) by (nonlinear_arith)
            requires
                0 <= area,
                0 <= bpp,
        ;
    }
    let pixels: u64 = width as u64 * height as u64;
    let total: usize = if bpp == 0 {
        0
    } else {
        pixels as usize * bpp
    };
    UpdateRectHeader::new(Rect::new(hotspot_x, hotspot_y, width, height), PSEUDO_ENCODING_CURSOR)
        .write_to(buf);
    let colour_data = colours(rgba_pixels, total, bpp);
    assert(colour_data@ =~= cursor_colours(
        rgba_pixels@,
        area as nat,
        client_format.bytes_per_pixel(),
    ));
    let bitmask = mask(rgba_pixels, width, height);
    append(buf, colour_data.as_slice());
    append(buf, bitmask.as_slice());
    assert(buffer::contents(*buf) =~= before + cursor_rect(
        (Rect { x: hotspot_x, y: hotspot_y, width, height }),
        rgba_pixels@,
        client_format.bytes_per_pixel(),
    ));
}

/// A raw rectangle is its twelve bytes of header and its pixels.
pub proof fn law_raw_rect_size(fb: TileFramebuffer, rect: Rect, f: PixelFormat)
    ensures
        raw_rect(fb, rect, f).len() == 12 + rect.width * rect.height * f.bytes_per_pixel(),
        raw_rect(fb, rect, f).take(12) == header(rect, ENCODING_RAW),
        raw_rect(fb, rect, f).skip(12) == fb.area(rect, f),
{
    let h = UpdateRectHeader { rect, encoding: ENCODING_RAW };
    message::law_header_round_trip(h);
    let s = raw_rect(fb, rect, f);
    let w = rect.width as int;
    let n = rect.height as int;
    let b = f.bytes_per_pixel() as int;
    assert(0 <= w * n * b) by (nonlinear_arith)
        requires
            0 <= w,
            0 <= n,
            0 <= b,
    ;
    assert(s.take(12) =~= header(rect, ENCODING_RAW));
    assert(s.skip(12) =~= fb.area(rect, f));
}

/// How many bytes a compact length takes up, at the start of `s`: a byte with
/// its top bit set is followed by another, up to three.
pub open spec fn compact_size(s: Seq<u8>) -> int {
    if s[0] < 0x80 {
        1
    } else if s[1] < 0x80 {
        2
    } else {
        3
    }
}

/// A compact length is made of seven bits of the length to the byte, the lowest
/// first, each byte but the last marked by its top bit.
pub proof fn law_compact_len_digits(len: nat, more: Seq<u8>)
    ensures
        ({
            let s = compact_len(len);
            &&& s.len() == if len < 128 {
                1int
            } else if len < 16384 {
                2
            } else {
                3
            }
            &&& s.len() == 1 ==> s[0] == len
            &&& s.len() == 2 ==> s[0] >= 128 && s[1] < 128 && (s[0] - 128) + 128 * s[1] == len
            &&& s.len() == 3 && len < 0x40_0000 ==> s[0] >= 128 && s[1] >= 128 && (s[0] - 128) + 128
                * (s[1] - 128) + 16384 * s[2] == len
            &&& compact_size(s + more) == s.len()
        }),
{
    let s = compact_len(len);
    assert((s + more)[0] == s[0]);
    if len >= 0x80 {
        assert((s + more)[1] == s[1]);
    }
    if 0x4000 <= len < 0x40_0000 {
        assert(len == len % 0x80 + len / 0x80 % 0x80 * 0x80 + len / 0x4000 * 0x4000);
    }
}

/// What a client makes of the part of a Tight rectangle behind the header, given
/// the bytes to a pixel and how many bytes the pixels take up: after 0x80, the
/// pixel that follows, over and over; of fewer than twelve bytes, those bytes;
/// otherwise, behind a compact length, the bytes themselves or, after 0x01, what
/// they inflate to.
pub open spec fn tight_decoded(body: Seq<u8>, bpp: int, size: nat) -> Seq<u8> {
    if body[0] == 0x80 {
        Seq::new(size, |i: int| body[1 + i % bpp])
    } else if size < 12 {
        body.skip(1)
    } else {
        let data = body.skip(1 + compact_size(body.skip(1)));
        if body[0] == 0x01 {
            zlib::inflated(data)
        } else {
            data
        }
    }
}

/// A Tight rectangle is decoded to the pixels that it was made of, given that
/// what was compressed inflates to what it was.
pub proof fn law_tight_decodes(pixels: Seq<u8>, bpp: int)
    requires
        0 < pixels.len(),
        0 < bpp,
        zlib::zlib_fast(pixels) matches Some(z) ==> zlib::inflated(z) == pixels,
    ensures
        tight_decoded(
            tight_body(pixels, bpp, zlib::zlib_fast(pixels)),
            bpp,
            pixels.len(),
        ) == pixels,
{
    let body = tight_body(pixels, bpp, zlib::zlib_fast(pixels));
    if is_solid(pixels, bpp) {
        assert(body[0] == 0x80);
        vstd::arithmetic::div_mod::lemma_mod_is_zero(pixels.len(), bpp as nat);
        assert forall|i: int| 0 <= i < pixels.len() implies body[1 + i % bpp] == pixels[i] by {
            vstd::arithmetic::div_mod::lemma_mod_bound(i, bpp);
            assert(pixels[i] == pixels[i % bpp]);
            assert(body[1 + i % bpp] == pixels.take(bpp)[i % bpp]);
        }
        assert(tight_decoded(body, bpp, pixels.len()) =~= pixels);
    } else if pixels.len() < 12 {
        assert(body[0] == 0x00);
        assert(body.skip(1) =~= pixels);
    } else {
        let (first, data) = match zlib::zlib_fast(pixels) {
            Some(z) => (0x01u8, z),
            None => (0x00u8, pixels),
        };
        let len = compact_len(data.len());
        assert(body =~= seq![first] + len + data);
        assert(body[0] == first);
        assert(body.skip(1) =~= len + data);
        law_compact_len_digits(data.len(), data);
        assert(body.skip((1 + len.len()) as int) =~= data);
    }
}

/// What a client that knows Tight makes of an area is the area: its pixels as
/// red, green and blue bytes for a true-colour client, in the client's own
/// format otherwise. Twelve bytes of header come first.
pub proof fn law_tight_area_decodes(fb: TileFramebuffer, rect: Rect, f: PixelFormat)
    requires
        0 < rect.width,
        0 < rect.height,
        0 < f.bytes_per_pixel(),
        ({
            let p = fb.area(
                rect,
                if f.depth == 24 && (f.bytes_per_pixel() == 3 || f.bytes_per_pixel() == 4) {
                    pixel::eight_bit_channels(24, 0, 16)
                } else {
                    f
                },
            );
            zlib::zlib_fast(p) matches Some(z) ==> zlib::inflated(z) == p
        }),
    ensures
        f.depth == 24 && (f.bytes_per_pixel() == 3 || f.bytes_per_pixel() == 4) ==> tight_decoded(
            tight_rect(fb, rect, f).skip(12),
            3,
            (rect.width * rect.height * 3) as nat,
        ) == fb.area(rect, pixel::eight_bit_channels(24, 0, 16)),
        !(f.depth == 24 && (f.bytes_per_pixel() == 3 || f.bytes_per_pixel() == 4)) ==> tight_decoded(
            tight_rect(fb, rect, f).skip(12),
            f.bytes_per_pixel() as int,
            (rect.width * rect.height * f.bytes_per_pixel()) as nat,
        ) == fb.area(rect, f),
{
    let t = tight_format(f);
    let p = fb.area(rect, t);
    let w = rect.width as int;
    let h = rect.height as int;
    let b = t.bytes_per_pixel() as int;
    assert(0 < w * h * b) by (nonlinear_arith)
        requires
            0 < w,
            0 < h,
            0 < b,
    ;
    law_tight_decodes(p, tight_bpp(f) as int);
    lemma_tight_behind_header(fb, rect, f);
}

/// Whether all pixels of an area on the screen have the red, green and blue of
/// the pixel in its corner.
pub open spec fn one_colour(fb: TileFramebuffer, rect: Rect) -> bool {
    let corner = (rect.y * fb.width + rect.x) * 4;
    forall|col: int, row: int|
        0 <= col < rect.width && 0 <= row < rect.height ==> {
            let at = #[trigger] laws::offset_of(fb, rect, col, row);
            &&& fb.buffer@[at] == fb.buffer@[corner]
            &&& fb.buffer@[at + 1] == fb.buffer@[corner + 1]
            &&& fb.buffer@[at + 2] == fb.buffer@[corner + 2]
        }
}

/// A true-colour area of one colour is sent as 0x80 and that colour: the red,
/// the green and the blue byte, in this order, of the pixel in its corner.
pub proof fn law_tight_fill_is_the_colour(fb: TileFramebuffer, rect: Rect, f: PixelFormat)
    requires
        fb.wf(),
        f.depth == 24,
        f.bits_per_pixel == 24 || f.bits_per_pixel == 32,
        0 < rect.width,
        0 < rect.height,
        rect.x + rect.width <= fb.width,
        rect.y + rect.height <= fb.height,
        one_colour(fb, rect),
    ensures
        ({
            let corner = (rect.y * fb.width + rect.x) * 4;
            tight_rect(fb, rect, f).skip(12) == seq![
                0x80u8,
                fb.buffer@[corner + 2],
                fb.buffer@[corner + 1],
                fb.buffer@[corner],
            ]
        }),
{
    let p = fb.area(rect, pixel::eight_bit_channels(24, 0, 16));
    let corner = (rect.y * fb.width + rect.x) * 4;
    lemma_one_colour_is_solid(fb, rect);
    lemma_fill_body(
        p,
        fb.buffer@[corner + 2],
        fb.buffer@[corner + 1],
        fb.buffer@[corner],
        zlib::zlib_fast(p),
    );
    lemma_tight_behind_header(fb, rect, f);
}

proof fn lemma_fill_body(p: Seq<u8>, r: u8, g: u8, b: u8, z: Option<Seq<u8>>)
    requires
        is_solid(p, 3),
        p.take(3) == seq![r, g, b],
    ensures
        tight_body(p, 3, z) == seq![0x80u8, r, g, b],
{
    assert(seq![TIGHT_FILL] + seq![r, g, b] =~= seq![0x80u8, r, g, b]);
}

proof fn lemma_tight_behind_header(fb: TileFramebuffer, rect: Rect, f: PixelFormat)
    ensures
        ({
            let p = fb.area(rect, tight_format(f));
            tight_rect(fb, rect, f).skip(12) == tight_body(
                p,
                tight_bpp(f) as int,
                zlib::zlib_fast(p),
            )
        }),
{
    let p = fb.area(rect, tight_format(f));
    let head = header(rect, ENCODING_TIGHT);
    let body = tight_body(p, tight_bpp(f) as int, zlib::zlib_fast(p));
    message::law_header_round_trip(UpdateRectHeader { rect, encoding: ENCODING_TIGHT });
    assert((head + body).skip(12) =~= body);
}

proof fn lemma_one_colour_is_solid(fb: TileFramebuffer, rect: Rect)
    requires
        fb.wf(),
        0 < rect.width,
        0 < rect.height,
        rect.x + rect.width <= fb.width,
        rect.y + rect.height <= fb.height,
        one_colour(fb, rect),
    ensures
        ({
            let p = fb.area(rect, pixel::eight_bit_channels(24, 0, 16));
            let corner = (rect.y * fb.width + rect.x) * 4;
            &&& is_solid(p, 3)
            &&& p.take(3) == seq![
                fb.buffer@[corner + 2],
                fb.buffer@[corner + 1],
                fb.buffer@[corner],
            ]
        }),
{
    let p = fb.area(rect, pixel::eight_bit_channels(24, 0, 16));
    let corner = (rect.y * fb.width + rect.x) * 4;
    let colour = seq![fb.buffer@[corner + 2], fb.buffer@[corner + 1], fb.buffer@[corner]];
    let w = rect.width as int;
    let h = rect.height as int;
    assert(0 < w * h && w * h * 3 == 3 * (w * h)) by (nonlinear_arith)
        requires
            0 < w,
            0 < h,
    ;
    assert forall|i: int| 0 <= i < p.len() implies #[trigger] p[i] == colour[i % 3] by {
        lemma_byte_of_one_colour(fb, rect, i);
    }
    lemma_solid(p, colour, w * h);
}

proof fn lemma_byte_of_one_colour(fb: TileFramebuffer, rect: Rect, i: int)
    requires
        fb.wf(),
        rect.x + rect.width <= fb.width,
        rect.y + rect.height <= fb.height,
        one_colour(fb, rect),
        0 <= i < rect.width * rect.height * 3,
    ensures
        ({
            let corner = (rect.y * fb.width + rect.x) * 4;
            let colour = seq![fb.buffer@[corner + 2], fb.buffer@[corner + 1], fb.buffer@[corner]];
            fb.area(rect, pixel::eight_bit_channels(24, 0, 16))[i] == colour[i % 3]
        }),
{
    let rgb = pixel::eight_bit_channels(24, 0, 16);
    let w = rect.width as int;
    let h = rect.height as int;
    let q = i / 3;
    assert(q < h * w && 0 < w) by (nonlinear_arith)
        requires
            0 <= i < w * h * 3,
            0 <= w,
            0 <= h,
            q * 3 <= i,
    ;
    grid::lemma_cell_in_rows(q, w, h);
    laws::law_pixels_of_an_area(fb, rect, rgb, q % w, q / w);
    laws::lemma_pixel_in_rgb(fb, rect, q % w, q / w);
    let at = laws::offset_of(fb, rect, q % w, q / w);
    let area = fb.area(rect, rgb);
    assert(area.subrange(q * 3, q * 3 + 3)[i % 3] == area[i]);
}

/// Data made of one pixel of three bytes is solid.
proof fn lemma_solid(p: Seq<u8>, colour: Seq<u8>, count: int)
    requires
        0 < count,
        p.len() == 3 * count,
        colour.len() == 3,
        forall|i: int| 0 <= i < p.len() ==> #[trigger] p[i] == colour[i % 3],
    ensures
        is_solid(p, 3),
        p.take(3) == colour,
{
    assert(p.len() % 3 == 0);
    assert forall|i: int| 0 <= i < p.len() implies #[trigger] p[i] == p[i % 3] by {
        assert(p[i] == colour[i % 3]);
        assert(p[i % 3] == colour[i % 3 % 3]);
    }
    assert(p.take(3) =~= colour) by {
        assert(p[0] == colour[0] && p[1] == colour[1] && p[2] == colour[2]);
    }
    assert(3int as nat == 3nat);
}

/// Every rectangle starts with the twelve bytes of its header.
pub proof fn lemma_starts_with_header(fb: TileFramebuffer, rect: Rect, f: PixelFormat)
    ensures
        raw_rect(fb, rect, f).len() >= 12,
        raw_rect(fb, rect, f).take(12) == message::header_bytes(
            UpdateRectHeader { rect, encoding: 0 },
        ),
        tight_rect(fb, rect, f).len() >= 12,
        tight_rect(fb, rect, f).take(12) == message::header_bytes(
            UpdateRectHeader { rect, encoding: 7 },
        ),
        zrle_rect(fb, rect, f).len() >= 12,
        zrle_rect(fb, rect, f).take(12) == message::header_bytes(
            UpdateRectHeader { rect, encoding: 16 },
        ),
{
    let raw = header(rect, ENCODING_RAW);
    let tight = header(rect, ENCODING_TIGHT);
    let zrle = header(rect, ENCODING_ZRLE);
    message::law_header_round_trip(UpdateRectHeader { rect, encoding: ENCODING_RAW });
    message::law_header_round_trip(UpdateRectHeader { rect, encoding: ENCODING_TIGHT });
    message::law_header_round_trip(UpdateRectHeader { rect, encoding: ENCODING_ZRLE });
    assert(raw_rect(fb, rect, f).take(12) =~= raw);
    assert(tight_rect(fb, rect, f).take(12) =~= tight);
    assert(zrle_rect(fb, rect, f).take(12) =~= zrle);
}

/// The rectangle that ends an update, byte for byte.
pub proof fn lemma_last_rect_bytes()
    ensures
        last_rect() == seq![0u8, 0, 0, 0, 0, 0, 0, 0, 0xff, 0xff, 0xff, 0x20],
{
    assert(wire::i32_bits(-224i32) == 0xffff_ff20);
    assert(last_rect() =~= seq![0u8, 0, 0, 0, 0, 0, 0, 0, 0xff, 0xff, 0xff, 0x20]);
}

/// What a client that knows ZRLE makes of the part behind the header: the length
/// in four bytes, and as many bytes that inflate to a tile, which is a zero, for
/// raw, and then the pixels of the area.
pub proof fn law_zrle_area_decodes(fb: TileFramebuffer, rect: Rect, f: PixelFormat)
    requires
        ({
            let tile = zrle_tile(fb.area(rect, f));
            zlib::zlib_fast(tile) matches Some(z) && 0 < z.len() <= u32::MAX && zlib::inflated(z)
                == tile
        }),
    ensures
        ({
            let s = zrle_rect(fb, rect, f);
            let length = s[12] * 0x100_0000 + s[13] * 0x1_0000 + s[14] * 0x100 + s[15];
            &&& s.len() == 16 + length
            &&& zlib::inflated(s.skip(16))[0] == 0
            &&& zlib::inflated(s.skip(16)).skip(1) == fb.area(rect, f)
        }),
{
    let tile = zrle_tile(fb.area(rect, f));
    let z = zlib::zlib_fast(tile)->0;
    let s = zrle_rect(fb, rect, f);
    let head = header(rect, ENCODING_ZRLE);
    let n = wire::be32(z.len() as u32);
    message::law_header_round_trip(UpdateRectHeader { rect, encoding: ENCODING_ZRLE });
    wire::law_be32_digits(z.len() as u32, 0, 0, 0, 0);
    assert(s[12] == n[0] && s[13] == n[1] && s[14] == n[2] && s[15] == n[3]);
    assert(s.skip(16) =~= z);
    assert(tile.skip(1) =~= fb.area(rect, f));
}

/// The bit of a cursor's mask for the pixel in column `x` of row `y`: the mask
/// has whole bytes to the row, the leftmost pixel in the highest bit, and the bit
/// is set exactly where the pixel is there and its alpha is over 128.
pub proof fn law_cursor_mask_bit(rgba: Seq<u8>, width: u16, height: u16, x: int, y: int)
    requires
        0 <= x < width,
        0 <= y < height,
    ensures
        ({
            let m = cursor_mask(rgba, width, height);
            let at = y * ((width + 7) / 8) + x / 8;
            let p = (y * width + x) * 4;
            let weight = mask_weight(x % 8);
            &&& m.len() == (width + 7) / 8 * height
            &&& 0 <= at < m.len()
            &&& (m[at] as int / weight % 2 == 1) == (p + 3 < rgba.len() && rgba[p + 3] > 128)
        }),
{
    let stride = mask_stride(width);
    let at = y * stride + x / 8;
    grid::lemma_cell(at, stride, y, x / 8);
    grid::lemma_row_end(stride, y, height as int, x / 8 + 1);
    assert(stride * height == height * stride) by (nonlinear_arith);
    let c = x / 8 * 8;
    assert(cursor_mask(rgba, width, height)[at] == mask_byte(rgba, width as int, y, c));
    lemma_mask_byte_bit(rgba, width as int, y, c, x % 8);
    assert(x == c + x % 8);
}

proof fn lemma_mask_byte_bit(rgba: Seq<u8>, w: int, y: int, c: int, i: int)
    requires
        0 <= i < 8,
        c + i < w,
    ensures
        mask_byte(rgba, w, y, c) as int / mask_weight(i) % 2 == mask_bit(rgba, w, y, c + i, 1),
{
    let b7 = mask_bit(rgba, w, y, c, 1);
    let b6 = mask_bit(rgba, w, y, c + 1, 1);
    let b5 = mask_bit(rgba, w, y, c + 2, 1);
    let b4 = mask_bit(rgba, w, y, c + 3, 1);
    let b3 = mask_bit(rgba, w, y, c + 4, 1);
    let b2 = mask_bit(rgba, w, y, c + 5, 1);
    let b1 = mask_bit(rgba, w, y, c + 6, 1);
    let b0 = mask_bit(rgba, w, y, c + 7, 1);
    let n = 128 * b7 + 64 * b6 + 32 * b5 + 16 * b4 + 8 * b3 + 4 * b2 + 2 * b1 + b0;
    assert(mask_byte(rgba, w, y, c) == n);
    lemma_bit_at(n, b7, 0, 64 * b6 + 32 * b5 + 16 * b4 + 8 * b3 + 4 * b2 + 2 * b1 + b0, 128);
    lemma_bit_at(n, b6, b7, 32 * b5 + 16 * b4 + 8 * b3 + 4 * b2 + 2 * b1 + b0, 64);
    lemma_bit_at(n, b5, 2 * b7 + b6, 16 * b4 + 8 * b3 + 4 * b2 + 2 * b1 + b0, 32);
    lemma_bit_at(n, b4, 4 * b7 + 2 * b6 + b5, 8 * b3 + 4 * b2 + 2 * b1 + b0, 16);
    lemma_bit_at(n, b3, 8 * b7 + 4 * b6 + 2 * b5 + b4, 4 * b2 + 2 * b1 + b0, 8);
    lemma_bit_at(n, b2, 16 * b7 + 8 * b6 + 4 * b5 + 2 * b4 + b3, 2 * b1 + b0, 4);
    lemma_bit_at(n, b1, 32 * b7 + 16 * b6 + 8 * b5 + 4 * b4 + 2 * b3 + b2, b0, 2);
    lemma_bit_at(n, b0, 64 * b7 + 32 * b6 + 16 * b5 + 8 * b4 + 4 * b3 + 2 * b2 + b1, 0, 1);
    assert(i == 0 || i == 1 || i == 2 || i == 3 || i == 4 || i == 5 || i == 6 || i == 7);
}

/// The bit of a number between a higher and a lower part.
proof fn lemma_bit_at(n: int, bit: int, high: int, low: int, weight: int)
    requires
        0 <= bit <= 1,
        0 <= low < weight,
        n == high * (2 * weight) + bit * weight + low,
    ensures
        n / weight % 2 == bit,
{
    assert(n == (2 * high + bit) * weight + low) by (nonlinear_arith)
        requires
            n == high * (2 * weight) + bit * weight + low,
    ;
    vstd::arithmetic::div_mod::lemma_fundamental_div_mod_converse(
        n,
        weight,
        2 * high + bit,
        low,
    );
}

/// The value of the bit for the pixel `i` places from the left.
pub open spec fn mask_weight(i: int) -> int {
    if i == 0 {
        128
    } else if i == 1 {
        64
    } else if i == 2 {
        32
    } else if i == 3 {
        16
    } else if i == 4 {
        8
    } else if i == 5 {
        4
    } else if i == 6 {
        2
    } else {
        1
    }
}

/// The colours of a cursor in formats of three or four bytes: the red, green,
/// blue and, of four, alpha bytes of each of its pixels, in the order of the
/// pixels.
pub proof fn law_cursor_colours(rgba: Seq<u8>, pixels: nat, bpp: nat, p: int, i: int)
    requires
        bpp == 3 || bpp == 4,
        0 <= p < pixels,
        p * 4 + 3 < rgba.len(),
        0 <= i < bpp,
    ensures
        cursor_colours(rgba, pixels, bpp).len() == pixels * bpp,
        cursor_colours(rgba, pixels, bpp)[p * bpp + i] == rgba[p * 4 + i],
{
    let b = bpp as int;
    grid::lemma_cell(p * b + i, b, p, i);
    grid::lemma_row_end(b, p, pixels as int, i + 1);
}

/// The forms of the other rectangles. Encoding 1 says where to copy from, left
/// before top; -223 says the size of the desktop in its header; -307 says its name
/// behind the length; -239 says the cursor's hot spot and size in its header and has
/// the colours before the mask.
pub proof fn law_other_rectangles(
    rect: Rect,
    src_x: u16,
    src_y: u16,
    name: Seq<u8>,
    rgba: Seq<u8>,
    bpp: nat,
)
    requires
        name.len() <= u32::MAX,
    ensures
        ({
            let s = copy_rect(rect, src_x, src_y);
            &&& s.len() == 16
            &&& s.take(12) == message::header_bytes(UpdateRectHeader { rect, encoding: 1 })
            &&& s[12] * 256 + s[13] == src_x
            &&& s[14] * 256 + s[15] == src_y
        }),
        desktop_size(rect.width, rect.height) == message::header_bytes(
            UpdateRectHeader {
                rect: Rect { x: 0, y: 0, width: rect.width, height: rect.height },
                encoding: -223i32,
            },
        ),
        ({
            let s = desktop_name(name);
            &&& s.take(12) == message::header_bytes(
                UpdateRectHeader {
                    rect: Rect { x: 0, y: 0, width: 0, height: 0 },
                    encoding: -307i32,
                },
            )
            &&& s[12] * 0x100_0000 + s[13] * 0x1_0000 + s[14] * 0x100 + s[15] == name.len()
            &&& s.skip(16) == name
        }),
        ({
            let s = cursor_rect(rect, rgba, bpp);
            let colours = cursor_colours(rgba, (rect.width * rect.height) as nat, bpp);
            &&& s.take(12) == message::header_bytes(UpdateRectHeader { rect, encoding: -239i32 })
            &&& s.skip(12) == colours + cursor_mask(rgba, rect.width, rect.height)
        }),
{
    let none = Rect { x: 0, y: 0, width: 0, height: 0 };
    message::law_header_round_trip(UpdateRectHeader { rect, encoding: 1 });
    message::law_header_round_trip(UpdateRectHeader { rect: none, encoding: -307i32 });
    message::law_header_round_trip(UpdateRectHeader { rect, encoding: -239i32 });
    let s = copy_rect(rect, src_x, src_y);
    wire::law_be16_digits(src_x, 0, 0);
    wire::law_be16_digits(src_y, 0, 0);
    assert(s.take(12) =~= header(rect, 1));
    assert(s[12] == wire::be16(src_x)[0] && s[13] == wire::be16(src_x)[1]);
    assert(s[14] == wire::be16(src_y)[0] && s[15] == wire::be16(src_y)[1]);
    let t = desktop_name(name);
    wire::law_be32_digits(name.len() as u32, 0, 0, 0, 0);
    let n = wire::be32(name.len() as u32);
    assert(t.take(12) =~= header(none, -307i32));
    assert(t[12] == n[0] && t[13] == n[1] && t[14] == n[2] && t[15] == n[3]);
    assert(t.skip(16) =~= name);
    let u = cursor_rect(rect, rgba, bpp);
    assert(u.take(12) =~= header(rect, -239i32));
    assert(u.skip(12) =~= cursor_colours(rgba, (rect.width * rect.height) as nat, bpp)
        + cursor_mask(rgba, rect.width, rect.height));
}

/// A raw rectangle holds the pixels of the area, behind the header, and nothing
/// else.
pub proof fn law_raw_area_is_the_area(fb: TileFramebuffer, rect: Rect, f: PixelFormat)
    ensures
        raw_rect(fb, rect, f).take(12) == message::header_bytes(
            UpdateRectHeader { rect, encoding: 0 },
        ),
        raw_rect(fb, rect, f).skip(12) == fb.area(rect, f),
{
    law_raw_rect_size(fb, rect, f);
}

} // verus!
