//! Pixel formats of RFB 3.8 and the conversion of one BGRA pixel.

use crate::wire;
use crate::wire::{u16_of_be, u16_to_be};
use vstd::prelude::*;

verus! {

/// Standard RFB 3.8 pixel format.
#[derive(Debug, Clone, Copy, PartialEq, Eq, Structural)]
pub struct PixelFormat {
    pub bits_per_pixel: u8,
    pub depth: u8,
    pub big_endian_flag: u8,
    pub true_colour_flag: u8,
    pub red_max: u16,
    pub green_max: u16,
    pub blue_max: u16,
    pub red_shift: u8,
    pub green_shift: u8,
    pub blue_shift: u8,
}

/// A true-colour little-endian format with 8 bits per channel.
pub open spec fn eight_bit_channels(bits: u8, red_shift: u8, blue_shift: u8) -> PixelFormat {
    PixelFormat {
        bits_per_pixel: bits,
        depth: 24,
        big_endian_flag: 0,
        true_colour_flag: 1,
        red_max: 255,
        green_max: 255,
        blue_max: 255,
        red_shift,
        green_shift: 8,
        blue_shift,
    }
}

/// The sixteen bytes of a format in SetPixelFormat and ServerInit; the last
/// three are padding.
pub open spec fn format_bytes(f: PixelFormat) -> Seq<u8> {
    seq![f.bits_per_pixel, f.depth, f.big_endian_flag, f.true_colour_flag] + wire::be16(f.red_max)
        + wire::be16(f.green_max) + wire::be16(f.blue_max) + seq![
        f.red_shift,
        f.green_shift,
        f.blue_shift,
        0u8,
        0u8,
        0u8,
    ]
}

/// The format that sixteen bytes describe; padding is not looked at.
pub open spec fn format_of(s: Seq<u8>) -> PixelFormat {
    PixelFormat {
        bits_per_pixel: s[0],
        depth: s[1],
        big_endian_flag: s[2],
        true_colour_flag: s[3],
        red_max: wire::from_be16(s[4], s[5]),
        green_max: wire::from_be16(s[6], s[7]),
        blue_max: wire::from_be16(s[8], s[9]),
        red_shift: s[10],
        green_shift: s[11],
        blue_shift: s[12],
    }
}

impl PixelFormat {
    /// Whole bytes that one pixel occupies.
    pub open spec fn bytes_per_pixel(self) -> nat {
        (self.bits_per_pixel / 8) as nat
    }

    /// 32 bits, blue in the lowest byte.
    pub open spec fn is_bgra(self) -> bool {
        self.bits_per_pixel == 32 && self.red_shift == 16 && self.blue_shift == 0
    }

    /// 32 bits, red in the lowest byte.
    pub open spec fn is_rgba(self) -> bool {
        self.bits_per_pixel == 32 && self.red_shift == 0 && self.blue_shift == 16
    }

    /// 24 bits, red first.
    pub open spec fn is_rgb24(self) -> bool {
        self.bits_per_pixel == 24 && self.red_shift == 0 && self.blue_shift == 16
    }

    /// 24 bits, blue first.
    pub open spec fn is_bgr24(self) -> bool {
        self.bits_per_pixel == 24 && self.red_shift == 16 && self.blue_shift == 0
    }

    /// Standard 32-bit format with red in the lowest byte.
    pub fn rgba32() -> (r: Self)
        ensures
            r == eight_bit_channels(32, 0, 16),
    {
        PixelFormat {
            bits_per_pixel: 32,
            depth: 24,
            big_endian_flag: 0,
            true_colour_flag: 1,
            red_max: 255,
            green_max: 255,
            blue_max: 255,
            red_shift: 0,
            green_shift: 8,
            blue_shift: 16,
        }
    }

    /// Standard 32-bit format with blue in the lowest byte, the layout of the
    /// framebuffer itself.
    pub fn bgra32() -> (r: Self)
        ensures
            r == eight_bit_channels(32, 16, 0),
    {
        PixelFormat {
            bits_per_pixel: 32,
            depth: 24,
            big_endian_flag: 0,
            true_colour_flag: 1,
            red_max: 255,
            green_max: 255,
            blue_max: 255,
            red_shift: 16,
            green_shift: 8,
            blue_shift: 0,
        }
    }

    /// Three bytes per pixel: red, green, blue.
    pub fn rgb24() -> (r: Self)
        ensures
            r == eight_bit_channels(24, 0, 16),
    {
        PixelFormat {
            bits_per_pixel: 24,
            depth: 24,
            big_endian_flag: 0,
            true_colour_flag: 1,
            red_max: 255,
            green_max: 255,
            blue_max: 255,
            red_shift: 0,
            green_shift: 8,
            blue_shift: 16,
        }
    }

    /// Three bytes per pixel: blue, green, red.
    pub fn bgr24() -> (r: Self)
        ensures
            r == eight_bit_channels(24, 16, 0),
    {
        PixelFormat {
            bits_per_pixel: 24,
            depth: 24,
            big_endian_flag: 0,
            true_colour_flag: 1,
            red_max: 255,
            green_max: 255,
            blue_max: 255,
            red_shift: 16,
            green_shift: 8,
            blue_shift: 0,
        }
    }

    /// Serializes the format for the RFB protocol.
    pub fn to_bytes(&self) -> (r: [u8; 16])
        ensures
            r@ == format_bytes(*self),
    {
        let red = u16_to_be(self.red_max);
        let green = u16_to_be(self.green_max);
        let blue = u16_to_be(self.blue_max);
        let r = [
            self.bits_per_pixel,
            self.depth,
            self.big_endian_flag,
            self.true_colour_flag,
            red[0],
            red[1],
            green[0],
            green[1],
            blue[0],
            blue[1],
            self.red_shift,
            self.green_shift,
            self.blue_shift,
            0,
            0,
            0,
        ];
        assert(r@ =~= format_bytes(*self));
        r
    }

    /// Reads a format from the sixteen bytes of the RFB protocol.
    pub fn from_bytes(buf: &[u8; 16]) -> (r: Self)
        ensures
            r == format_of(buf@),
    {
        PixelFormat {
            bits_per_pixel: buf[0],
            depth: buf[1],
            big_endian_flag: buf[2],
            true_colour_flag: buf[3],
            red_max: u16_of_be(buf[4], buf[5]),
            green_max: u16_of_be(buf[6], buf[7]),
            blue_max: u16_of_be(buf[8], buf[9]),
            red_shift: buf[10],
            green_shift: buf[11],
            blue_shift: buf[12],
        }
    }
}

/// A format read back from its own bytes is the same format.
pub proof fn law_format_round_trip(f: PixelFormat)
    ensures
        format_bytes(f).len() == 16,
        format_of(format_bytes(f)) == f,
{
    wire::law_be16_round_trip(f.red_max);
    wire::law_be16_round_trip(f.green_max);
    wire::law_be16_round_trip(f.blue_max);
    let s = format_bytes(f);
    assert(s[4] == wire::be16(f.red_max)[0] && s[5] == wire::be16(f.red_max)[1]);
    assert(s[6] == wire::be16(f.green_max)[0] && s[7] == wire::be16(f.green_max)[1]);
    assert(s[8] == wire::be16(f.blue_max)[0] && s[9] == wire::be16(f.blue_max)[1]);
}

/// One colour channel in a pixel of at most 16 bits: the 8-bit intensity
/// scaled to `max`, moved into place. Products wrap at 16 bits and the shift
/// is taken modulo 16.
pub open spec fn channel16(v: u8, max: u16, shift: u8) -> u16 {
    ((v as u16).wrapping_mul(max) / 255u16).wrapping_shl(shift as u32)
}

/// One colour channel in a wider pixel. The product always fits; the shift is
/// taken modulo 32.
pub open spec fn channel32(v: u8, max: u16, shift: u8) -> u32 {
    ((v as u32).wrapping_mul(max as u32) / 255u32).wrapping_shl(shift as u32)
}

/// The packed value of a pixel of at most 16 bits.
pub open spec fn packed16(b: u8, g: u8, r: u8, f: PixelFormat) -> u16 {
    channel16(r, f.red_max, f.red_shift) | channel16(g, f.green_max, f.green_shift) | channel16(
        b,
        f.blue_max,
        f.blue_shift,
    )
}

/// The packed value of a wider pixel.
pub open spec fn packed32(b: u8, g: u8, r: u8, f: PixelFormat) -> u32 {
    channel32(r, f.red_max, f.red_shift) | channel32(g, f.green_max, f.green_shift) | channel32(
        b,
        f.blue_max,
        f.blue_shift,
    )
}

/// The bytes that stand for a pixel in format `f`. A pixel wider than four
/// bytes only has its first four written.
pub open spec fn pixel_bytes(b: u8, g: u8, r: u8, a: u8, f: PixelFormat) -> Seq<u8> {
    let bpp = f.bytes_per_pixel();
    if f.is_bgra() {
        seq![b, g, r, a]
    } else if f.is_rgba() {
        seq![r, g, b, a]
    } else if f.is_rgb24() {
        seq![r, g, b]
    } else if f.is_bgr24() {
        seq![b, g, r]
    } else if bpp == 2 {
        let v = packed16(b, g, r, f);
        let hi = (v / 256) as u8;
        let lo = (v % 256) as u8;
        if f.big_endian_flag != 0 {
            seq![hi, lo]
        } else {
            seq![lo, hi]
        }
    } else if bpp == 1 {
        seq![(packed16(b, g, r, f) % 256) as u8]
    } else {
        let v = packed32(b, g, r, f);
        let b0 = (v % 256) as u8;
        let b1 = (v / 0x100 % 256) as u8;
        let b2 = (v / 0x1_0000 % 256) as u8;
        let b3 = (v / 0x100_0000) as u8;
        if bpp == 4 && f.big_endian_flag != 0 {
            seq![b3, b2, b1, b0]
        } else if bpp == 3 {
            seq![b0, b1, b2]
        } else {
            seq![b0, b1, b2, b3]
        }
    }
}

fn scale16(v: u8, max: u16, shift: u8) -> (r: u16)
    ensures
        r == channel16(v, max, shift),
{
    ((v as u16).wrapping_mul(max) / 255).wrapping_shl(shift as u32)
}

fn scale32(v: u8, max: u16, shift: u8) -> (r: u32)
    ensures
        r == channel32(v, max, shift),
{
    ((v as u32).wrapping_mul(max as u32) / 255).wrapping_shl(shift as u32)
}

/// Converts one BGRA pixel. The leading bytes of the result, as many as
/// `pixel_bytes` has, are the pixel; the rest is zero.
pub fn convert_pixel(b: u8, g: u8, r: u8, a: u8, f: &PixelFormat) -> (out: [u8; 4])
    ensures
        pixel_bytes(b, g, r, a, *f).len() <= 4,
        f.bytes_per_pixel() <= 4 && f.bytes_per_pixel() > 0 ==> pixel_bytes(b, g, r, a, *f).len()
            == f.bytes_per_pixel(),
        f.bytes_per_pixel() > 4 ==> pixel_bytes(b, g, r, a, *f).len() == 4,
        out@.take(pixel_bytes(b, g, r, a, *f).len() as int) == pixel_bytes(b, g, r, a, *f),
        forall|i: int| pixel_bytes(b, g, r, a, *f).len() <= i < 4 ==> out@[i] == 0,
{
    let bpp: u8 = f.bits_per_pixel / 8;
    let out: [u8; 4] = if f.bits_per_pixel == 32 && f.red_shift == 16 && f.blue_shift == 0 {
        [b, g, r, a]
    } else if f.bits_per_pixel == 32 && f.red_shift == 0 && f.blue_shift == 16 {
        [r, g, b, a]
    } else if f.bits_per_pixel == 24 && f.red_shift == 0 && f.blue_shift == 16 {
        [r, g, b, 0]
    } else if f.bits_per_pixel == 24 && f.red_shift == 16 && f.blue_shift == 0 {
        [b, g, r, 0]
    } else if bpp == 2 {
        let v: u16 = scale16(r, f.red_max, f.red_shift) | scale16(g, f.green_max, f.green_shift)
            | scale16(b, f.blue_max, f.blue_shift);
        let hi: u8 = (v / 256) as u8;
        let lo: u8 = (v % 256) as u8;
        if f.big_endian_flag != 0 {
            [hi, lo, 0, 0]
        } else {
            [lo, hi, 0, 0]
        }
    } else if bpp == 1 {
        let v: u16 = scale16(r, f.red_max, f.red_shift) | scale16(g, f.green_max, f.green_shift)
            | scale16(b, f.blue_max, f.blue_shift);
        [(v % 256) as u8, 0, 0, 0]
    } else {
        let v: u32 = scale32(r, f.red_max, f.red_shift) | scale32(g, f.green_max, f.green_shift)
            | scale32(b, f.blue_max, f.blue_shift);
        let b0: u8 = (v % 256) as u8;
        let b1: u8 = (v / 0x100 % 256) as u8;
        let b2: u8 = (v / 0x1_0000 % 256) as u8;
        let b3: u8 = (v / 0x100_0000) as u8;
        if bpp == 4 && f.big_endian_flag != 0 {
            [b3, b2, b1, b0]
        } else if bpp == 3 {
            [b0, b1, b2, 0]
        } else {
            [b0, b1, b2, b3]
        }
    };
    assert(out@.take(pixel_bytes(b, g, r, a, *f).len() as int) =~= pixel_bytes(b, g, r, a, *f));
    out
}

/// The number that bytes stand for, the first byte being the most significant
/// one or the least significant one.
pub open spec fn number_of(bytes: Seq<u8>, big_endian: bool) -> nat
    decreases bytes.len(),
{
    if bytes.len() == 0 {
        0
    } else if big_endian {
        number_of(bytes.drop_last(), big_endian) * 256 + bytes.last() as nat
    } else {
        bytes[0] as nat + 256 * number_of(bytes.skip(1), big_endian)
    }
}

/// The bits of a pixel that a channel takes up.
pub open spec fn channel_bits(max: u16, shift: u8) -> u64 {
    (max as u64) << (shift as u64)
}

/// Whether a channel's largest value has all its bits set, and lies in the
/// lowest `bits` bits when it is moved into place.
pub open spec fn channel_in(max: u16, shift: u8, bits: u8) -> bool {
    &&& (max as u64) & ((max as u64 + 1) as u64) == 0
    &&& shift < bits
    &&& channel_bits(max, shift) < 1u64 << (bits as u64)
}

/// Bits of a pixel that are used: those of its whole bytes, but no more than 32.
pub open spec fn used_bits(f: PixelFormat) -> u8 {
    if f.bits_per_pixel < 8 {
        0
    } else if f.bits_per_pixel < 16 {
        8
    } else if f.bits_per_pixel < 24 {
        16
    } else if f.bits_per_pixel < 32 {
        24
    } else {
        32
    }
}

/// Whether the channels of a format have places of their own in the bits used.
pub open spec fn channels_apart(f: PixelFormat) -> bool {
    &&& 8 <= f.bits_per_pixel
    &&& channel_in(f.red_max, f.red_shift, used_bits(f))
    &&& channel_in(f.green_max, f.green_shift, used_bits(f))
    &&& channel_in(f.blue_max, f.blue_shift, used_bits(f))
    &&& channel_bits(f.red_max, f.red_shift) & channel_bits(f.green_max, f.green_shift) == 0
    &&& channel_bits(f.red_max, f.red_shift) & channel_bits(f.blue_max, f.blue_shift) == 0
    &&& channel_bits(f.green_max, f.green_shift) & channel_bits(f.blue_max, f.blue_shift) == 0
}

/// What is read from the place of a channel in a pixel's number.
pub open spec fn channel_value(number: nat, max: u16, shift: u8) -> u64 {
    ((number as u64) >> (shift as u64)) & (max as u64)
}

/// A value moved into place stays within the bits of its channel, and comes
/// back when they are read.
proof fn lemma_in_place(v: u64, m: u64, s: u64)
    requires
        v <= m <= 0xffff,
        m & ((m + 1) as u64) == 0,
        s < 32,
    ensures
        (v << s) & (m << s) == v << s,
        forall|x: u64| (#[trigger] (x & (m << s))) == v << s ==> (x >> s) & m == v,
{
    assert(v & m == v) by (bit_vector)
        requires
            v <= m <= 0xffff,
            m & ((m + 1) as u64) == 0,
    ;
    assert((v << s) & (m << s) == (v & m) << s) by (bit_vector);
    assert forall|x: u64| (#[trigger] (x & (m << s))) == v << s implies (x >> s) & m == v by {
        assert((x & (m << s)) >> s == (x >> s) & m) by (bit_vector)
            requires
                m <= 0xffff,
                s < 32,
        ;
        assert((v << s) >> s == v) by (bit_vector)
            requires
                v <= 0xffff,
                s < 32,
        ;
    }
}

/// Three values in places of their own can be read separately.
proof fn lemma_unpack(
    a: u64,
    b: u64,
    c: u64,
    ma: u64,
    mb: u64,
    mc: u64,
    sa: u64,
    sb: u64,
    sc: u64,
)
    requires
        a <= ma <= 0xffff,
        b <= mb <= 0xffff,
        c <= mc <= 0xffff,
        ma & ((ma + 1) as u64) == 0,
        mb & ((mb + 1) as u64) == 0,
        mc & ((mc + 1) as u64) == 0,
        sa < 32,
        sb < 32,
        sc < 32,
        (ma << sa) & (mb << sb) == 0,
        (ma << sa) & (mc << sc) == 0,
        (mb << sb) & (mc << sc) == 0,
    ensures
        (((a << sa) | (b << sb) | (c << sc)) >> sa) & ma == a,
        (((a << sa) | (b << sb) | (c << sc)) >> sb) & mb == b,
        (((a << sa) | (b << sb) | (c << sc)) >> sc) & mc == c,
        (a << sa) | (b << sb) | (c << sc) <= (ma << sa) | (mb << sb) | (mc << sc),
{
    lemma_in_place(a, ma, sa);
    lemma_in_place(b, mb, sb);
    lemma_in_place(c, mc, sc);
    let (x, y, z) = (a << sa, b << sb, c << sc);
    let (l, m, n) = (ma << sa, mb << sb, mc << sc);
    assert((x | y | z) & l == x && (x | y | z) & m == y && (x | y | z) & n == z && x | y | z <= l
        | m | n) by (bit_vector)
        requires
            x & l == x,
            y & m == y,
            z & n == z,
            l & m == 0,
            l & n == 0,
            m & n == 0,
    ;
}

/// What a channel of intensity `v` holds, scaled to `max`.
pub open spec fn scaled(v: u8, max: u16) -> u64 {
    (v * max / 255) as u64
}

proof fn lemma_scaled(v: u8, max: u16)
    ensures
        0 <= v * max / 255 <= max,
        v * max <= 255 * 65535,
{
    let x = v as int;
    let m = max as int;
    assert(0 <= x * m <= 255 * m) by (nonlinear_arith)
        requires
            0 <= x <= 255,
            0 <= m,
    ;
}

proof fn lemma_channel16(v: u8, max: u16, shift: u8, bits: u8)
    requires
        bits <= 16,
        max <= 255,
        channel_in(max, shift, bits),
    ensures
        channel16(v, max, shift) as u64 == scaled(v, max) << (shift as u64),
        scaled(v, max) <= max,
{
    lemma_scaled(v, max);
    let q = ((v as u16).wrapping_mul(max) / 255u16) as u16;
    assert(v * max <= 255 * 255) by (nonlinear_arith)
        requires
            v <= 255,
            max <= 255,
    ;
    assert(q == v * max / 255);
    let s = (shift as u32) % 16u32;
    let m = max as u64;
    let t = shift as u64;
    let n = bits as u64;
    assert((q << s) as u64 == (q as u64) << t) by (bit_vector)
        requires
            s == t,
            t < n <= 16,
            q <= m <= 255,
            m << t < 1u64 << n,
    ;
}

proof fn lemma_channel32(v: u8, max: u16, shift: u8, bits: u8)
    requires
        bits <= 32,
        channel_in(max, shift, bits),
    ensures
        channel32(v, max, shift) as u64 == scaled(v, max) << (shift as u64),
        scaled(v, max) <= max,
{
    lemma_scaled(v, max);
    let q = ((v as u32).wrapping_mul(max as u32) / 255u32) as u32;
    assert(q == v * max / 255);
    let s = (shift as u32) % 32u32;
    let m = max as u64;
    let t = shift as u64;
    let n = bits as u64;
    assert((q << s) as u64 == (q as u64) << t) by (bit_vector)
        requires
            s == t,
            t < n <= 32,
            q <= m <= 0xffff,
            m << t < 1u64 << n,
    ;
}

/// Whether `convert_pixel` keeps to all that a format says. It takes no account
/// of the byte order of pixels of three bytes or more than four; it takes formats of 24 and 32
/// bits with red and blue at 0 and 16, or 16 and 0, to be little-endian with
/// green at 8 and eight bits to the channel; and in pixels of one or two bytes
/// a channel has to have at most eight bits.
pub open spec fn honoured(f: PixelFormat) -> bool {
    &&& f.bits_per_pixel < 24 ==> f.red_max <= 255 && f.green_max <= 255 && f.blue_max <= 255
    &&& 24 <= f.bits_per_pixel < 32 || 40 <= f.bits_per_pixel ==> f.big_endian_flag == 0
    &&& ((f.bits_per_pixel == 24 || f.bits_per_pixel == 32) && ((f.red_shift == 16 && f.blue_shift
        == 0) || (f.red_shift == 0 && f.blue_shift == 16))) ==> f.big_endian_flag == 0
        && f.green_shift == 8 && f.red_max == 255 && f.green_max == 255 && f.blue_max == 255
}

/// Whether the place of each channel in a pixel's number holds that channel's
/// intensity, scaled to the channel's largest value.
pub open spec fn holds_channels(number: nat, b: u8, g: u8, r: u8, f: PixelFormat) -> bool {
    &&& channel_value(number, f.red_max, f.red_shift) == r * f.red_max / 255
    &&& channel_value(number, f.green_max, f.green_shift) == g * f.green_max / 255
    &&& channel_value(number, f.blue_max, f.blue_shift) == b * f.blue_max / 255
}

/// Decoding a pixel by its format gives its channels: in the number that its
/// bytes stand for, the place of each channel holds that channel's intensity,
/// scaled to the channel's largest value.
pub proof fn law_pixel_decodes(b: u8, g: u8, r: u8, a: u8, f: PixelFormat)
    requires
        channels_apart(f),
        honoured(f),
    ensures
        pixel_bytes(b, g, r, a, f).len() * 8 == used_bits(f),
        holds_channels(
            number_of(pixel_bytes(b, g, r, a, f), f.big_endian_flag != 0),
            b,
            g,
            r,
            f,
        ),
{
    let bytes = pixel_bytes(b, g, r, a, f);
    if f.is_bgra() || f.is_rgba() || f.is_rgb24() || f.is_bgr24() {
        lemma_eight_bit_channels(b, g, r, a, f, bytes);
        assert(f.red_max == 255 && f.green_max == 255 && f.blue_max == 255 && f.green_shift == 8);
        assert(r * 255 / 255 == r && g * 255 / 255 == g && b * 255 / 255 == b);
    } else if f.bits_per_pixel < 24 {
        lemma_packed16_holds(b, g, r, f);
        lemma_packed16_bytes(packed16(b, g, r, f));
    } else {
        lemma_packed32_holds(b, g, r, f);
        lemma_packed32_bytes(packed32(b, g, r, f));
    }
}

proof fn lemma_packed16_bytes(v: u16)
    ensures
        number_of(seq![(v / 256) as u8, (v % 256) as u8], true) == v,
        number_of(seq![(v % 256) as u8, (v / 256) as u8], false) == v,
        v < 256 ==> number_of(seq![(v % 256) as u8], true) == v && number_of(
            seq![(v % 256) as u8],
            false,
        ) == v,
{
    reveal_with_fuel(number_of, 3);
    let big = seq![(v / 256) as u8, (v % 256) as u8];
    let little = seq![(v % 256) as u8, (v / 256) as u8];
    assert(big.drop_last() =~= seq![(v / 256) as u8]);
    assert(little.skip(1) =~= seq![(v / 256) as u8]);
}

proof fn lemma_packed32_bytes(v: u32)
    ensures
        ({
            let b0 = (v % 256) as u8;
            let b1 = (v / 0x100 % 256) as u8;
            let b2 = (v / 0x1_0000 % 256) as u8;
            let b3 = (v / 0x100_0000) as u8;
            &&& number_of(seq![b3, b2, b1, b0], true) == v
            &&& number_of(seq![b0, b1, b2, b3], false) == v
            &&& v < 0x100_0000 ==> number_of(seq![b0, b1, b2], false) == v
        }),
{
    reveal_with_fuel(number_of, 5);
    let b0 = (v % 256) as u8;
    let b1 = (v / 0x100 % 256) as u8;
    let b2 = (v / 0x1_0000 % 256) as u8;
    let b3 = (v / 0x100_0000) as u8;
    assert(v == b0 + b1 * 0x100 + b2 * 0x1_0000 + b3 * 0x100_0000);
    let big = seq![b3, b2, b1, b0];
    assert(big.drop_last() =~= seq![b3, b2, b1]);
    assert(seq![b3, b2, b1].drop_last() =~= seq![b3, b2]);
    assert(seq![b3, b2].drop_last() =~= seq![b3]);
    let little = seq![b0, b1, b2, b3];
    assert(little.skip(1) =~= seq![b1, b2, b3]);
    assert(seq![b1, b2, b3].skip(1) =~= seq![b2, b3]);
    assert(seq![b2, b3].skip(1) =~= seq![b3]);
    let three = seq![b0, b1, b2];
    assert(three.skip(1) =~= seq![b1, b2]);
    assert(seq![b1, b2].skip(1) =~= seq![b2]);
}

/// The three channels side by side.
spec fn side_by_side(b: u8, g: u8, r: u8, f: PixelFormat) -> u64 {
    (scaled(r, f.red_max) << (f.red_shift as u64)) | (scaled(g, f.green_max) << (
    f.green_shift as u64)) | (scaled(b, f.blue_max) << (f.blue_shift as u64))
}

proof fn lemma_side_by_side(b: u8, g: u8, r: u8, f: PixelFormat)
    requires
        channels_apart(f),
    ensures
        holds_channels(side_by_side(b, g, r, f) as nat, b, g, r, f),
        used_bits(f) == 8 ==> side_by_side(b, g, r, f) < 0x100,
        used_bits(f) == 16 ==> side_by_side(b, g, r, f) < 0x1_0000,
        used_bits(f) == 24 ==> side_by_side(b, g, r, f) < 0x100_0000,
        side_by_side(b, g, r, f) < 0x1_0000_0000,
{
    lemma_scaled(r, f.red_max);
    lemma_scaled(g, f.green_max);
    lemma_scaled(b, f.blue_max);
    lemma_unpack(
        scaled(r, f.red_max),
        scaled(g, f.green_max),
        scaled(b, f.blue_max),
        f.red_max as u64,
        f.green_max as u64,
        f.blue_max as u64,
        f.red_shift as u64,
        f.green_shift as u64,
        f.blue_shift as u64,
    );
    lemma_union_fits(
        channel_bits(f.red_max, f.red_shift),
        channel_bits(f.green_max, f.green_shift),
        channel_bits(f.blue_max, f.blue_shift),
        used_bits(f) as u64,
    );
}

proof fn lemma_packed16_holds(b: u8, g: u8, r: u8, f: PixelFormat)
    requires
        channels_apart(f),
        honoured(f),
        f.bits_per_pixel < 24,
    ensures
        holds_channels(packed16(b, g, r, f) as nat, b, g, r, f),
        used_bits(f) == 8 ==> packed16(b, g, r, f) < 256,
{
    lemma_side_by_side(b, g, r, f);
    lemma_channel16(r, f.red_max, f.red_shift, used_bits(f));
    lemma_channel16(g, f.green_max, f.green_shift, used_bits(f));
    lemma_channel16(b, f.blue_max, f.blue_shift, used_bits(f));
    assert(packed16(b, g, r, f) as u64 == side_by_side(b, g, r, f));
}

proof fn lemma_packed32_holds(b: u8, g: u8, r: u8, f: PixelFormat)
    requires
        channels_apart(f),
    ensures
        holds_channels(packed32(b, g, r, f) as nat, b, g, r, f),
        used_bits(f) == 24 ==> packed32(b, g, r, f) < 0x100_0000,
{
    lemma_side_by_side(b, g, r, f);
    lemma_channel32(r, f.red_max, f.red_shift, used_bits(f));
    lemma_channel32(g, f.green_max, f.green_shift, used_bits(f));
    lemma_channel32(b, f.blue_max, f.blue_shift, used_bits(f));
    assert(packed32(b, g, r, f) as u64 == side_by_side(b, g, r, f));
}

proof fn lemma_union_fits(x: u64, y: u64, z: u64, bits: u64)
    requires
        bits == 8 || bits == 16 || bits == 24 || bits == 32,
        x < 1u64 << bits,
        y < 1u64 << bits,
        z < 1u64 << bits,
    ensures
        x | y | z < 1u64 << bits,
        1u64 << 8u64 == 0x100,
        1u64 << 16u64 == 0x1_0000,
        1u64 << 24u64 == 0x100_0000,
        1u64 << 32u64 == 0x1_0000_0000,
{
    assert(x | y | z < 1u64 << bits) by (bit_vector)
        requires
            bits <= 32,
            x < 1u64 << bits,
            y < 1u64 << bits,
            z < 1u64 << bits,
    ;
    assert(1u64 << 8u64 == 0x100 && 1u64 << 16u64 == 0x1_0000 && 1u64 << 24u64 == 0x100_0000
        && 1u64 << 32u64 == 0x1_0000_0000) by (bit_vector);
}

proof fn lemma_eight_bit_channels(
    b: u8,
    g: u8,
    r: u8,
    a: u8,
    f: PixelFormat,
    bytes: Seq<u8>,
)
    requires
        channels_apart(f),
        honoured(f),
        bytes == pixel_bytes(b, g, r, a, f),
        f.is_bgra() || f.is_rgba() || f.is_rgb24() || f.is_bgr24(),
    ensures
        bytes.len() * 8 == used_bits(f),
        channel_value(number_of(bytes, false), 255, f.red_shift) == r,
        channel_value(number_of(bytes, false), 255, 8) == g,
        channel_value(number_of(bytes, false), 255, f.blue_shift) == b,
{
    reveal_with_fuel(number_of, 5);
    let (low, high) = if f.red_shift == 0 {
        (r as u64, b as u64)
    } else {
        (b as u64, r as u64)
    };
    let top = if f.bits_per_pixel == 32 {
        a as u64
    } else {
        0
    };
    let middle = g as u64;
    let n = (low + 256 * middle + 0x1_0000 * high + 0x100_0000 * top) as u64;
    assert(number_of(bytes, false) == n);
    assert((n >> 0) & 255 == low && (n >> 8) & 255 == middle && (n >> 16) & 255 == high)
        by (bit_vector)
        requires
            low <= 255,
            middle <= 255,
            high <= 255,
            top <= 255,
            n == (low + 256 * middle + 0x1_0000 * high + 0x100_0000 * top) as u64,
    ;
}

/// The bytes of a pixel in the four usual formats: with red and blue at 16 and 0
/// blue comes first, at 0 and 16 red; alpha comes last in 32 bits and is left out in
/// 24. Nothing else in the format matters then.
pub proof fn law_usual_formats(b: u8, g: u8, r: u8, a: u8, f: PixelFormat)
    ensures
        f.bits_per_pixel == 32 && f.red_shift == 16 && f.blue_shift == 0 ==> pixel_bytes(
            b,
            g,
            r,
            a,
            f,
        ) == seq![b, g, r, a],
        f.bits_per_pixel == 32 && f.red_shift == 0 && f.blue_shift == 16 ==> pixel_bytes(
            b,
            g,
            r,
            a,
            f,
        ) == seq![r, g, b, a],
        f.bits_per_pixel == 24 && f.red_shift == 0 && f.blue_shift == 16 ==> pixel_bytes(
            b,
            g,
            r,
            a,
            f,
        ) == seq![r, g, b],
        f.bits_per_pixel == 24 && f.red_shift == 16 && f.blue_shift == 0 ==> pixel_bytes(
            b,
            g,
            r,
            a,
            f,
        ) == seq![b, g, r],
{
}

/// The formats of eight bits to the channel are what they are said to be: true
/// colour of depth 24, little-endian, with green in the middle.
pub proof fn law_eight_bit_formats(bits: u8, red_shift: u8, blue_shift: u8)
    ensures
        ({
            let f = eight_bit_channels(bits, red_shift, blue_shift);
            &&& f.bits_per_pixel == bits && f.depth == 24
            &&& f.big_endian_flag == 0 && f.true_colour_flag == 1
            &&& f.red_max == 255 && f.green_max == 255 && f.blue_max == 255
            &&& f.red_shift == red_shift && f.green_shift == 8 && f.blue_shift == blue_shift
        }),
{
}

/// Where the bytes of a format stand: sixteen of them, the largest values most
/// significant byte first.
pub proof fn law_format_layout(f: PixelFormat)
    ensures
        ({
            let s = format_bytes(f);
            &&& s.len() == 16
            &&& s[0] == f.bits_per_pixel && s[1] == f.depth
            &&& s[2] == f.big_endian_flag && s[3] == f.true_colour_flag
            &&& s[4] * 256 + s[5] == f.red_max
            &&& s[6] * 256 + s[7] == f.green_max
            &&& s[8] * 256 + s[9] == f.blue_max
            &&& s[10] == f.red_shift && s[11] == f.green_shift && s[12] == f.blue_shift
            &&& s[13] == 0 && s[14] == 0 && s[15] == 0
        }),
{
    let s = format_bytes(f);
    assert(s[4] == wire::be16(f.red_max)[0] && s[5] == wire::be16(f.red_max)[1]);
    assert(s[6] == wire::be16(f.green_max)[0] && s[7] == wire::be16(f.green_max)[1]);
    assert(s[8] == wire::be16(f.blue_max)[0] && s[9] == wire::be16(f.blue_max)[1]);
}

} // verus!
