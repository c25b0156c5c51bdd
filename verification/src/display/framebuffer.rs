//! The tiled framebuffer: 32-bit BGRA pixels, with a hash and a damage flag
//! for each tile of 64 by 64 pixels.

pub use crate::display::pixel::PixelFormat;
pub use crate::display::rect::Rect;
pub use crate::display::shared::SharedFramebuffer;

use crate::display::grid;
use crate::display::hash;
use crate::display::hash::{hash_tile_data, HASH_PRIME, HASH_SEED};
use crate::display::pixel;
use vstd::prelude::*;

verus! {

/// Side of a damage tracking tile, in pixels.
pub const TILE_SIZE: usize = 64;

/// Tiles needed to cover `n` pixels.
pub open spec fn tiles_across(n: u32) -> u32 {
    ((n + 63) / 64) as u32
}

/// Whether the pixels of such a screen fit in memory's address range and its
/// tiles can be counted in 32 bits.
pub open spec fn size_supported(width: u32, height: u32) -> bool {
    &&& width * 4 <= isize::MAX
    &&& width * 4 * height <= isize::MAX
    &&& tiles_across(width) * tiles_across(height) <= u32::MAX
}

/// Framebuffer with damage tracking by tile.
pub struct TileFramebuffer {
    pub width: u32,
    pub height: u32,
    /// Bytes from one row of pixels to the next.
    pub stride: usize,
    pub format: PixelFormat,
    /// Pixels, four bytes each: blue, green, red, alpha.
    pub buffer: Vec<u8>,
    pub tiles_x: u32,
    pub tiles_y: u32,
    /// Hash that each tile had when it was last looked at, row by row.
    pub tile_hashes: Vec<u64>,
    /// Damage flag of each tile, row by row.
    pub dirty_tiles: Vec<bool>,
    /// Counts changes, wrapping around.
    pub frame_version: u64,
}

/// Left edge of tile `t` of a screen `width` pixels wide.
pub open spec fn tile_left(width: u32, t: int) -> int {
    t % (tiles_across(width) as int) * 64
}

/// Top edge of tile `t`.
pub open spec fn tile_top(width: u32, t: int) -> int {
    t / (tiles_across(width) as int) * 64
}

/// Pixels from `start` to the end of its tile or of the screen.
pub open spec fn tile_extent(start: int, end: u32) -> int {
    if end - start < 64 {
        end - start
    } else {
        64
    }
}

/// The area of tile `t`, in 16-bit screen coordinates.
pub open spec fn tile_rect(width: u32, height: u32, t: int) -> Rect {
    let left = tile_left(width, t);
    let top = tile_top(width, t);
    Rect {
        x: left as u16,
        y: top as u16,
        width: tile_extent(left, width) as u16,
        height: tile_extent(top, height) as u16,
    }
}

/// Hash of `rows` rows of `len` bytes, the first of them `offset` bytes into
/// row `top`. The number of each row enters the hash.
pub open spec fn rows_hash(
    pixels: Seq<u8>,
    stride: int,
    offset: int,
    len: nat,
    top: int,
    rows: nat,
) -> u64
    decreases rows,
{
    if rows == 0 {
        HASH_SEED
    } else {
        let row = (rows - 1) as nat;
        hash::hash_step(
            rows_hash(pixels, stride, offset, len, top, row),
            hash::hash_bytes(pixels, (top + row) * stride + offset, len).wrapping_add(
                (row * 0x1_0000_0000) as u64,
            ),
        )
    }
}

/// Hash of the pixels of tile `t`.
pub open spec fn tile_hash(pixels: Seq<u8>, width: u32, height: u32, t: int) -> u64 {
    let left = tile_left(width, t);
    let top = tile_top(width, t);
    rows_hash(
        pixels,
        width * 4,
        left * 4,
        (tile_extent(left, width) * 4) as nat,
        top,
        tile_extent(top, height) as nat,
    )
}

/// Whether tile `t` is flagged and its pixels no longer hash to what was
/// recorded.
pub open spec fn tile_changed(
    pixels: Seq<u8>,
    width: u32,
    height: u32,
    dirty: Seq<bool>,
    hashes: Seq<u64>,
    t: int,
) -> bool {
    dirty[t] && tile_hash(pixels, width, height, t) != hashes[t]
}

/// Areas of the changed ones among the first `n` tiles, in order.
pub open spec fn damage_in(
    pixels: Seq<u8>,
    width: u32,
    height: u32,
    dirty: Seq<bool>,
    hashes: Seq<u64>,
    n: nat,
) -> Seq<Rect>
    decreases n,
{
    if n == 0 {
        Seq::empty()
    } else {
        let before = damage_in(pixels, width, height, dirty, hashes, (n - 1) as nat);
        if tile_changed(pixels, width, height, dirty, hashes, n - 1) {
            before.push(tile_rect(width, height, n - 1))
        } else {
            before
        }
    }
}

/// The recorded hashes after the flagged tiles were looked at.
pub open spec fn hashes_after_look(
    pixels: Seq<u8>,
    width: u32,
    height: u32,
    dirty: Seq<bool>,
    hashes: Seq<u64>,
) -> Seq<u64> {
    Seq::new(
        hashes.len(),
        |t: int|
            if dirty[t] {
                tile_hash(pixels, width, height, t)
            } else {
                hashes[t]
            },
    )
}

/// Whether a tile whose column is `col` and row is `row` touches the pixels
/// from (`x`, `y`) that are `w` wide and `h` high.
pub open spec fn tile_touched(col: int, row: int, x: int, y: int, w: int, h: int) -> bool {
    x / 64 <= col <= (x + w - 1) / 64 && y / 64 <= row <= (y + h - 1) / 64
}

/// `dirty` with the tiles that touch the given pixels set.
pub open spec fn dirtied(dirty: Seq<bool>, tiles_x: u32, x: int, y: int, w: int, h: int) -> Seq<
    bool,
> {
    Seq::new(
        dirty.len(),
        |t: int|
            dirty[t] || tile_touched(t % (tiles_x as int), t / (tiles_x as int), x, y, w, h),
    )
}

/// `pixels` with `len` bytes from `at` on replaced by those of `src` from
/// `from` on.
pub open spec fn overlay(pixels: Seq<u8>, at: int, src: Seq<u8>, from: int, len: int) -> Seq<u8> {
    Seq::new(
        pixels.len(),
        |k: int|
            if at <= k < at + len {
                src[from + (k - at)]
            } else {
                pixels[k]
            },
    )
}

/// Pixels after an image `w` by `h` was drawn at (`x`, `y`). Row `r` of the
/// image starts `r * src_stride` bytes into `src`; rows that `src` does not
/// hold in full are left out.
pub open spec fn drawn(
    pixels: Seq<u8>,
    stride: int,
    x: int,
    y: int,
    w: int,
    h: int,
    src: Seq<u8>,
    src_stride: int,
) -> Seq<u8> {
    Seq::new(
        pixels.len(),
        |k: int|
            {
                let row = k / stride - y;
                let at = k % stride - x * 4;
                if 0 <= row < h && 0 <= at < w * 4 && row * src_stride + w * 4 <= src.len() {
                    src[row * src_stride + at]
                } else {
                    pixels[k]
                }
            },
    )
}

/// Pixels after the area `w` by `h` at (`x`, `y`) was taken over from a frame
/// of the same layout; rows that the frame does not reach are left out.
pub open spec fn refreshed(
    pixels: Seq<u8>,
    stride: int,
    x: int,
    y: int,
    w: int,
    h: int,
    frame: Seq<u8>,
) -> Seq<u8> {
    Seq::new(
        pixels.len(),
        |k: int|
            {
                let row = k / stride;
                let at = k % stride;
                if y <= row < y + h && x * 4 <= at < (x + w) * 4 && row * stride + (x + w) * 4
                    <= frame.len() {
                    frame[k]
                } else {
                    pixels[k]
                }
            },
    )
}

/// `pixels` cut off, or filled up with zeros, to `size` bytes.
pub open spec fn resized(pixels: Seq<u8>, size: nat) -> Seq<u8> {
    Seq::new(
        size,
        |k: int|
            if k < pixels.len() {
                pixels[k]
            } else {
                0u8
            },
    )
}

/// The smaller of a requested extent and what is left of the screen.
pub open spec fn clamped(want: u32, start: u32, end: u32) -> int {
    if want < end - start {
        want as int
    } else {
        end - start
    }
}

/// One more row of an image is drawn by copying that row, if there is one.
proof fn lemma_draw_row(
    pixels: Seq<u8>,
    stride: int,
    x: int,
    y: int,
    w: int,
    row: int,
    src: Seq<u8>,
    src_stride: int,
)
    requires
        0 < stride,
        0 <= x,
        0 <= w,
        0 <= row,
        (x + w) * 4 <= stride,
    ensures
        row * src_stride + w * 4 <= src.len() ==> drawn(
            pixels,
            stride,
            x,
            y,
            w,
            row + 1,
            src,
            src_stride,
        ) == overlay(
            drawn(pixels, stride, x, y, w, row, src, src_stride),
            (y + row) * stride + x * 4,
            src,
            row * src_stride,
            w * 4,
        ),
        row * src_stride + w * 4 > src.len() ==> drawn(
            pixels,
            stride,
            x,
            y,
            w,
            row + 1,
            src,
            src_stride,
        ) == drawn(pixels, stride, x, y, w, row, src, src_stride),
{
    let before = drawn(pixels, stride, x, y, w, row, src, src_stride);
    let after = drawn(pixels, stride, x, y, w, row + 1, src, src_stride);
    let at = (y + row) * stride + x * 4;
    if row * src_stride + w * 4 <= src.len() {
        let laid = overlay(before, at, src, row * src_stride, w * 4);
        assert forall|k: int| 0 <= k < pixels.len() implies after[k] == laid[k] by {
            grid::lemma_row_range(k, stride, y + row, x * 4, (x + w) * 4);
            if k / stride == y + row {
                assert((k / stride) * stride + k % stride == k) by {
                    grid::lemma_row_range(k, stride, k / stride, 0, stride);
                    vstd::arithmetic::div_mod::lemma_fundamental_div_mod(k, stride);
                    assert(stride * (k / stride) == (k / stride) * stride) by (nonlinear_arith);
                }
            }
        }
        assert(after =~= laid);
    } else {
        assert(after =~= before);
    }
}

/// One more row of an area is taken over by copying that row, if there is one.
proof fn lemma_refresh_row(
    pixels: Seq<u8>,
    stride: int,
    x: int,
    y: int,
    w: int,
    row: int,
    frame: Seq<u8>,
)
    requires
        0 < stride,
        0 <= x,
        0 <= w,
        0 <= row,
        (x + w) * 4 <= stride,
    ensures
        (y + row) * stride + (x + w) * 4 <= frame.len() ==> refreshed(
            pixels,
            stride,
            x,
            y,
            w,
            row + 1,
            frame,
        ) == overlay(
            refreshed(pixels, stride, x, y, w, row, frame),
            (y + row) * stride + x * 4,
            frame,
            (y + row) * stride + x * 4,
            w * 4,
        ),
        (y + row) * stride + (x + w) * 4 > frame.len() ==> refreshed(
            pixels,
            stride,
            x,
            y,
            w,
            row + 1,
            frame,
        ) == refreshed(pixels, stride, x, y, w, row, frame),
{
    let before = refreshed(pixels, stride, x, y, w, row, frame);
    let after = refreshed(pixels, stride, x, y, w, row + 1, frame);
    let at = (y + row) * stride + x * 4;
    if (y + row) * stride + (x + w) * 4 <= frame.len() {
        let laid = overlay(before, at, frame, at, w * 4);
        assert forall|k: int| 0 <= k < pixels.len() implies after[k] == laid[k] by {
            grid::lemma_row_range(k, stride, y + row, x * 4, (x + w) * 4);
        }
        assert(after =~= laid);
    } else {
        assert(after =~= before);
    }
}

/// Each tile is a non-empty part of the screen.
pub proof fn lemma_tile_on_screen(width: u32, height: u32, t: int)
    requires
        0 <= t < tiles_across(width) * tiles_across(height),
    ensures
        0 <= t % (tiles_across(width) as int) < tiles_across(width),
        0 <= t / (tiles_across(width) as int) < tiles_across(height),
        0 <= tile_left(width, t) < width,
        0 <= tile_top(width, t) < height,
        0 < tile_extent(tile_left(width, t), width) <= 64,
        0 < tile_extent(tile_top(width, t), height) <= 64,
        tile_left(width, t) + tile_extent(tile_left(width, t), width) <= width,
        tile_top(width, t) + tile_extent(tile_top(width, t), height) <= height,
{
    let n = tiles_across(width) as int;
    let m = tiles_across(height) as int;
    assert(0 < n) by (nonlinear_arith)
        requires
            0 <= n,
            0 <= t < n * m,
    ;
    assert(n * m == m * n) by (nonlinear_arith);
    grid::lemma_cell_in_rows(t, n, m);
}

proof fn lemma_rows_hash_local(
    a: Seq<u8>,
    b: Seq<u8>,
    stride: int,
    offset: int,
    len: nat,
    top: int,
    rows: nat,
)
    requires
        a.len() == b.len(),
        0 <= offset,
        offset + len <= stride,
        0 < stride,
        0 <= top,
        (top + rows) * stride <= a.len(),
        forall|k: int|
            0 <= k < a.len() && top <= k / stride < top + rows && offset <= k % stride < offset
                + len ==> a[k] == b[k],
    ensures
        rows_hash(a, stride, offset, len, top, rows) == rows_hash(
            b,
            stride,
            offset,
            len,
            top,
            rows,
        ),
    decreases rows,
{
    if rows > 0 {
        let row = (rows - 1) as nat;
        assert((top + row) * stride <= (top + rows) * stride && 0 <= (top + row) * stride && (top
            + row) * stride + stride == (top + rows) * stride) by (nonlinear_arith)
            requires
                0 < stride,
                0 <= top,
                row == rows - 1,
                0 <= row,
        ;
        lemma_rows_hash_local(a, b, stride, offset, len, top, row);
        let from = (top + row) * stride + offset;
        assert forall|k: int| from <= k < from + len implies a[k] == b[k] by {
            grid::lemma_row_range(k, stride, top + row, offset, offset + len);
        }
        hash::lemma_hash_bytes_local(a, b, from, len);
    }
}

/// The hash of an area sees every pixel of every row: it changes where just one
/// pixel does.
pub proof fn lemma_rows_hash_sees_pixel(
    a: Seq<u8>,
    b: Seq<u8>,
    stride: int,
    offset: int,
    len: nat,
    top: int,
    rows: nat,
    row: int,
    pixel: int,
)
    requires
        0 <= offset,
        0 < stride,
        offset + len <= stride,
        0 <= top,
        (top + rows) * stride <= a.len(),
        a.len() == b.len(),
        len % 4 == 0,
        0 <= row < rows,
        0 <= pixel,
        pixel * 4 + 4 <= len,
        ({
            let at = (top + row) * stride + offset + pixel * 4;
            &&& exists|k: int| at <= k < at + 4 && a[k] != b[k]
            &&& forall|k: int|
                0 <= k < a.len() && top <= k / stride < top + rows && offset <= k % stride < offset
                    + len && !(at <= k < at + 4) ==> a[k] == b[k]
        }),
    ensures
        rows_hash(a, stride, offset, len, top, rows) != rows_hash(
            b,
            stride,
            offset,
            len,
            top,
            rows,
        ),
    decreases rows,
{
    let last = (rows - 1) as nat;
    let at = (top + row) * stride + offset + pixel * 4;
    let from = (top + last) * stride + offset;
    let shift = (last * 0x1_0000_0000) as u64;
    let x = hash::hash_bytes(a, from, len);
    let y = hash::hash_bytes(b, from, len);
    let g = rows_hash(a, stride, offset, len, top, last);
    let h = rows_hash(b, stride, offset, len, top, last);
    assert(0 <= (top + last) * stride && (top + last) * stride + stride == (top + rows) * stride)
        by (nonlinear_arith)
        requires
            0 < stride,
            0 <= top,
            last == rows - 1,
            0 <= last,
    ;
    if rows_hash(a, stride, offset, len, top, rows) == rows_hash(
        b,
        stride,
        offset,
        len,
        top,
        rows,
    ) {
        hash::lemma_hash_step_injective(g, h, x.wrapping_add(shift), y.wrapping_add(shift));
        assert forall|k: int| from <= k < from + len && !(at <= k < at + 4) implies a[k]
            == b[k] by {
            grid::lemma_row_range(k, stride, top + last, offset, offset + len);
        }
        if row < last {
            assert((top + row) * stride + stride <= (top + last) * stride) by (nonlinear_arith)
                requires
                    row < last,
                    0 < stride,
            ;
            hash::lemma_hash_bytes_local(a, b, from, len);
            lemma_rows_hash_sees_pixel(a, b, stride, offset, len, top, last, row, pixel);
        } else {
            assert forall|k: int|
                0 <= k < a.len() && top <= k / stride < top + last && offset <= k % stride < offset
                    + len implies a[k] == b[k] by {
                if at <= k < at + 4 {
                    grid::lemma_row_range(k, stride, top + last, offset, offset + len);
                }
            }
            lemma_rows_hash_local(a, b, stride, offset, len, top, last);
            hash::law_changed_pixel_changes_hash(a, b, from, len, pixel);
        }
    }
}

/// The bytes of a tile that an area does not touch lie outside the area.
proof fn lemma_outside_area(
    col: int,
    row: int,
    x: int,
    y: int,
    w: int,
    h: int,
    line: int,
    at: int,
)
    requires
        !tile_touched(col, row, x, y, w, h),
        row * 64 <= line < row * 64 + 64,
        col * 64 * 4 <= at < col * 64 * 4 + 64 * 4,
    ensures
        !(y <= line < y + h && x * 4 <= at < (x + w) * 4),
{
}

/// A tile that an area does not touch keeps its hash when the area changes.
proof fn lemma_tile_hash_kept(
    a: Seq<u8>,
    b: Seq<u8>,
    width: u32,
    height: u32,
    t: int,
    x: int,
    y: int,
    w: int,
    h: int,
)
    requires
        0 <= t < tiles_across(width) * tiles_across(height),
        a.len() == width * 4 * height,
        b.len() == a.len(),
        0 <= x,
        0 <= y,
        0 < w,
        0 < h,
        !tile_touched(
            t % (tiles_across(width) as int),
            t / (tiles_across(width) as int),
            x,
            y,
            w,
            h,
        ),
        forall|k: int|
            0 <= k < a.len() && a[k] != b[k] ==> y <= k / (width * 4) < y + h && x * 4 <= k % (width
                * 4) < (x + w) * 4,
    ensures
        tile_hash(a, width, height, t) == tile_hash(b, width, height, t),
{
    lemma_tile_on_screen(width, height, t);
    let stride = width * 4;
    let left = tile_left(width, t);
    let top = tile_top(width, t);
    let tw = tile_extent(left, width);
    let th = tile_extent(top, height);
    assert((top + th) * stride <= stride * height) by (nonlinear_arith)
        requires
            top + th <= height,
            0 <= stride,
    ;
    assert forall|k: int|
        0 <= k < a.len() && top <= k / stride < top + th && left * 4 <= k % stride < left * 4 + tw
            * 4 implies a[k] == b[k] by {
        lemma_outside_area(
            t % (tiles_across(width) as int),
            t / (tiles_across(width) as int),
            x,
            y,
            w,
            h,
            k / stride,
            k % stride,
        );
    }
    lemma_rows_hash_local(a, b, stride, left * 4, (tw * 4) as nat, top, th as nat);
}

/// Copies `len` bytes of `src` from `from` on over those of `pixels` at `at`.
fn copy_bytes(pixels: &mut Vec<u8>, at: usize, src: &[u8], from: usize, len: usize)
    requires
        at + len <= old(pixels)@.len(),
        from + len <= src@.len(),
    ensures
        final(pixels)@ == overlay(old(pixels)@, at as int, src@, from as int, len as int),
{
    let ghost before = pixels@;
    let size: usize = pixels.len();
    let src_size: usize = src.len();
    let mut i: usize = 0;
    while i < len
        invariant
            i <= len,
            size == before.len(),
            pixels@.len() == size,
            at + len <= size,
            src_size == src@.len(),
            from + len <= src_size,
            pixels@ == overlay(before, at as int, src@, from as int, i as int),
        decreases len - i,
    {
        pixels[at + i] = src[from + i];
        i = i + 1;
        assert(pixels@ =~= overlay(before, at as int, src@, from as int, i as int));
    }
    assert(pixels@ =~= overlay(before, at as int, src@, from as int, len as int));
}

/// Whether some pixel of the area `w` by `h` at (`x`, `y`) is on the screen.
pub open spec fn on_screen(fb: &TileFramebuffer, x: u32, y: u32, w: u32, h: u32) -> bool {
    x < fb.width && y < fb.height && 0 < w && 0 < h
}

impl TileFramebuffer {
    /// Damage flag of each tile, row by row.
    pub open spec fn dirty(&self) -> Seq<bool> {
        self.dirty_tiles@
    }

    /// Hash that each tile had when it was last looked at.
    pub open spec fn hashes(&self) -> Seq<u64> {
        self.tile_hashes@
    }

    pub open spec fn tile_count(&self) -> int {
        self.tiles_x * self.tiles_y
    }

    /// Dimensions, buffer and tile tables belong together.
    pub open spec fn wf(&self) -> bool {
        &&& size_supported(self.width, self.height)
        &&& self.stride == self.width * 4
        &&& self.buffer@.len() == self.stride * self.height
        &&& self.tiles_x == tiles_across(self.width)
        &&& self.tiles_y == tiles_across(self.height)
        &&& self.dirty().len() == self.tile_count()
        &&& self.hashes().len() == self.tile_count()
    }

    /// Every tile without a damage flag still has the pixels that its recorded
    /// hash was taken of.
    pub open spec fn in_step(&self) -> bool {
        forall|t: int|
            0 <= t < self.tile_count() && !(#[trigger] self.dirty()[t]) ==> self.hashes()[t]
                == tile_hash(self.buffer@, self.width, self.height, t)
    }

    /// Same screen and pixels; only the tile tables and the version may differ.
    pub open spec fn same_picture(&self, other: &TileFramebuffer) -> bool {
        &&& self.width == other.width
        &&& self.height == other.height
        &&& self.stride == other.stride
        &&& self.format == other.format
        &&& self.buffer@ == other.buffer@
        &&& self.tiles_x == other.tiles_x
        &&& self.tiles_y == other.tiles_y
    }

    /// Whether tile `t` is flagged and its pixels hash to something new.
    pub open spec fn changed(&self, t: int) -> bool {
        tile_changed(self.buffer@, self.width, self.height, self.dirty(), self.hashes(), t)
    }

    /// Areas of the changed ones among the first `n` tiles, in order.
    pub open spec fn damage_among(&self, n: nat) -> Seq<Rect> {
        damage_in(self.buffer@, self.width, self.height, self.dirty(), self.hashes(), n)
    }

    /// Whether `new` and `resize` take such a size.
    pub fn dimensions_supported(width: u32, height: u32) -> (r: bool)
        ensures
            r == size_supported(width, height),
    {
        let stride: u64 = width as u64 * 4;
        let tx: u64 = (width as u64 + 63) / 64;
        let ty: u64 = (height as u64 + 63) / 64;
        assert(stride * height <= 0x4_0000_0000 * 0x1_0000_0000) by (nonlinear_arith)
            requires
                stride <= 0x4_0000_0000,
                height <= 0x1_0000_0000,
        ;
        let total: u128 = stride as u128 * height as u128;
        let limit: u128 = isize::MAX as u128;
        assert(tx * ty <= 0x400_0000 * 0x400_0000) by (nonlinear_arith)
            requires
                tx <= 0x400_0000,
                ty <= 0x400_0000,
        ;
        stride as u128 <= limit && total <= limit && tx * ty <= 0xffff_ffff
    }

    /// A black screen with every tile flagged.
    pub fn new(width: u32, height: u32) -> (r: Self)
        requires
            size_supported(width, height),
        ensures
            r.wf(),
            r.in_step(),
            r.width == width,
            r.height == height,
            r.format == pixel::eight_bit_channels(32, 16, 0),
            r.buffer@ == Seq::new((width * 4 * height) as nat, |k: int| 0u8),
            r.dirty() == Seq::new(r.tile_count() as nat, |t: int| true),
            r.hashes() == Seq::new(r.tile_count() as nat, |t: int| 0u64),
            r.frame_version == 1,
    {
        let stride: usize = width as usize * 4;
        let total_bytes: usize = stride * height as usize;
        let tiles_x: u32 = ((width as u64 + 63) / 64) as u32;
        let tiles_y: u32 = ((height as u64 + 63) / 64) as u32;
        let total_tiles: usize = (tiles_x * tiles_y) as usize;
        let r = TileFramebuffer {
            width,
            height,
            stride,
            format: PixelFormat::bgra32(),
            buffer: vec![0u8; total_bytes],
            tiles_x,
            tiles_y,
            tile_hashes: vec![0u64; total_tiles],
            dirty_tiles: vec![true; total_tiles],
            frame_version: 1,
        };
        assert(r.buffer@ =~= Seq::new((width * 4 * height) as nat, |k: int| 0u8));
        assert(r.dirty() =~= Seq::new(r.tile_count() as nat, |t: int| true));
        assert(r.hashes() =~= Seq::new(r.tile_count() as nat, |t: int| 0u64));
        r
    }

    /// Changes the size. The bytes of the buffer stay where they are, as far
    /// as they fit; new ones are zero. Every tile is flagged.
    pub fn resize(&mut self, width: u32, height: u32)
        requires
            size_supported(width, height),
        ensures
            final(self).wf(),
            final(self).in_step(),
            final(self).width == width,
            final(self).height == height,
            final(self).format == old(self).format,
            final(self).buffer@ == resized(old(self).buffer@, (width * 4 * height) as nat),
            final(self).dirty() == Seq::new(final(self).tile_count() as nat, |t: int| true),
            final(self).hashes() == Seq::new(final(self).tile_count() as nat, |t: int| 0u64),
            final(self).frame_version == old(self).frame_version.wrapping_add(1),
    {
        let ghost before = self.buffer@;
        self.width = width;
        self.height = height;
        self.stride = width as usize * 4;
        let total_bytes: usize = self.stride * height as usize;
        self.tiles_x = ((width as u64 + 63) / 64) as u32;
        self.tiles_y = ((height as u64 + 63) / 64) as u32;
        let total_tiles: usize = (self.tiles_x * self.tiles_y) as usize;
        self.buffer.resize(total_bytes, 0);
        self.tile_hashes = vec![0u64; total_tiles];
        self.dirty_tiles = vec![true; total_tiles];
        self.frame_version = self.frame_version.wrapping_add(1);
        proof {
            if total_bytes > before.len() {
                assert forall|k: int| 0 <= k < before.len() implies self.buffer@[k] == before[k] by {
                    assert(self.buffer@.subrange(0, before.len() as int)[k] == before[k]);
                }
            }
            assert(self.buffer@ =~= resized(before, (width * 4 * height) as nat));
            assert(self.dirty() =~= Seq::new(self.tile_count() as nat, |t: int| true));
            assert(self.hashes() =~= Seq::new(self.tile_count() as nat, |t: int| 0u64));
        }
    }

    /// The raw pixels.
    pub fn raw_slice(&self) -> (r: &[u8])
        ensures
            r@ == self.buffer@,
    {
        self.buffer.as_slice()
    }

    /// Flags one tile; a position outside the screen is ignored.
    pub fn mark_tile_dirty(&mut self, tx: u32, ty: u32)
        requires
            old(self).wf(),
        ensures
            final(self).wf(),
            final(self).same_picture(old(self)),
            final(self).hashes() == old(self).hashes(),
            old(self).in_step() ==> final(self).in_step(),
            tx < old(self).tiles_x && ty < old(self).tiles_y ==> {
                &&& final(self).dirty() == old(self).dirty().update(
                    ty * old(self).tiles_x + tx,
                    true,
                )
                &&& final(self).frame_version == old(self).frame_version.wrapping_add(1)
            },
            !(tx < old(self).tiles_x && ty < old(self).tiles_y) ==> {
                &&& final(self).dirty() == old(self).dirty()
                &&& final(self).frame_version == old(self).frame_version
            },
    {
        if tx < self.tiles_x && ty < self.tiles_y {
            proof {
                grid::lemma_row_end(
                    self.tiles_x as int,
                    ty as int,
                    self.tiles_y as int,
                    tx as int + 1,
                );
                assert(self.tiles_y * self.tiles_x == self.tiles_x * self.tiles_y)
                    by (nonlinear_arith);
            }
            let idx: usize = (ty * self.tiles_x + tx) as usize;
            self.dirty_tiles[idx] = true;
            self.frame_version = self.frame_version.wrapping_add(1);
        }
    }

    /// Flags every tile and forgets what the tiles looked like.
    pub fn mark_all_damaged(&mut self)
        requires
            old(self).wf(),
        ensures
            final(self).wf(),
            final(self).in_step(),
            final(self).same_picture(old(self)),
            final(self).dirty() == Seq::new(final(self).tile_count() as nat, |t: int| true),
            final(self).hashes() == Seq::new(final(self).tile_count() as nat, |t: int| 0u64),
            final(self).frame_version == old(self).frame_version.wrapping_add(1),
    {
        let total: usize = self.dirty_tiles.len();
        self.dirty_tiles = vec![true; total];
        self.tile_hashes = vec![0u64; total];
        self.frame_version = self.frame_version.wrapping_add(1);
        assert(self.dirty() =~= Seq::new(self.tile_count() as nat, |t: int| true));
        assert(self.hashes() =~= Seq::new(self.tile_count() as nat, |t: int| 0u64));
    }

    /// Whether any tile is flagged.
    pub fn has_dirty_tiles(&self) -> (r: bool)
        ensures
            r == (exists|t: int| 0 <= t < self.dirty().len() && self.dirty()[t]),
    {
        let mut i: usize = 0;
        while i < self.dirty_tiles.len()
            invariant
                i <= self.dirty_tiles@.len(),
                forall|t: int| 0 <= t < i ==> !self.dirty_tiles@[t],
            decreases self.dirty_tiles@.len() - i,
        {
            if self.dirty_tiles[i] {
                assert(self.dirty()[i as int]);
                return true;
            }
            i = i + 1;
        }
        false
    }

    fn mark_tiles_dirty_in_region(&mut self, x: u32, y: u32, clamp_w: usize, clamp_h: usize)
        requires
            old(self).wf(),
            0 < clamp_w,
            0 < clamp_h,
            x + clamp_w <= old(self).width,
            y + clamp_h <= old(self).height,
        ensures
            final(self).wf(),
            *final(self) == (TileFramebuffer {
                dirty_tiles: final(self).dirty_tiles,
                frame_version: old(self).frame_version.wrapping_add(1),
                ..*old(self)
            }),
            final(self).dirty() == dirtied(
                old(self).dirty(),
                old(self).tiles_x,
                x as int,
                y as int,
                clamp_w as int,
                clamp_h as int,
            ),
    {
        let ghost before = *self;
        let first_x: usize = x as usize / TILE_SIZE;
        let last_x: usize = (x as usize + clamp_w - 1) / TILE_SIZE;
        let first_y: usize = y as usize / TILE_SIZE;
        let last_y: usize = (y as usize + clamp_h - 1) / TILE_SIZE;
        let tiles_x: usize = self.tiles_x as usize;
        let tiles_y: usize = self.tiles_y as usize;
        let ghost n = tiles_x as int;
        let mut ty: usize = first_y;
        while ty <= last_y
            invariant
                first_y <= ty <= last_y + 1,
                first_x <= last_x < tiles_x,
                last_y < tiles_y,
                n == tiles_x,
                tiles_x == before.tiles_x,
                tiles_y == before.tiles_y,
                before.wf(),
                *self == (TileFramebuffer { dirty_tiles: self.dirty_tiles, ..before }),
                self.dirty_tiles@ == Seq::new(
                    before.dirty().len(),
                    |t: int|
                        before.dirty()[t] || (first_y <= t / n < ty && first_x <= t % n <= last_x),
                ),
            decreases last_y + 1 - ty,
        {
            let mut tx: usize = first_x;
            while tx <= last_x
                invariant
                    first_y <= ty <= last_y,
                    first_x <= tx <= last_x + 1,
                    first_x <= last_x < tiles_x,
                    last_y < tiles_y,
                    n == tiles_x,
                    tiles_x == before.tiles_x,
                    tiles_y == before.tiles_y,
                    before.wf(),
                    *self == (TileFramebuffer { dirty_tiles: self.dirty_tiles, ..before }),
                    self.dirty_tiles@ == Seq::new(
                        before.dirty().len(),
                        |t: int|
                            before.dirty()[t] || (first_y <= t / n < ty && first_x <= t % n
                                <= last_x) || (t / n == ty && first_x <= t % n < tx),
                    ),
                decreases last_x + 1 - tx,
            {
                proof {
                    grid::lemma_row_end(n, ty as int, tiles_y as int, tx as int + 1);
                    assert(tiles_y * n == before.tiles_x * before.tiles_y) by (nonlinear_arith)
                        requires
                            n == before.tiles_x,
                            tiles_y == before.tiles_y,
                    ;
                }
                let idx: usize = ty * tiles_x + tx;
                self.dirty_tiles[idx] = true;
                tx = tx + 1;
                proof {
                    let expected = Seq::new(
                        before.dirty().len(),
                        |t: int|
                            before.dirty()[t] || (first_y <= t / n < ty && first_x <= t % n
                                <= last_x) || (t / n == ty && first_x <= t % n < tx),
                    );
                    assert forall|t: int| 0 <= t < expected.len() implies self.dirty_tiles@[t]
                        == expected[t] by {
                        grid::lemma_row_range(t, n, ty as int, tx - 1, tx as int);
                    }
                    assert(self.dirty_tiles@ =~= expected);
                }
            }
            ty = ty + 1;
            assert(self.dirty_tiles@ =~= Seq::new(
                before.dirty().len(),
                |t: int|
                    before.dirty()[t] || (first_y <= t / n < ty && first_x <= t % n <= last_x),
            ));
        }
        assert(self.dirty_tiles@ =~= dirtied(
            before.dirty(),
            before.tiles_x,
            x as int,
            y as int,
            clamp_w as int,
            clamp_h as int,
        ));
        self.frame_version = self.frame_version.wrapping_add(1);
    }

    /// Whether `self` is `before` with an image drawn at (`x`, `y`), cut off at
    /// the edges of the screen: the pixels, the flags of the tiles touched and
    /// the version are new, and all else is as it was.
    pub open spec fn has_image(
        &self,
        before: &TileFramebuffer,
        x: u32,
        y: u32,
        w: u32,
        h: u32,
        src: Seq<u8>,
        src_stride: int,
    ) -> bool {
        let cw = clamped(w, x, before.width);
        let ch = clamped(h, y, before.height);
        if on_screen(before, x, y, w, h) {
            &&& *self == (TileFramebuffer {
                buffer: self.buffer,
                dirty_tiles: self.dirty_tiles,
                frame_version: before.frame_version.wrapping_add(1),
                ..*before
            })
            &&& self.buffer@ == drawn(
                before.buffer@,
                before.stride as int,
                x as int,
                y as int,
                cw,
                ch,
                src,
                src_stride,
            )
            &&& self.dirty() == dirtied(
                before.dirty(),
                before.tiles_x,
                x as int,
                y as int,
                cw,
                ch,
            )
        } else {
            *self == *before
        }
    }

    /// Draws an image at (`x`, `y`). Row `r` of it starts `r * src_stride`
    /// bytes into `src_data`, four bytes to the pixel. What lies outside the
    /// screen is cut off; rows that `src_data` does not hold in full are left
    /// out. The tiles touched are flagged.
    pub fn update_rect(
        &mut self,
        x: u32,
        y: u32,
        w: u32,
        h: u32,
        src_data: &[u8],
        src_stride: usize,
    )
        requires
            old(self).wf(),
        ensures
            final(self).wf(),
            old(self).in_step() ==> final(self).in_step(),
            final(self).has_image(old(self), x, y, w, h, src_data@, src_stride as int),
    {
        if x >= self.width || y >= self.height || w == 0 || h == 0 {
            return;
        }
        let ghost before = *self;
        let clamp_w: usize = (if w < self.width - x {
            w
        } else {
            self.width - x
        }) as usize;
        let clamp_h: usize = (if h < self.height - y {
            h
        } else {
            self.height - y
        }) as usize;
        let row_bytes: usize = clamp_w * 4;
        let stride: usize = self.stride;
        let size: usize = src_data.len();
        let mut row: usize = 0;
        assert(self.buffer@ =~= drawn(
            before.buffer@,
            stride as int,
            x as int,
            y as int,
            clamp_w as int,
            0,
            src_data@,
            src_stride as int,
        ));
        while row < clamp_h
            invariant
                row <= clamp_h,
                before.wf(),
                stride == before.stride,
                size == src_data@.len(),
                0 < clamp_w,
                x + clamp_w <= before.width,
                y + clamp_h <= before.height,
                row_bytes == clamp_w * 4,
                *self == (TileFramebuffer { buffer: self.buffer, ..before }),
                self.buffer@ == drawn(
                    before.buffer@,
                    stride as int,
                    x as int,
                    y as int,
                    clamp_w as int,
                    row as int,
                    src_data@,
                    src_stride as int,
                ),
            decreases clamp_h - row,
        {
            proof {
                lemma_draw_row(
                    before.buffer@,
                    stride as int,
                    x as int,
                    y as int,
                    clamp_w as int,
                    row as int,
                    src_data@,
                    src_stride as int,
                );
                grid::lemma_row_end(
                    stride as int,
                    y + row,
                    before.height as int,
                    (x + clamp_w) * 4,
                );
                assert(before.height * stride == stride * before.height) by (nonlinear_arith);
            }
            let dst_start: usize = (y as usize + row) * stride + x as usize * 4;
            match row.checked_mul(src_stride) {
                Some(src_start) => {
                    if src_start <= size && row_bytes <= size - src_start {
                        copy_bytes(&mut self.buffer, dst_start, src_data, src_start, row_bytes);
                    }
                },
                None => {},
            }
            row = row + 1;
        }
        self.mark_tiles_dirty_in_region(x, y, clamp_w, clamp_h);
        proof {
            if before.in_step() {
                self.lemma_untouched_in_step(
                    &before,
                    x as int,
                    y as int,
                    clamp_w as int,
                    clamp_h as int,
                );
            }
        }
    }

    proof fn lemma_untouched_in_step(
        &self,
        before: &TileFramebuffer,
        x: int,
        y: int,
        w: int,
        h: int,
    )
        requires
            before.wf(),
            before.in_step(),
            self.width == before.width,
            self.height == before.height,
            self.tiles_x == before.tiles_x,
            self.tiles_y == before.tiles_y,
            self.hashes() == before.hashes(),
            self.dirty() == dirtied(before.dirty(), before.tiles_x, x, y, w, h),
            0 <= x,
            0 <= y,
            0 < w,
            0 < h,
            self.buffer@.len() == before.buffer@.len(),
            forall|k: int|
                0 <= k < before.buffer@.len() && before.buffer@[k] != self.buffer@[k] ==> y <= k / (
                before.width * 4) < y + h && x * 4 <= k % (before.width * 4) < (x + w) * 4,
        ensures
            self.in_step(),
    {
        assert forall|t: int| 0 <= t < self.tile_count() && !(#[trigger] self.dirty()[t]) implies
            self.hashes()[t] == tile_hash(self.buffer@, self.width, self.height, t) by {
            assert(!before.dirty()[t]);
            lemma_tile_hash_kept(
                before.buffer@,
                self.buffer@,
                self.width,
                self.height,
                t,
                x,
                y,
                w,
                h,
            );
        }
    }

    /// Whether `self` is `before` with an area taken over from a frame of the
    /// same layout, cut off at the edges of the screen: the pixels, the flags of
    /// the tiles touched and the version are new, and all else is as it was.
    pub open spec fn has_frame(
        &self,
        before: &TileFramebuffer,
        x: u32,
        y: u32,
        w: u32,
        h: u32,
        frame: Seq<u8>,
    ) -> bool {
        let cw = clamped(w, x, before.width);
        let ch = clamped(h, y, before.height);
        if on_screen(before, x, y, w, h) {
            &&& *self == (TileFramebuffer {
                buffer: self.buffer,
                dirty_tiles: self.dirty_tiles,
                frame_version: before.frame_version.wrapping_add(1),
                ..*before
            })
            &&& self.buffer@ == refreshed(
                before.buffer@,
                before.stride as int,
                x as int,
                y as int,
                cw,
                ch,
                frame,
            )
            &&& self.dirty() == dirtied(
                before.dirty(),
                before.tiles_x,
                x as int,
                y as int,
                cw,
                ch,
            )
        } else {
            *self == *before
        }
    }

    /// Whether `self` is `before` after a look at its flagged tiles: the flags
    /// are cleared, the hashes recorded, and all else is as it was.
    pub open spec fn looked_at(&self, before: &TileFramebuffer) -> bool {
        &&& *self == (TileFramebuffer {
            tile_hashes: self.tile_hashes,
            dirty_tiles: self.dirty_tiles,
            ..*before
        })
        &&& self.dirty() == Seq::new(before.tile_count() as nat, |t: int| false)
        &&& self.hashes() == hashes_after_look(
            before.buffer@,
            before.width,
            before.height,
            before.dirty(),
            before.hashes(),
        )
    }

    /// Takes an area over from a frame of the same layout as the screen. What
    /// lies outside the screen is cut off; rows that the frame does not reach
    /// are left out. The tiles touched are flagged.
    pub fn update_rect_from_full_frame(
        &mut self,
        x: u32,
        y: u32,
        w: u32,
        h: u32,
        full_frame: &[u8],
    )
        requires
            old(self).wf(),
        ensures
            final(self).wf(),
            old(self).in_step() ==> final(self).in_step(),
            final(self).has_frame(old(self), x, y, w, h, full_frame@),
    {
        if x >= self.width || y >= self.height || w == 0 || h == 0 {
            return;
        }
        let ghost before = *self;
        let clamp_w: usize = (if w < self.width - x {
            w
        } else {
            self.width - x
        }) as usize;
        let clamp_h: usize = (if h < self.height - y {
            h
        } else {
            self.height - y
        }) as usize;
        let row_bytes: usize = clamp_w * 4;
        let stride: usize = self.stride;
        let size: usize = full_frame.len();
        let mut row: usize = 0;
        assert(self.buffer@ =~= refreshed(
            before.buffer@,
            stride as int,
            x as int,
            y as int,
            clamp_w as int,
            0,
            full_frame@,
        ));
        while row < clamp_h
            invariant
                row <= clamp_h,
                before.wf(),
                stride == before.stride,
                size == full_frame@.len(),
                0 < clamp_w,
                x + clamp_w <= before.width,
                y + clamp_h <= before.height,
                row_bytes == clamp_w * 4,
                *self == (TileFramebuffer { buffer: self.buffer, ..before }),
                self.buffer@ == refreshed(
                    before.buffer@,
                    stride as int,
                    x as int,
                    y as int,
                    clamp_w as int,
                    row as int,
                    full_frame@,
                ),
            decreases clamp_h - row,
        {
            proof {
                lemma_refresh_row(
                    before.buffer@,
                    stride as int,
                    x as int,
                    y as int,
                    clamp_w as int,
                    row as int,
                    full_frame@,
                );
                grid::lemma_row_end(
                    stride as int,
                    y + row,
                    before.height as int,
                    (x + clamp_w) * 4,
                );
                assert(before.height * stride == stride * before.height) by (nonlinear_arith);
            }
            let offset: usize = (y as usize + row) * stride + x as usize * 4;
            if offset + row_bytes <= size {
                copy_bytes(&mut self.buffer, offset, full_frame, offset, row_bytes);
            }
            row = row + 1;
        }
        self.mark_tiles_dirty_in_region(x, y, clamp_w, clamp_h);
        proof {
            if before.in_step() {
                self.lemma_untouched_in_step(
                    &before,
                    x as int,
                    y as int,
                    clamp_w as int,
                    clamp_h as int,
                );
            }
        }
    }

    fn hash_area(&self, left: usize, top: usize, width: usize, rows: usize) -> (r: u64)
        requires
            self.wf(),
            left + width <= self.width,
            top + rows <= self.height,
            rows <= TILE_SIZE,
        ensures
            r == rows_hash(
                self.buffer@,
                self.stride as int,
                left * 4,
                (width * 4) as nat,
                top as int,
                rows as nat,
            ),
    {
        let mut area_hash: u64 = HASH_SEED;
        let mut row: usize = 0;
        while row < rows
            invariant
                row <= rows,
                self.wf(),
                left + width <= self.width,
                top + rows <= self.height,
                rows <= TILE_SIZE,
                area_hash == rows_hash(
                    self.buffer@,
                    self.stride as int,
                    left * 4,
                    (width * 4) as nat,
                    top as int,
                    row as nat,
                ),
            decreases rows - row,
        {
            proof {
                grid::lemma_row_end(
                    self.stride as int,
                    top + row,
                    self.height as int,
                    (left + width) * 4,
                );
                assert(self.height * self.stride == self.stride * self.height)
                    by (nonlinear_arith);
            }
            let start: usize = (top + row) * self.stride + left * 4;
            let row_hash: u64 = hash_tile_data(self.buffer.as_slice(), start, width * 4);
            area_hash = (area_hash ^ row_hash.wrapping_add(row as u64 * 0x1_0000_0000)).wrapping_mul(
                HASH_PRIME,
            );
            row = row + 1;
        }
        area_hash
    }

    /// Looks at the flagged tiles: clears their flags, records their hashes,
    /// and returns the areas of those whose hash has changed, row by row.
    pub fn detect_damage_tiles(&mut self) -> (damage: Vec<Rect>)
        requires
            old(self).wf(),
        ensures
            final(self).wf(),
            damage@ == old(self).damage_among(old(self).tile_count() as nat),
            final(self).looked_at(old(self)),
            old(self).in_step() ==> final(self).in_step(),
    {
        let ghost before = *self;
        let mut damage: Vec<Rect> = Vec::new();
        let width: usize = self.width as usize;
        let height: usize = self.height as usize;
        let tiles_x: usize = self.tiles_x as usize;
        let tiles_y: usize = self.tiles_y as usize;
        let mut idx: usize = 0;
        let mut ty: usize = 0;
        while ty < tiles_y
            invariant
                ty <= tiles_y,
                before.wf(),
                width == before.width,
                height == before.height,
                tiles_x == before.tiles_x,
                tiles_y == before.tiles_y,
                *self == (TileFramebuffer {
                    tile_hashes: self.tile_hashes,
                    dirty_tiles: self.dirty_tiles,
                    ..before
                }),
                idx == ty * tiles_x,
                self.seen(&before, idx as int),
                damage@ == before.damage_among(idx as nat),
            decreases tiles_y - ty,
        {
            let tile_y: usize = ty * TILE_SIZE;
            let tile_h: usize = if height - tile_y < TILE_SIZE {
                height - tile_y
            } else {
                TILE_SIZE
            };
            let mut tx: usize = 0;
            while tx < tiles_x
                invariant
                    ty < tiles_y,
                    tx <= tiles_x,
                    before.wf(),
                    width == before.width,
                    height == before.height,
                    tiles_x == before.tiles_x,
                    tiles_y == before.tiles_y,
                    tile_y == ty * 64,
                    tile_y < height,
                    tile_h == tile_extent(tile_y as int, before.height),
                    *self == (TileFramebuffer {
                        tile_hashes: self.tile_hashes,
                        dirty_tiles: self.dirty_tiles,
                        ..before
                    }),
                    idx == ty * tiles_x + tx,
                    self.seen(&before, idx as int),
                    damage@ == before.damage_among(idx as nat),
                decreases tiles_x - tx,
            {
                proof {
                    grid::lemma_row_end(
                        tiles_x as int,
                        ty as int,
                        tiles_y as int,
                        tx as int + 1,
                    );
                    assert(tiles_y * tiles_x == tiles_x * tiles_y) by (nonlinear_arith);
                    grid::lemma_cell(idx as int, tiles_x as int, ty as int, tx as int);
                }
                if self.dirty_tiles[idx] {
                    let tile_x: usize = tx * TILE_SIZE;
                    let tile_w: usize = if width - tile_x < TILE_SIZE {
                        width - tile_x
                    } else {
                        TILE_SIZE
                    };
                    let current: u64 = self.hash_area(tile_x, tile_y, tile_w, tile_h);
                    self.dirty_tiles[idx] = false;
                    if current != self.tile_hashes[idx] {
                        self.tile_hashes[idx] = current;
                        damage.push(
                            Rect::new(tile_x as u16, tile_y as u16, tile_w as u16, tile_h as u16),
                        );
                    }
                }
                idx = idx + 1;
                tx = tx + 1;
            }
            ty = ty + 1;
            assert(ty * tiles_x == (ty - 1) * tiles_x + tiles_x) by (nonlinear_arith);
        }
        assert(tiles_y * tiles_x == tiles_x * tiles_y) by (nonlinear_arith);
        assert(self.dirty() =~= Seq::new(before.tile_count() as nat, |t: int| false));
        assert(self.hashes() =~= hashes_after_look(
            before.buffer@,
            before.width,
            before.height,
            before.dirty(),
            before.hashes(),
        ));
        damage
    }

    /// The tables after the first `n` tiles of `before` were looked at.
    closed spec fn seen(&self, before: &TileFramebuffer, n: int) -> bool {
        &&& self.dirty().len() == before.dirty().len()
        &&& self.hashes().len() == before.hashes().len()
        &&& forall|t: int|
            #![trigger self.dirty()[t]]
            #![trigger self.hashes()[t]]
            0 <= t < before.dirty().len() ==> if t < n {
                &&& !self.dirty()[t]
                &&& self.hashes()[t] == if before.dirty()[t] {
                    tile_hash(before.buffer@, before.width, before.height, t)
                } else {
                    before.hashes()[t]
                }
            } else {
                &&& self.dirty()[t] == before.dirty()[t]
                &&& self.hashes()[t] == before.hashes()[t]
            }
    }
}

/// Which screens are supported: those whose bytes, four to the pixel, can be held
/// in memory, and whose tiles of 64 by 64 pixels can be counted in 32 bits.
pub proof fn law_supported_sizes(width: u32, height: u32)
    ensures
        size_supported(width, height) <==> {
            &&& width * 4 <= isize::MAX
            &&& width * 4 * height <= isize::MAX
            &&& ((width + 63) / 64) * ((height + 63) / 64) <= u32::MAX
        },
{
}

/// What fits is kept when the size changes, and the rest is black.
pub proof fn law_resizing_keeps_what_fits(pixels: Seq<u8>, size: nat)
    ensures
        size <= pixels.len() ==> resized(pixels, size) == pixels.take(size as int),
        size >= pixels.len() ==> resized(pixels, size).take(pixels.len() as int) == pixels,
        forall|k: int| pixels.len() <= k < size ==> #[trigger] resized(pixels, size)[k] == 0,
        resized(pixels, size).len() == size,
{
    if size <= pixels.len() {
        assert(resized(pixels, size) =~= pixels.take(size as int));
    } else {
        assert(resized(pixels, size).take(pixels.len() as int) =~= pixels);
    }
}

/// How the hash of an area grows: with each row, the hash so far is combined bit by
/// bit with the hash of the row's bytes, to which the number of the row, times 2^32,
/// is added, and multiplied by 0x100000001b3, modulo 2^64.
pub proof fn law_area_hash_grows(
    pixels: Seq<u8>,
    stride: int,
    offset: int,
    len: nat,
    top: int,
    rows: nat,
)
    requires
        rows < 64,
    ensures
        rows_hash(pixels, stride, offset, len, top, 0) == 0xcbf29ce484222325u64,
        ({
            let row = hash::hash_bytes(pixels, (top + rows) * stride + offset, len);
            let numbered = ((row + rows * 0x1_0000_0000) % 0x1_0000_0000_0000_0000) as u64;
            rows_hash(pixels, stride, offset, len, top, rows + 1) == ((rows_hash(
                pixels,
                stride,
                offset,
                len,
                top,
                rows,
            ) ^ numbered) * 0x100000001b3) % 0x1_0000_0000_0000_0000
        }),
{
}

} // verus!
