//! What holds of the framebuffer across several operations.

use crate::display::framebuffer;
use crate::display::framebuffer::TileFramebuffer;
use crate::display::grid;
use crate::display::pixel;
use crate::display::pixel::PixelFormat;
use crate::display::rect::Rect;
use vstd::prelude::*;

verus! {

/// Where no tile is flagged there is no damage: a second look right after the
/// first, which clears all flags, finds nothing.
pub proof fn law_second_look_finds_nothing(fb: TileFramebuffer, n: nat)
    requires
        n <= fb.tile_count(),
        fb.dirty() == Seq::new(fb.tile_count() as nat, |t: int| false),
    ensures
        fb.damage_among(n) == Seq::<Rect>::empty(),
    decreases n,
{
    if n > 0 {
        law_second_look_finds_nothing(fb, (n - 1) as nat);
    }
}

proof fn lemma_unchanged_no_damage(fb: TileFramebuffer, n: nat)
    requires
        n <= fb.tile_count(),
        forall|t: int| 0 <= t < n ==> !#[trigger] fb.changed(t),
    ensures
        fb.damage_among(n) == Seq::<Rect>::empty(),
    decreases n,
{
    if n > 0 {
        lemma_unchanged_no_damage(fb, (n - 1) as nat);
        assert(!fb.changed(n - 1));
    }
}

/// A screen on which nothing was flagged, given the same pixels again by an
/// update that flags any tiles it likes, shows no damage.
pub proof fn law_same_pixels_no_damage(shown: TileFramebuffer, again: TileFramebuffer)
    requires
        shown.wf(),
        shown.in_step(),
        forall|t: int| 0 <= t < shown.tile_count() ==> !shown.dirty()[t],
        again.width == shown.width,
        again.height == shown.height,
        again.tiles_x == shown.tiles_x,
        again.tiles_y == shown.tiles_y,
        again.hashes() == shown.hashes(),
        again.buffer@ == shown.buffer@,
    ensures
        again.damage_among(again.tile_count() as nat) == Seq::<Rect>::empty(),
{
    assert forall|t: int| 0 <= t < again.tile_count() implies !#[trigger] again.changed(t) by {
        assert(!shown.dirty()[t]);
    }
    assert(0 <= again.tile_count()) by (nonlinear_arith)
        requires
            again.tile_count() == again.tiles_x * again.tiles_y,
    ;
    lemma_unchanged_no_damage(again, again.tile_count() as nat);
}

/// A frame that is captured again costs nothing: once an area was taken over
/// from a frame and the tiles were looked at, taking the same area over from
/// the same frame shows no damage.
pub proof fn law_identical_frame_no_damage(
    before: TileFramebuffer,
    first: TileFramebuffer,
    seen: TileFramebuffer,
    again: TileFramebuffer,
    x: u32,
    y: u32,
    w: u32,
    h: u32,
    frame: Seq<u8>,
)
    requires
        before.wf(),
        before.in_step(),
        first.has_frame(&before, x, y, w, h, frame),
        first.in_step(),
        seen.looked_at(&first),
        again.has_frame(&seen, x, y, w, h, frame),
    ensures
        again.buffer@ == seen.buffer@,
        again.damage_among(again.tile_count() as nat) == Seq::<Rect>::empty(),
{
    assert(again.buffer@ =~= seen.buffer@);
    assert(0 <= seen.tile_count()) by (nonlinear_arith)
        requires
            seen.tile_count() == seen.tiles_x * seen.tiles_y,
    ;
    assert forall|t: int| 0 <= t < seen.tile_count() && !(#[trigger] seen.dirty()[t]) implies
        seen.hashes()[t] == framebuffer::tile_hash(seen.buffer@, seen.width, seen.height, t) by {
        if !first.dirty()[t] {
            assert(first.hashes()[t] == framebuffer::tile_hash(
                first.buffer@,
                first.width,
                first.height,
                t,
            ));
        }
    }
    law_same_pixels_no_damage(seen, again);
}

/// The screen shows what was captured: after a whole frame was taken over, the
/// pixels are those of the frame.
pub proof fn law_whole_frame_is_shown(
    before: TileFramebuffer,
    after: TileFramebuffer,
    frame: Seq<u8>,
)
    requires
        before.wf(),
        frame.len() == before.buffer@.len(),
        after.has_frame(&before, 0, 0, before.width, before.height, frame),
    ensures
        after.buffer@ == frame,
{
    let stride = before.stride as int;
    let height = before.height as int;
    if before.width > 0 && height > 0 {
        assert forall|k: int| 0 <= k < frame.len() implies after.buffer@[k] == frame[k] by {
            assert(stride * height == height * stride) by (nonlinear_arith);
            grid::lemma_cell_in_rows(k, stride, height);
            grid::lemma_row_end(stride, k / stride, height, stride);
        }
    } else {
        assert(stride * height == 0) by (nonlinear_arith)
            requires
                stride == 0 || height == 0,
        ;
    }
    assert(after.buffer@ =~= frame);
}

/// The four bytes of the pixel in column `x` of row `y`, on a screen `width`
/// pixels wide.
pub open spec fn pixel_at(pixels: Seq<u8>, width: u32, x: int, y: int) -> Seq<u8> {
    let at = (y * width + x) * 4;
    pixels.subrange(at, at + 4)
}

/// Whether two pictures, of a screen of the given size, differ at one pixel and
/// at no other of the block of 64 by 64 pixels that it lies in.
pub open spec fn differ_in_one_pixel(
    a: Seq<u8>,
    b: Seq<u8>,
    width: u32,
    height: u32,
    px: int,
    py: int,
) -> bool {
    &&& 0 <= px < width
    &&& 0 <= py < height
    &&& pixel_at(a, width, px, py) != pixel_at(b, width, px, py)
    &&& forall|x: int, y: int|
        0 <= x < width && 0 <= y < height && x / 64 == px / 64 && y / 64 == py / 64 && (x != px
            || y != py) ==> #[trigger] pixel_at(a, width, x, y) == pixel_at(b, width, x, y)
}

/// Every byte of a pixel's block, but for those of the pixel itself, is the
/// same in both pictures.
proof fn lemma_same_in_block(
    a: Seq<u8>,
    b: Seq<u8>,
    width: u32,
    height: u32,
    px: int,
    py: int,
    k: int,
)
    requires
        a.len() == width * 4 * height,
        b.len() == a.len(),
        differ_in_one_pixel(a, b, width, height, px, py),
        0 <= k < a.len(),
        k / (width * 4) / 64 == py / 64,
        k % (width * 4) / 4 / 64 == px / 64,
        !((py * width + px) * 4 <= k < (py * width + px) * 4 + 4),
    ensures
        a[k] == b[k],
{
    let stride = width * 4;
    assert(width * 4 * height == height * stride) by (nonlinear_arith)
        requires
            stride == width * 4,
    ;
    grid::lemma_cell_in_rows(k, stride, height as int);
    let y = k / stride;
    let x = k % stride / 4;
    let i = k % stride % 4;
    assert((y * width + x) * 4 + i == k) by (nonlinear_arith)
        requires
            k == y * stride + (x * 4 + i),
            stride == width * 4,
    ;
    grid::lemma_row_end(stride, y, height as int, (x + 1) * 4);
    assert(pixel_at(a, width, x, y) == pixel_at(b, width, x, y));
    assert(pixel_at(a, width, x, y)[i] == a[k]);
    assert(pixel_at(b, width, x, y)[i] == b[k]);
}

/// The hash of a tile sees every pixel of it: pictures that differ in just one
/// pixel of the tile never have the same hash there.
pub proof fn law_changed_pixel_changes_tile_hash(
    a: Seq<u8>,
    b: Seq<u8>,
    width: u32,
    height: u32,
    px: int,
    py: int,
)
    requires
        a.len() == width * 4 * height,
        b.len() == a.len(),
        differ_in_one_pixel(a, b, width, height, px, py),
    ensures
        ({
            let t = py / 64 * framebuffer::tiles_across(width) + px / 64;
            framebuffer::tile_hash(a, width, height, t) != framebuffer::tile_hash(
                b,
                width,
                height,
                t,
            )
        }),
{
    let n = framebuffer::tiles_across(width) as int;
    let m = framebuffer::tiles_across(height) as int;
    let t = py / 64 * n + px / 64;
    grid::lemma_cell(t, n, py / 64, px / 64);
    grid::lemma_row_end(n, py / 64, m, px / 64 + 1);
    assert(n * m == m * n) by (nonlinear_arith);
    framebuffer::lemma_tile_on_screen(width, height, t);
    let left = framebuffer::tile_left(width, t);
    let top = framebuffer::tile_top(width, t);
    let tw = framebuffer::tile_extent(left, width);
    let th = framebuffer::tile_extent(top, height);
    let stride = width * 4;
    assert(left == px / 64 * 64 && top == py / 64 * 64);
    let row = py - top;
    let pixel = px - left;
    let at = (top + row) * stride + left * 4 + pixel * 4;
    assert(at == (py * width + px) * 4) by (nonlinear_arith)
        requires
            at == (top + row) * stride + left * 4 + pixel * 4,
            stride == width * 4,
            row == py - top,
            pixel == px - left,
    ;
    assert((top + th) * stride <= stride * height) by (nonlinear_arith)
        requires
            top + th <= height,
            0 <= stride,
    ;
    grid::lemma_row_end(stride, py, height as int, (px + 1) * 4);
    assert(py * stride + (px + 1) * 4 <= a.len() && at == py * stride + px * 4)
        by (nonlinear_arith)
        requires
            py * stride + (px + 1) * 4 <= height * stride,
            a.len() == width * 4 * height,
            stride == width * 4,
            at == (py * width + px) * 4,
    ;
    assert(exists|k: int| at <= k < at + 4 && a[k] != b[k]) by {
        if forall|k: int| at <= k < at + 4 ==> a[k] == b[k] {
            assert(pixel_at(a, width, px, py) =~= pixel_at(b, width, px, py));
        }
    }
    assert forall|k: int|
        0 <= k < a.len() && top <= k / stride < top + th && left * 4 <= k % stride < left * 4 + (tw
            * 4) as nat && !(at <= k < at + 4) implies a[k] == b[k] by {
        lemma_same_in_block(a, b, width, height, px, py, k);
    }
    framebuffer::lemma_rows_hash_sees_pixel(
        a,
        b,
        stride,
        left * 4,
        (tw * 4) as nat,
        top,
        th as nat,
        row,
        pixel,
    );
}

/// Every change is found: where a screen has been drawn on since a look, and of
/// one of its blocks of 64 by 64 pixels just one pixel is not what it was, the
/// next look reports an area that holds that pixel.
pub proof fn law_changed_pixel_is_reported(
    shown: TileFramebuffer,
    now: TileFramebuffer,
    px: int,
    py: int,
)
    requires
        shown.wf(),
        shown.in_step(),
        forall|t: int| 0 <= t < shown.tile_count() ==> !shown.dirty()[t],
        now.wf(),
        now.in_step(),
        now.width == shown.width,
        now.height == shown.height,
        now.hashes() == shown.hashes(),
        shown.width <= 65536,
        shown.height <= 65536,
        differ_in_one_pixel(shown.buffer@, now.buffer@, shown.width, shown.height, px, py),
    ensures
        exists|i: int|
            0 <= i < now.damage_among(now.tile_count() as nat).len() && ({
                let r = #[trigger] now.damage_among(now.tile_count() as nat)[i];
                r.x <= px < r.x + r.width && r.y <= py < r.y + r.height
            }),
{
    let width = shown.width;
    let height = shown.height;
    let t = py / 64 * framebuffer::tiles_across(width) + px / 64;
    law_tiles_cover_the_screen(width, height, px, py);
    law_changed_pixel_changes_tile_hash(
        shown.buffer@,
        now.buffer@,
        width,
        height,
        px,
        py,
    );
    assert(!shown.dirty()[t]);
    assert(now.dirty()[t]);
    assert(now.changed(t));
    let n = now.tile_count() as nat;
    law_damage_is_changed_tiles(now, n);
    let r = framebuffer::tile_rect(width, height, t);
    let i = now.damage_among(n).index_of(r);
    assert(now.damage_among(n)[i] == r);
}

/// Whether `r` is the area of a changed tile among the first `n`.
pub open spec fn is_changed_area(fb: TileFramebuffer, n: nat, r: Rect) -> bool {
    exists|t: int|
        0 <= t < n && #[trigger] fb.changed(t) && r == framebuffer::tile_rect(
            fb.width,
            fb.height,
            t,
        )
}

/// The damage that a look reports is made up of the areas of the changed
/// tiles: each of them is reported, and nothing else is.
pub proof fn law_damage_is_changed_tiles(fb: TileFramebuffer, n: nat)
    ensures
        forall|t: int|
            0 <= t < n && #[trigger] fb.changed(t) ==> fb.damage_among(n).contains(
                framebuffer::tile_rect(fb.width, fb.height, t),
            ),
        forall|i: int|
            0 <= i < fb.damage_among(n).len() ==> is_changed_area(
                fb,
                n,
                #[trigger] fb.damage_among(n)[i],
            ),
        fb.damage_among(n).len() <= n,
    decreases n,
{
    if n > 0 {
        let m = (n - 1) as nat;
        law_damage_is_changed_tiles(fb, m);
        let rest = fb.damage_among(m);
        let all = fb.damage_among(n);
        assert forall|t: int| 0 <= t < n && #[trigger] fb.changed(t) implies all.contains(
            framebuffer::tile_rect(fb.width, fb.height, t),
        ) by {
            if t < m {
                let r = framebuffer::tile_rect(fb.width, fb.height, t);
                let i = rest.index_of(r);
                assert(all[i] == r);
            } else {
                assert(all[rest.len() as int] == framebuffer::tile_rect(fb.width, fb.height, t));
            }
        }
        assert forall|i: int| 0 <= i < all.len() implies is_changed_area(
            fb,
            n,
            #[trigger] all[i],
        ) by {
            if i < rest.len() {
                assert(all[i] == rest[i]);
                assert(is_changed_area(fb, m, rest[i]));
            } else {
                assert(fb.changed(m as int));
            }
        }
    }
}

/// After everything was marked as damaged, the next look reports every tile
/// but those whose pixels happen to hash to zero.
pub proof fn law_full_refresh_reports_all_tiles(fb: TileFramebuffer, t: int)
    requires
        fb.wf(),
        fb.dirty() == Seq::new(fb.tile_count() as nat, |t: int| true),
        fb.hashes() == Seq::new(fb.tile_count() as nat, |t: int| 0u64),
        0 <= t < fb.tile_count(),
        framebuffer::tile_hash(fb.buffer@, fb.width, fb.height, t) != 0,
    ensures
        fb.damage_among(fb.tile_count() as nat).contains(
            framebuffer::tile_rect(fb.width, fb.height, t),
        ),
{
    assert(fb.changed(t));
    law_damage_is_changed_tiles(fb, fb.tile_count() as nat);
}

/// On a screen whose coordinates fit in 16 bits, every pixel lies in the area
/// of the tile that its coordinates name.
pub proof fn law_tiles_cover_the_screen(width: u32, height: u32, x: int, y: int)
    requires
        width <= 65536,
        height <= 65536,
        0 <= x < width,
        0 <= y < height,
    ensures
        ({
            let t = y / 64 * framebuffer::tiles_across(width) + x / 64;
            let r = framebuffer::tile_rect(width, height, t);
            &&& 0 <= t < framebuffer::tiles_across(width) * framebuffer::tiles_across(height)
            &&& r.x <= x < r.x + r.width
            &&& r.y <= y < r.y + r.height
        }),
{
    let n = framebuffer::tiles_across(width) as int;
    let m = framebuffer::tiles_across(height) as int;
    let t = y / 64 * n + x / 64;
    grid::lemma_cell(t, n, y / 64, x / 64);
    grid::lemma_row_end(n, y / 64, m, x / 64 + 1);
    assert(n * m == m * n) by (nonlinear_arith);
}

/// What was drawn is read back: after an image that lies on the screen was
/// drawn, reading its area in the framebuffer's own layout gives the image.
pub proof fn law_read_gives_back_what_was_drawn(
    before: Seq<u8>,
    fb: TileFramebuffer,
    rect: Rect,
    f: PixelFormat,
    src: Seq<u8>,
    src_stride: int,
    out: Seq<u8>,
)
    requires
        fb.wf(),
        f.is_bgra(),
        0 < rect.width,
        0 < rect.height,
        rect.x + rect.width <= fb.width,
        rect.y + rect.height <= fb.height,
        0 <= src_stride,
        (rect.height - 1) * src_stride + rect.width * 4 <= src.len(),
        before.len() == fb.buffer@.len(),
        fb.buffer@ == framebuffer::drawn(
            before,
            fb.stride as int,
            rect.x as int,
            rect.y as int,
            rect.width as int,
            rect.height as int,
            src,
            src_stride,
        ),
        out.len() == rect.width * rect.height * 4,
    ensures
        fb.extracted(rect, f, out) == Seq::new(
            (rect.width * rect.height * 4) as nat,
            |k: int| src[k / (rect.width * 4) * src_stride + k % (rect.width * 4)],
        ),
{
    let w = rect.width as int;
    let h = rect.height as int;
    let row_len = w * 4;
    let got = fb.extracted(rect, f, out);
    let want = Seq::new(
        (rect.width * rect.height * 4) as nat,
        |k: int| src[k / (rect.width * 4) * src_stride + k % (rect.width * 4)],
    );
    assert(w * h * 4 == h * row_len) by (nonlinear_arith)
        requires
            row_len == w * 4,
    ;
    assert forall|k: int| 0 <= k < out.len() implies got[k] == want[k] by {
        grid::lemma_cell_in_rows(k, row_len, h);
        let row = k / row_len;
        let at = k % row_len;
        let col = at / 4;
        let i = at % 4;
        grid::lemma_row_end(row_len, row, h, row_len);
        let stride = fb.stride as int;
        let p = (rect.y + row) * stride + (rect.x + col) * 4;
        let b = p + i;
        grid::lemma_cell(b, stride, rect.y + row, (rect.x + col) * 4 + i);
        grid::lemma_row_end(stride, rect.y + row, fb.height as int, (rect.x + col + 1) * 4);
        assert(fb.height * stride == stride * fb.height) by (nonlinear_arith);
        assert(row * src_stride <= (h - 1) * src_stride) by (nonlinear_arith)
            requires
                row <= h - 1,
                0 <= src_stride,
        ;
        let px = fb.pixel_in(rect.x + col, rect.y + row, f);
        assert(px[i] == fb.buffer@[b]);
    }
    assert(got =~= want);
}

/// What was drawn is read in any format: each pixel of an image that lies on
/// the screen, in a row that the image's data holds in full, is afterwards the
/// pixel at its place.
pub proof fn law_drawn_pixels_are_read(
    before: TileFramebuffer,
    after: TileFramebuffer,
    x: u32,
    y: u32,
    w: u32,
    h: u32,
    src: Seq<u8>,
    src_stride: int,
    col: int,
    row: int,
    f: PixelFormat,
)
    requires
        before.wf(),
        after.has_image(&before, x, y, w, h, src, src_stride),
        framebuffer::on_screen(&before, x, y, w, h),
        0 <= col < framebuffer::clamped(w, x, before.width),
        0 <= row < framebuffer::clamped(h, y, before.height),
        0 <= src_stride,
        row * src_stride + framebuffer::clamped(w, x, before.width) * 4 <= src.len(),
    ensures
        ({
            let at = row * src_stride + col * 4;
            after.pixel_in(x + col, y + row, f) == pixel::pixel_bytes(
                src[at],
                src[at + 1],
                src[at + 2],
                src[at + 3],
                f,
            )
        }),
{
    let stride = before.stride as int;
    let p = (y + row) * stride + (x + col) * 4;
    assert(0 <= row * src_stride) by (nonlinear_arith)
        requires
            0 <= row,
            0 <= src_stride,
    ;
    grid::lemma_row_end(stride, y + row, before.height as int, (x + col + 1) * 4);
    assert(before.height * stride == stride * before.height) by (nonlinear_arith);
    grid::lemma_cell(p, stride, y + row, (x + col) * 4);
    grid::lemma_cell(p + 1, stride, y + row, (x + col) * 4 + 1);
    grid::lemma_cell(p + 2, stride, y + row, (x + col) * 4 + 2);
    grid::lemma_cell(p + 3, stride, y + row, (x + col) * 4 + 3);
}

/// Row `r` of an area, as an area of its own.
pub open spec fn row_rect(rect: Rect, r: int) -> Rect {
    Rect { x: rect.x, y: (rect.y + r) as u16, width: rect.width, height: 1 }
}

/// The first `n` rows of an area, each read on its own, one after the other.
pub open spec fn rows_joined(fb: TileFramebuffer, rect: Rect, f: PixelFormat, n: nat) -> Seq<u8>
    decreases n,
{
    if n == 0 {
        Seq::empty()
    } else {
        rows_joined(fb, rect, f, (n - 1) as nat) + fb.area(row_rect(rect, n - 1), f)
    }
}

/// Reading an area into `out` writes each row as reading that row alone would,
/// however many rows there are.
pub proof fn law_rows_are_read_one_by_one(
    fb: TileFramebuffer,
    rect: Rect,
    f: PixelFormat,
    out: Seq<u8>,
    r: int,
)
    requires
        0 <= r < rect.height,
        rect.y + r <= u16::MAX,
        (r + 1) * (rect.width * f.bytes_per_pixel()) <= out.len(),
    ensures
        ({
            let stride = rect.width * f.bytes_per_pixel();
            fb.extracted(rect, f, out).subrange(r * stride, (r + 1) * stride) == fb.extracted(
                row_rect(rect, r),
                f,
                out.subrange(r * stride, (r + 1) * stride),
            )
        }),
{
    let bpp = f.bytes_per_pixel() as int;
    let stride = rect.width * bpp;
    assert(0 <= stride && 0 <= r * stride && (r + 1) * stride == r * stride + stride)
        by (nonlinear_arith)
        requires
            0 <= r,
            0 <= bpp,
            stride == rect.width * bpp,
    ;
    let part = out.subrange(r * stride, (r + 1) * stride);
    let got = fb.extracted(rect, f, out).subrange(r * stride, (r + 1) * stride);
    let want = fb.extracted(row_rect(rect, r), f, part);
    if rect.width > 0 && bpp > 0 {
        assert(0 < stride) by (nonlinear_arith)
            requires
                0 < rect.width,
                0 < bpp,
                stride == rect.width * bpp,
        ;
        assert forall|i: int| 0 <= i < stride implies got[i] == want[i] by {
            grid::lemma_cell(r * stride + i, stride, r, i);
            grid::lemma_cell(i, stride, 0, i);
        }
    }
    assert(got =~= want);
}

proof fn lemma_area_len(fb: TileFramebuffer, rect: Rect, f: PixelFormat)
    ensures
        fb.area(rect, f).len() == rect.width * rect.height * f.bytes_per_pixel(),
        fb.area(rect, f).len() == rect.height * (rect.width * f.bytes_per_pixel()),
{
    let w = rect.width as int;
    let h = rect.height as int;
    let bpp = f.bytes_per_pixel() as int;
    assert(0 <= w * h * bpp && w * h * bpp == h * (w * bpp)) by (nonlinear_arith)
        requires
            0 <= w,
            0 <= h,
            0 <= bpp,
    ;
}

proof fn lemma_first_rows(fb: TileFramebuffer, rect: Rect, f: PixelFormat, n: nat)
    requires
        n <= rect.height,
        rect.y + rect.height <= 65536,
    ensures
        n * (rect.width * f.bytes_per_pixel()) <= fb.area(rect, f).len(),
        fb.area(rect, f).take(n * (rect.width * f.bytes_per_pixel())) == rows_joined(
            fb,
            rect,
            f,
            n,
        ),
    decreases n,
{
    let stride = rect.width * f.bytes_per_pixel();
    let all = fb.area(rect, f);
    lemma_area_len(fb, rect, f);
    assert(0 <= stride) by (nonlinear_arith)
        requires
            stride == rect.width * f.bytes_per_pixel(),
    ;
    assert(n * stride <= rect.height * stride) by (nonlinear_arith)
        requires
            0 <= stride,
            n <= rect.height,
    ;
    if n > 0 {
        let r = n - 1;
        lemma_first_rows(fb, rect, f, r as nat);
        assert(n * stride == r * stride + stride && 0 <= r * stride) by (nonlinear_arith)
            requires
                r == n - 1,
                0 <= r,
                0 <= stride,
        ;
        let blank = Seq::new(
            (rect.width * rect.height * f.bytes_per_pixel()) as nat,
            |k: int| 0u8,
        );
        law_rows_are_read_one_by_one(fb, rect, f, blank, r);
        let row = row_rect(rect, r);
        assert(rect.width * 1 * f.bytes_per_pixel() == stride) by (nonlinear_arith)
            requires
                stride == rect.width * f.bytes_per_pixel(),
        ;
        assert(blank.subrange(r * stride, n * stride) =~= Seq::new(
            (row.width * row.height * f.bytes_per_pixel()) as nat,
            |k: int| 0u8,
        ));
        assert(all.take(n * stride) =~= all.take(r * stride) + all.subrange(
            r * stride,
            n * stride,
        ));
    } else {
        assert(0 * stride == 0) by (nonlinear_arith);
        assert(all.take(0) =~= Seq::empty());
    }
}

/// An area is its rows, read one by one and joined: large areas, whose rows are
/// converted by several threads, and small ones read alike. This holds wherever
/// the area lies, as long as its rows have 16-bit numbers.
pub proof fn law_area_is_its_rows(fb: TileFramebuffer, rect: Rect, f: PixelFormat)
    requires
        rect.y + rect.height <= 65536,
    ensures
        fb.area(rect, f).len() == rect.width * rect.height * f.bytes_per_pixel(),
        fb.area(rect, f) == rows_joined(fb, rect, f, rect.height as nat),
{
    lemma_area_len(fb, rect, f);
    lemma_first_rows(fb, rect, f, rect.height as nat);
    assert(fb.area(rect, f).take(fb.area(rect, f).len() as int) =~= fb.area(rect, f));
}

/// The pixel in column `col` of row `row` of an area is that of the screen, in
/// the format asked for, and zero where the area reaches beyond the screen.
pub proof fn law_pixels_of_an_area(
    fb: TileFramebuffer,
    rect: Rect,
    f: PixelFormat,
    col: int,
    row: int,
)
    requires
        0 <= col < rect.width,
        0 <= row < rect.height,
        0 < f.bytes_per_pixel() <= 4,
    ensures
        ({
            let bpp = f.bytes_per_pixel() as int;
            let at = (row * rect.width + col) * bpp;
            &&& 0 <= at
            &&& at + bpp <= fb.area(rect, f).len()
            &&& fb.area(rect, f).subrange(at, at + bpp) == if rect.x + col < fb.width && rect.y
                + row < fb.height {
                fb.pixel_in(rect.x + col, rect.y + row, f)
            } else {
                Seq::new(bpp as nat, |i: int| 0u8)
            }
        }),
{
    let w = rect.width as int;
    let bpp = f.bytes_per_pixel() as int;
    let stride = w * bpp;
    let at = (row * w + col) * bpp;
    lemma_area_len(fb, rect, f);
    grid::lemma_row_end(bpp, col, w, bpp);
    assert(at == row * stride + col * bpp) by (nonlinear_arith)
        requires
            at == (row * w + col) * bpp,
            stride == w * bpp,
    ;
    grid::lemma_row_end(stride, row, rect.height as int, stride);
    let got = fb.area(rect, f).subrange(at, at + bpp);
    let want = if rect.x + col < fb.width && rect.y + row < fb.height {
        fb.pixel_in(rect.x + col, rect.y + row, f)
    } else {
        Seq::new(bpp as nat, |i: int| 0u8)
    };
    assert forall|i: int| 0 <= i < bpp implies got[i] == want[i] by {
        grid::lemma_cell(at + i, stride, row, col * bpp + i);
        grid::lemma_cell(col * bpp + i, bpp, col, i);
    }
    assert(got =~= want);
}

/// Where the pixel in column `col` of row `row` of an area starts in the
/// framebuffer's bytes.
pub open spec fn offset_of(fb: TileFramebuffer, rect: Rect, col: int, row: int) -> int {
    ((rect.y + row) * fb.width + rect.x + col) * 4
}

/// A pixel of the screen read as red, green and blue.
pub proof fn lemma_pixel_in_rgb(fb: TileFramebuffer, rect: Rect, col: int, row: int)
    requires
        fb.wf(),
        0 <= col < rect.width,
        0 <= row < rect.height,
    ensures
        ({
            let at = offset_of(fb, rect, col, row);
            fb.pixel_in(rect.x + col, rect.y + row, pixel::eight_bit_channels(24, 0, 16)) == seq![
                fb.buffer@[at + 2],
                fb.buffer@[at + 1],
                fb.buffer@[at],
            ]
        }),
{
    lemma_offset_of(fb, rect, col, row);
}

proof fn lemma_offset_of(fb: TileFramebuffer, rect: Rect, col: int, row: int)
    requires
        fb.wf(),
    ensures
        offset_of(fb, rect, col, row) == (rect.y + row) * fb.stride + (rect.x + col) * 4,
{
    let y = rect.y + row;
    let x = rect.x + col;
    let w = fb.width as int;
    assert((y * w + x) * 4 == y * (w * 4) + x * 4) by (nonlinear_arith);
}

/// An area is read from where it lies: in the framebuffer's own layout, each of
/// its pixels is the four bytes of the framebuffer at the pixel's place, row
/// after row of the screen.
pub proof fn law_area_is_read_from_its_place(
    fb: TileFramebuffer,
    rect: Rect,
    col: int,
    row: int,
)
    requires
        fb.wf(),
        0 <= col < rect.width,
        0 <= row < rect.height,
        rect.x + col < fb.width,
        rect.y + row < fb.height,
    ensures
        ({
            let area = fb.area(rect, pixel::eight_bit_channels(32, 16, 0));
            let at = (row * rect.width + col) * 4;
            let from = ((rect.y + row) * fb.width + rect.x + col) * 4;
            area.subrange(at, at + 4) == fb.buffer@.subrange(from, from + 4)
        }),
{
    let f = pixel::eight_bit_channels(32, 16, 0);
    law_pixels_of_an_area(fb, rect, f, col, row);
    lemma_offset_of(fb, rect, col, row);
    let y = rect.y + row;
    let from = offset_of(fb, rect, col, row);
    let stride = fb.stride as int;
    grid::lemma_row_end(stride, y, fb.height as int, (rect.x + col + 1) * 4);
    assert(fb.height * stride == stride * fb.height) by (nonlinear_arith);
    assert(fb.pixel_in(rect.x + col, y, f) =~= fb.buffer@.subrange(from, from + 4));
}

/// Damage lies where something was drawn: on a screen without flagged tiles,
/// an image can only damage tiles that it touches.
pub proof fn law_damage_lies_where_drawn(
    shown: TileFramebuffer,
    after: TileFramebuffer,
    x: u32,
    y: u32,
    w: u32,
    h: u32,
    src: Seq<u8>,
    src_stride: int,
    t: int,
)
    requires
        shown.wf(),
        forall|t: int| 0 <= t < shown.tile_count() ==> !shown.dirty()[t],
        framebuffer::on_screen(&shown, x, y, w, h),
        after.has_image(&shown, x, y, w, h, src, src_stride),
        0 <= t < shown.tile_count(),
        after.changed(t),
    ensures
        framebuffer::tile_touched(
            t % (shown.tiles_x as int),
            t / (shown.tiles_x as int),
            x as int,
            y as int,
            framebuffer::clamped(w, x, shown.width),
            framebuffer::clamped(h, y, shown.height),
        ),
{
    assert(!shown.dirty()[t]);
}

/// Drawing puts each pixel of the image in its place and touches nothing else:
/// the pixel at (`px`, `py`) is afterwards that of the image, four bytes at its
/// row and column, if it lies in the image and the image's data holds that row in
/// full up to the edge of the screen; and is what it was otherwise.
pub proof fn law_drawing_stays_in_its_place(
    before: TileFramebuffer,
    after: TileFramebuffer,
    x: u32,
    y: u32,
    w: u32,
    h: u32,
    src: Seq<u8>,
    src_stride: int,
    px: int,
    py: int,
)
    requires
        before.wf(),
        after.has_image(&before, x, y, w, h, src, src_stride),
        0 <= src_stride,
        0 <= px < before.width,
        0 <= py < before.height,
    ensures
        ({
            let shown = if x + w < before.width {
                w as int
            } else {
                before.width - x
            };
            let row = (py - y) * src_stride;
            pixel_at(after.buffer@, before.width, px, py) == if x <= px < x + w && y <= py < y + h
                && row + shown * 4 <= src.len() {
                src.subrange(row + (px - x) * 4, row + (px - x) * 4 + 4)
            } else {
                pixel_at(before.buffer@, before.width, px, py)
            }
        }),
        after.width == before.width,
        after.height == before.height,
        after.format == before.format,
        after.hashes() == before.hashes(),
{
    let stride = before.stride as int;
    let at = (py * before.width + px) * 4;
    assert(at == py * stride + px * 4) by (nonlinear_arith)
        requires
            at == (py * before.width + px) * 4,
            stride == before.width * 4,
    ;
    grid::lemma_row_end(stride, py, before.height as int, (px + 1) * 4);
    assert(before.height * stride == stride * before.height) by (nonlinear_arith);
    grid::lemma_cell(at, stride, py, px * 4);
    grid::lemma_cell(at + 1, stride, py, px * 4 + 1);
    grid::lemma_cell(at + 2, stride, py, px * 4 + 2);
    grid::lemma_cell(at + 3, stride, py, px * 4 + 3);
    let shown = if x + w < before.width {
        w as int
    } else {
        before.width - x
    };
    let row = (py - y) * src_stride;
    if x <= px < x + w && y <= py < y + h {
        assert(0 <= row) by (nonlinear_arith)
            requires
                row == (py - y) * src_stride,
                0 <= py - y,
                0 <= src_stride,
        ;
        assert(shown == framebuffer::clamped(w, x, before.width));
    }
    let got = pixel_at(after.buffer@, before.width, px, py);
    let want = if x <= px < x + w && y <= py < y + h && row + shown * 4 <= src.len() {
        src.subrange(row + (px - x) * 4, row + (px - x) * 4 + 4)
    } else {
        pixel_at(before.buffer@, before.width, px, py)
    };
    assert forall|i: int| 0 <= i < 4 implies got[i] == want[i] by {
        assert(i == 0 || i == 1 || i == 2 || i == 3);
    }
    assert(got =~= want);
}

/// Taking an area over from a frame gives it the frame's pixels at the same
/// places and touches nothing else; rows that the frame does not hold up to the
/// end of the area are left out.
pub proof fn law_frame_is_taken_over_in_place(
    before: TileFramebuffer,
    after: TileFramebuffer,
    x: u32,
    y: u32,
    w: u32,
    h: u32,
    frame: Seq<u8>,
    px: int,
    py: int,
)
    requires
        before.wf(),
        after.has_frame(&before, x, y, w, h, frame),
        0 <= px < before.width,
        0 <= py < before.height,
    ensures
        ({
            let right = if x + w < before.width {
                x + w
            } else {
                before.width as int
            };
            pixel_at(after.buffer@, before.width, px, py) == if x <= px < x + w && y <= py < y + h
                && (py * before.width + right) * 4 <= frame.len() {
                pixel_at(frame, before.width, px, py)
            } else {
                pixel_at(before.buffer@, before.width, px, py)
            }
        }),
        after.width == before.width,
        after.height == before.height,
        after.format == before.format,
        after.hashes() == before.hashes(),
{
    let stride = before.stride as int;
    let at = (py * before.width + px) * 4;
    let right = if x + w < before.width {
        x + w
    } else {
        before.width as int
    };
    assert(at == py * stride + px * 4 && (py * before.width + right) * 4 == py * stride + right * 4)
        by (nonlinear_arith)
        requires
            at == (py * before.width + px) * 4,
            stride == before.width * 4,
    ;
    grid::lemma_row_end(stride, py, before.height as int, (px + 1) * 4);
    assert(before.height * stride == stride * before.height) by (nonlinear_arith);
    grid::lemma_cell(at, stride, py, px * 4);
    grid::lemma_cell(at + 1, stride, py, px * 4 + 1);
    grid::lemma_cell(at + 2, stride, py, px * 4 + 2);
    grid::lemma_cell(at + 3, stride, py, px * 4 + 3);
    if x <= px < x + w && y <= py < y + h {
        assert(right == x + framebuffer::clamped(w, x, before.width));
    }
    let got = pixel_at(after.buffer@, before.width, px, py);
    let want = if x <= px < x + w && y <= py < y + h && (py * before.width + right) * 4
        <= frame.len() {
        pixel_at(frame, before.width, px, py)
    } else {
        pixel_at(before.buffer@, before.width, px, py)
    };
    assert forall|i: int| 0 <= i < 4 implies got[i] == want[i] by {
        assert(i == 0 || i == 1 || i == 2 || i == 3);
    }
    assert(got =~= want);
}

/// Tiles lie side by side: a pixel that lies in the area of a tile is one of the
/// screen, and lies in the area of no other tile.
pub proof fn law_tiles_lie_side_by_side(
    width: u32,
    height: u32,
    s: int,
    t: int,
    px: int,
    py: int,
)
    requires
        width <= 65536,
        height <= 65536,
        0 <= s < framebuffer::tiles_across(width) * framebuffer::tiles_across(height),
        0 <= t < framebuffer::tiles_across(width) * framebuffer::tiles_across(height),
        ({
            let a = framebuffer::tile_rect(width, height, s);
            a.x <= px < a.x + a.width && a.y <= py < a.y + a.height
        }),
        ({
            let b = framebuffer::tile_rect(width, height, t);
            b.x <= px < b.x + b.width && b.y <= py < b.y + b.height
        }),
    ensures
        s == t,
        px < width,
        py < height,
{
    let n = framebuffer::tiles_across(width) as int;
    let m = framebuffer::tiles_across(height) as int;
    framebuffer::lemma_tile_on_screen(width, height, s);
    framebuffer::lemma_tile_on_screen(width, height, t);
    assert(n * m == m * n) by (nonlinear_arith);
    assert(0 < n) by (nonlinear_arith)
        requires
            0 <= n,
            0 <= s < n * m,
    ;
    grid::lemma_cell_in_rows(s, n, m);
    grid::lemma_cell_in_rows(t, n, m);
    assert(s % n == t % n && s / n == t / n);
}

/// Reading an area fills whole rows from the start of `out` and leaves the rest
/// alone: what lies behind the rows of the area, and a row for which there is no
/// room.
pub proof fn law_reading_leaves_the_rest_alone(
    fb: TileFramebuffer,
    rect: Rect,
    f: PixelFormat,
    out: Seq<u8>,
    k: int,
)
    requires
        0 <= k < out.len(),
        ({
            let stride = rect.width * f.bytes_per_pixel();
            stride == 0 || k >= rect.height * stride || k / stride * stride + stride > out.len()
        }),
    ensures
        fb.extracted(rect, f, out).len() == out.len(),
        fb.extracted(rect, f, out)[k] == out[k],
{
    let stride = rect.width * f.bytes_per_pixel();
    if rect.width > 0 && rect.height > 0 && f.bytes_per_pixel() > 0 {
        assert(stride > 0) by (nonlinear_arith)
            requires
                0 < rect.width,
                0 < f.bytes_per_pixel(),
                stride == rect.width * f.bytes_per_pixel(),
        ;
        if k >= rect.height * stride {
            vstd::arithmetic::div_mod::lemma_fundamental_div_mod(k, stride);
            vstd::arithmetic::div_mod::lemma_mod_bound(k, stride);
            let q = k / stride;
            assert(q >= rect.height) by (nonlinear_arith)
                requires
                    k >= rect.height * stride,
                    k < stride * q + stride,
                    0 < stride,
            ;
        }
    }
}

/// What reading an area does to `out`, pixel by pixel, where there is room for the
/// pixel's row: a pixel of the screen is written in its format, as far as that has
/// bytes, and its spare bytes are left alone; right of the screen there are zeros; a
/// row below the screen, or an area that starts right of it, is left alone.
pub proof fn law_pixels_read_into(
    fb: TileFramebuffer,
    rect: Rect,
    f: PixelFormat,
    out: Seq<u8>,
    col: int,
    row: int,
    i: int,
)
    requires
        0 <= col < rect.width,
        0 <= row < rect.height,
        0 <= i < f.bytes_per_pixel(),
        (row + 1) * (rect.width * f.bytes_per_pixel()) <= out.len(),
    ensures
        ({
            let at = (row * rect.width + col) * f.bytes_per_pixel() + i;
            &&& 0 <= at < out.len()
            &&& fb.extracted(rect, f, out)[at] == if rect.y + row >= fb.height || rect.x
                >= fb.width {
                out[at]
            } else if rect.x + col >= fb.width {
                0
            } else if i >= 4 {
                out[at]
            } else {
                fb.pixel_in(rect.x + col, rect.y + row, f)[i]
            }
        }),
{
    let w = rect.width as int;
    let bpp = f.bytes_per_pixel() as int;
    let stride = w * bpp;
    let at = (row * w + col) * bpp + i;
    grid::lemma_row_end(bpp, col, w, i + 1);
    assert(at == row * stride + (col * bpp + i) && (row + 1) * stride == row * stride + stride && 0
        <= row * stride) by (nonlinear_arith)
        requires
            at == (row * w + col) * bpp + i,
            stride == w * bpp,
            0 <= row,
            0 <= w,
            0 <= bpp,
    ;
    grid::lemma_cell(at, stride, row, col * bpp + i);
    grid::lemma_cell(col * bpp + i, bpp, col, i);
}

} // verus!
