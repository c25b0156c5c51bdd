//! Reading areas of the framebuffer in a client's pixel format.

use crate::display::framebuffer::TileFramebuffer;
use crate::display::grid;
use crate::display::pixel;
use crate::display::pixel::{convert_pixel, PixelFormat};
use crate::display::rect::Rect;
use rayon::iter::{IndexedParallelIterator, ParallelIterator};
use rayon::slice::ParallelSliceMut;
use vstd::prelude::*;

verus! {

/// Areas with at least this many rows are converted by several threads.
pub const PARALLEL_ROWS: u16 = 16;

impl TileFramebuffer {
    /// The pixel at column `x` of row `y`, in format `f`.
    pub open spec fn pixel_in(&self, x: int, y: int, f: PixelFormat) -> Seq<u8> {
        let at = y * self.stride + x * 4;
        pixel::pixel_bytes(
            self.buffer@[at],
            self.buffer@[at + 1],
            self.buffer@[at + 2],
            self.buffer@[at + 3],
            f,
        )
    }

    /// Byte `i` of the pixel at column `x` of row `y`: zero to the right of the
    /// screen, and `kept` where the format leaves a byte alone.
    pub open spec fn byte_of_pixel(&self, x: int, y: int, f: PixelFormat, i: int, kept: u8) -> u8 {
        if x >= self.width {
            0
        } else if i < self.pixel_in(x, y, f).len() {
            self.pixel_in(x, y, f)[i]
        } else {
            kept
        }
    }

    /// `out` with the first `cols` pixels of row `row` of the area written from
    /// `start` on. A row outside the screen writes nothing.
    pub open spec fn row_written(
        &self,
        rect: Rect,
        f: PixelFormat,
        row: int,
        cols: int,
        out: Seq<u8>,
        start: int,
    ) -> Seq<u8> {
        let bpp = f.bytes_per_pixel() as int;
        Seq::new(
            out.len(),
            |k: int|
                if 0 <= k - start < cols * bpp && rect.y + row < self.height && rect.x
                    < self.width {
                    self.byte_of_pixel(
                        rect.x + (k - start) / bpp,
                        rect.y + row,
                        f,
                        (k - start) % bpp,
                        out[k],
                    )
                } else {
                    out[k]
                },
        )
    }

    /// `out` with the area written row after row from its start on, as far as
    /// whole rows fit.
    pub open spec fn extracted(&self, rect: Rect, f: PixelFormat, out: Seq<u8>) -> Seq<u8> {
        let bpp = f.bytes_per_pixel() as int;
        if rect.width == 0 || rect.height == 0 || bpp == 0 {
            out
        } else {
            self.rows_written(rect, f, rect.height as int, out)
        }
    }

    /// An area in format `f`; zero where the screen has no pixel.
    pub open spec fn area(&self, rect: Rect, f: PixelFormat) -> Seq<u8> {
        self.extracted(
            rect,
            f,
            Seq::new((rect.width * rect.height * f.bytes_per_pixel()) as nat, |k: int| 0u8),
        )
    }

    /// `out` with the first `rows` rows of the area written.
    pub open spec fn rows_written(
        &self,
        rect: Rect,
        f: PixelFormat,
        rows: int,
        out: Seq<u8>,
    ) -> Seq<u8> {
        let bpp = f.bytes_per_pixel() as int;
        let stride = rect.width * bpp;
        Seq::new(
            out.len(),
            |k: int|
                {
                    let row = k / stride;
                    let at = k % stride;
                    if row < rows && row * stride + stride <= out.len() && rect.y + row
                        < self.height && rect.x < self.width {
                        self.byte_of_pixel(rect.x + at / bpp, rect.y + row, f, at % bpp, out[k])
                    } else {
                        out[k]
                    }
                },
        )
    }

    fn write_pixel(
        &self,
        x: usize,
        y: usize,
        f: &PixelFormat,
        bpp: usize,
        out: &mut [u8],
        at: usize,
    )
        requires
            self.wf(),
            y < self.height,
            bpp == f.bytes_per_pixel(),
            0 < bpp,
            at + bpp <= old(out)@.len(),
        ensures
            final(out)@ == Seq::new(
                old(out)@.len(),
                |k: int|
                    if at <= k < at + bpp {
                        self.byte_of_pixel(x as int, y as int, *f, k - at, old(out)@[k])
                    } else {
                        old(out)@[k]
                    },
            ),
    {
        let ghost before = out@;
        let size: usize = out.len();
        let on_screen = x < self.width as usize;
        let pixel: [u8; 4] = if on_screen {
            proof {
                grid::lemma_row_end(
                    self.stride as int,
                    y as int,
                    self.height as int,
                    (x + 1) * 4,
                );
                assert(self.height * self.stride == self.stride * self.height)
                    by (nonlinear_arith);
            }
            let s: usize = y * self.stride + x * 4;
            convert_pixel(
                self.buffer[s],
                self.buffer[s + 1],
                self.buffer[s + 2],
                self.buffer[s + 3],
                f,
            )
        } else {
            [0, 0, 0, 0]
        };
        let count: usize = if on_screen && bpp > 4 {
            4
        } else {
            bpp
        };
        let ghost whole = self.pixel_in(x as int, y as int, *f);
        assert(on_screen ==> whole.len() == count && pixel@.take(count as int) == whole);
        let mut i: usize = 0;
        while i < count
            invariant
                i <= count,
                count <= bpp,
                size == before.len(),
                out@.len() == size,
                at + bpp <= size,
                on_screen == (x < self.width),
                on_screen ==> count <= 4 && whole.len() == count && pixel@.take(count as int)
                    == whole,
                whole == self.pixel_in(x as int, y as int, *f),
                forall|k: int|
                    0 <= k < size ==> #[trigger] out@[k] == if at <= k < at + i {
                        self.byte_of_pixel(x as int, y as int, *f, k - at, before[k])
                    } else {
                        before[k]
                    },
            decreases count - i,
        {
            if on_screen {
                assert(pixel@.take(count as int)[i as int] == pixel@[i as int]);
                out[at + i] = pixel[i];
            } else {
                out[at + i] = 0;
            }
            i = i + 1;
        }
        assert(out@ =~= Seq::new(
            before.len(),
            |k: int|
                if at <= k < at + bpp {
                    self.byte_of_pixel(x as int, y as int, *f, k - at, before[k])
                } else {
                    before[k]
                },
        ));
    }

    /// Converts one row of an area and writes it from `start` on.
    pub fn convert_row(
        &self,
        rect: &Rect,
        f: &PixelFormat,
        row: usize,
        out: &mut [u8],
        start: usize,
    )
        requires
            self.wf(),
            row < rect.height,
            0 < f.bytes_per_pixel(),
            start + rect.width * f.bytes_per_pixel() <= old(out)@.len(),
        ensures
            final(out)@ == self.row_written(
                *rect,
                *f,
                row as int,
                rect.width as int,
                old(out)@,
                start as int,
            ),
    {
        let ghost before = out@;
        let y: usize = rect.y as usize + row;
        let left: usize = rect.x as usize;
        if y >= self.height as usize || left >= self.width as usize {
            assert(out@ =~= self.row_written(
                *rect,
                *f,
                row as int,
                rect.width as int,
                before,
                start as int,
            ));
            return;
        }
        let cols: usize = rect.width as usize;
        let bpp: usize = (f.bits_per_pixel / 8) as usize;
        let size: usize = out.len();
        let mut col: usize = 0;
        assert(out@ =~= self.row_written(*rect, *f, row as int, 0, before, start as int));
        while col < cols
            invariant
                col <= cols,
                cols == rect.width,
                self.wf(),
                y == rect.y + row,
                y < self.height,
                left == rect.x,
                left < self.width,
                bpp == f.bytes_per_pixel(),
                0 < bpp,
                start + cols * bpp <= size,
                size == before.len(),
                out@ == self.row_written(
                    *rect,
                    *f,
                    row as int,
                    col as int,
                    before,
                    start as int,
                ),
            decreases cols - col,
        {
            proof {
                grid::lemma_row_end(bpp as int, col as int, cols as int, bpp as int);
                assert((col + 1) * bpp == col * bpp + bpp) by (nonlinear_arith);
            }
            let ghost prior = out@;
            let at: usize = start + col * bpp;
            self.write_pixel(left + col, y, f, bpp, out, at);
            col = col + 1;
            proof {
                let expected = self.row_written(
                    *rect,
                    *f,
                    row as int,
                    col as int,
                    before,
                    start as int,
                );
                assert forall|k: int| 0 <= k < expected.len() implies out@[k] == expected[k] by {
                    grid::lemma_row_range(k - start, bpp as int, col - 1, 0, bpp as int);
                    if at <= k < at + bpp {
                        grid::lemma_cell(k - start, bpp as int, col - 1, k - at);
                        assert(prior[k] == before[k]);
                    }
                }
                assert(out@ =~= expected);
            }
        }
    }

    /// Calls `par_chunks_exact_mut`, `take`, `enumerate` and `for_each` of
    /// rayon: `out` is cut into chunks of `stride` bytes, what is left at its
    /// end being left alone, and each of the first chunks, as many as the area
    /// has rows, is given to `convert_row` once, with its number as the row.
    #[verifier::external_body]
    fn convert_rows_in_parallel(
        &self,
        rect: &Rect,
        f: &PixelFormat,
        stride: usize,
        out: &mut [u8],
    )
        requires
            self.wf(),
            0 < stride,
            stride == rect.width * f.bytes_per_pixel(),
        ensures
            final(out)@.len() == old(out)@.len(),
            forall|row: int|
                0 <= row < rect.height && row * stride + stride <= old(out)@.len()
                    ==> #[trigger] final(out)@.subrange(row * stride, row * stride + stride)
                    == self.row_written(
                    *rect,
                    *f,
                    row,
                    rect.width as int,
                    old(out)@.subrange(row * stride, row * stride + stride),
                    0,
                ),
            forall|k: int|
                0 <= k < old(out)@.len() && (k / stride as int >= rect.height || k / stride as int
                    * stride + stride > old(out)@.len()) ==> #[trigger] final(out)@[k]
                    == old(out)@[k],
    {
        out.par_chunks_exact_mut(stride)
            .take(rect.height as usize)
            .enumerate()
            .for_each(|(row, chunk)| self.convert_row(rect, f, row, chunk, 0));
    }

    /// Converts the rows of an area one after the other.
    fn convert_rows(&self, rect: &Rect, f: &PixelFormat, stride: usize, out: &mut [u8])
        requires
            self.wf(),
            0 < f.bytes_per_pixel(),
            0 < stride,
            stride == rect.width * f.bytes_per_pixel(),
            rect.height < PARALLEL_ROWS,
        ensures
            final(out)@ == self.rows_written(*rect, *f, rect.height as int, old(out)@),
    {
        let ghost before = out@;
        let ghost n = stride as int;
        let rows: usize = rect.height as usize;
        let size: usize = out.len();
        let mut row: usize = 0;
        assert(stride <= 65535 * 31) by (nonlinear_arith)
            requires
                stride == rect.width * f.bytes_per_pixel(),
                rect.width <= 65535,
                f.bytes_per_pixel() <= 31,
        ;
        proof {
            let expected = self.rows_written(*rect, *f, 0, before);
            assert forall|k: int| 0 <= k < before.len() implies out@[k] == expected[k] by {
                vstd::arithmetic::div_mod::lemma_div_pos_is_pos(k, n);
            }
            assert(out@ =~= expected);
        }
        while row < rows
            invariant
                row <= rows,
                rows == rect.height,
                rect.height < PARALLEL_ROWS,
                self.wf(),
                0 < f.bytes_per_pixel(),
                0 < stride <= 65535 * 31,
                stride == rect.width * f.bytes_per_pixel(),
                n == stride,
                size == before.len(),
                out@ == self.rows_written(*rect, *f, row as int, before),
            decreases rows - row,
        {
            assert(row * stride <= 15 * (65535 * 31)) by (nonlinear_arith)
                requires
                    row <= 15,
                    stride <= 65535 * 31,
            ;
            let start: usize = row * stride;
            let ghost prior = out@;
            if start + stride <= size {
                self.convert_row(rect, f, row, out, start);
            }
            row = row + 1;
            proof {
                let expected = self.rows_written(*rect, *f, row as int, before);
                assert forall|k: int| 0 <= k < before.len() implies out@[k] == expected[k] by {
                    grid::lemma_row_range(k, n, row - 1, 0, n);
                    if k / n == row - 1 {
                        vstd::arithmetic::div_mod::lemma_fundamental_div_mod(k, n);
                        assert(n * (k / n) == (k / n) * n) by (nonlinear_arith);
                        assert(prior[k] == before[k]);
                    }
                }
                assert(out@ =~= expected);
            }
        }
    }

    /// Writes an area in the given format to `out`, row after row. Rows for
    /// which `out` has no room, and rows outside the screen, are left out;
    /// pixels to the right of the screen are zero.
    pub fn extract_rect_bytes_into(
        &self,
        rect: &Rect,
        target_format: &PixelFormat,
        out: &mut [u8],
    )
        requires
            self.wf(),
        ensures
            final(out)@ == self.extracted(*rect, *target_format, old(out)@),
    {
        let bpp: usize = (target_format.bits_per_pixel / 8) as usize;
        if rect.width == 0 || rect.height == 0 || bpp == 0 {
            return;
        }
        let ghost before = out@;
        let f = target_format;
        proof {
            assert(0 < rect.width * bpp <= 65535 * 31) by (nonlinear_arith)
                requires
                    0 < rect.width <= 65535,
                    0 < bpp <= 31,
            ;
        }
        let stride: usize = rect.width as usize * bpp;
        if rect.height >= PARALLEL_ROWS {
            self.convert_rows_in_parallel(rect, f, stride, out);
            proof {
                let expected = self.extracted(*rect, *f, before);
                assert forall|k: int| 0 <= k < before.len() implies out@[k] == expected[k] by {
                    let row = k / stride as int;
                    let at = k % stride as int;
                    let len = before.len() as int;
                    assert(k < len * stride) by (nonlinear_arith)
                        requires
                            0 <= k < len,
                            0 < stride,
                    ;
                    grid::lemma_cell_in_rows(k, stride as int, len);
                    if row < rect.height && row * stride + stride <= before.len() {
                        assert(out@.subrange(row * stride, row * stride + stride)[at] == out@[k]);
                    }
                }
                assert(out@ =~= expected);
            }
        } else {
            self.convert_rows(rect, f, stride, out);
        }
    }

    /// An area in the given format. Rows outside the screen, and pixels to the
    /// right of it, are zero.
    pub fn extract_rect_bytes(&self, rect: &Rect, target_format: &PixelFormat) -> (r: Vec<u8>)
        requires
            self.wf(),
            rect.width * rect.height * target_format.bytes_per_pixel() <= isize::MAX,
        ensures
            r@ == self.area(*rect, *target_format),
            r@.len() == rect.width * rect.height * target_format.bytes_per_pixel(),
    {
        let bpp: usize = (target_format.bits_per_pixel / 8) as usize;
        let ghost area = rect.width * rect.height;
        proof {
            assert(0 <= area <= 65535 * 65535) by (nonlinear_arith)
                requires
                    area == rect.width * rect.height,
                    0 <= rect.width <= 65535,
                    0 <= rect.height <= 65535,
            ;
            assert(if bpp == 0 {
                area * bpp == 0
            } else {
                area <= area * bpp
            }) by (nonlinear_arith)
                requires
                    0 <= area,
                    0 <= bpp,
            ;
        }
        let pixels: u64 = rect.width as u64 * rect.height as u64;
        let total: usize = if bpp == 0 {
            0
        } else {
            pixels as usize * bpp
        };
        let mut out: Vec<u8> = vec![0u8; total];
        assert(out@ =~= Seq::new(
            (rect.width * rect.height * target_format.bytes_per_pixel()) as nat,
            |k: int| 0u8,
        ));
        self.extract_rect_bytes_into(rect, target_format, out.as_mut_slice());
        out
    }
}

} // verus!
