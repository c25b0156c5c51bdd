//! A headless X11 display.

use crate::display::shared::SharedFramebuffer;
use crate::x11::detector;
use crate::x11::detector::X11Detector;
use vstd::prelude::*;

verus! {

/// A headless X11 display: its number, size, and the paths of its files.
#[derive(Debug)]
pub struct HeadlessX11Server {
    pub display_num: u32,
    pub width: u32,
    pub height: u32,
    pub depth: u32,
    pub lock_file: String,
    pub socket_path: String,
}

impl HeadlessX11Server {
    pub fn new(display_num: u32, width: u32, height: u32) -> (r: Self)
        ensures
            r.display_num == display_num,
            r.width == width,
            r.height == height,
            r.depth == 24,
            r.lock_file@ == detector::lock_path_of(display_num),
            r.socket_path@ == detector::socket_path_of(display_num),
    {
        let (lock_file, socket_path) = X11Detector::get_display_paths(display_num);
        HeadlessX11Server { display_num, width, height, depth: 24, lock_file, socket_path }
    }

    /// Draws the contents of a window and counts the change. Returns the number
    /// of the change.
    pub fn update_window_buffer(
        &self,
        framebuffer: &mut SharedFramebuffer,
        x: u32,
        y: u32,
        w: u32,
        h: u32,
        data: &[u8],
        stride: usize,
    ) -> (number: u64)
        requires
            old(framebuffer).inner.wf(),
        ensures
            final(framebuffer).inner.wf(),
            old(framebuffer).inner.in_step() ==> final(framebuffer).inner.in_step(),
            final(framebuffer).inner.has_image(
                &old(framebuffer).inner,
                x,
                y,
                w,
                h,
                data@,
                stride as int,
            ),
            number == old(framebuffer).frame_counter.wrapping_add(1),
            final(framebuffer).frame_counter == number,
            final(framebuffer).full_capture_requested == old(framebuffer).full_capture_requested,
    {
        framebuffer.inner.update_rect(x, y, w, h, data, stride);
        framebuffer.notify_damage()
    }
}

} // verus!
