//! Buffers that Wayland clients attach.

use crate::display::shared::SharedFramebuffer;
use vstd::prelude::*;

verus! {

/// A headless compositor: its socket's name and its size.
#[derive(Debug)]
pub struct HeadlessWaylandCompositor {
    pub display_name: String,
    pub width: u32,
    pub height: u32,
}

impl HeadlessWaylandCompositor {
    pub fn new(display_name: String, width: u32, height: u32) -> (r: Self)
        ensures
            r == (HeadlessWaylandCompositor { display_name, width, height }),
    {
        HeadlessWaylandCompositor { display_name, width, height }
    }

    /// Draws a buffer that a client attached and counts the change. Returns the
    /// number of the change.
    pub fn attach_shm_buffer(
        &self,
        framebuffer: &mut SharedFramebuffer,
        x: u32,
        y: u32,
        w: u32,
        h: u32,
        data: &[u8],
        stride: usize,
    ) -> (number: u64)
        requires
            old(framebuffer).inner.wf(),
        ensures
            final(framebuffer).inner.wf(),
            old(framebuffer).inner.in_step() ==> final(framebuffer).inner.in_step(),
            final(framebuffer).inner.has_image(
                &old(framebuffer).inner,
                x,
                y,
                w,
                h,
                data@,
                stride as int,
            ),
            number == old(framebuffer).frame_counter.wrapping_add(1),
            final(framebuffer).frame_counter == number,
            final(framebuffer).full_capture_requested == old(framebuffer).full_capture_requested,
    {
        framebuffer.inner.update_rect(x, y, w, h, data, stride);
        framebuffer.notify_damage()
    }
}

} // verus!
