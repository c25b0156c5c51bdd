//! The framebuffer together with what its readers and writers tell each other.

use crate::display::framebuffer;
use crate::display::framebuffer::TileFramebuffer;
use crate::display::pixel;
use vstd::prelude::*;

verus! {

/// A framebuffer, the number of the last change told to its readers, and
/// whether somebody waits for the whole screen to be captured.
pub struct SharedFramebuffer {
    pub inner: TileFramebuffer,
    pub frame_counter: u64,
    pub full_capture_requested: bool,
}

/// The number of the change after number `n`.
pub open spec fn number_after(n: u64) -> u64 {
    n.wrapping_add(1)
}

impl SharedFramebuffer {
    /// Whether this is a new black screen of the given size: every tile flagged
    /// and none looked at yet, nothing told to readers but the first number, and
    /// a full capture due.
    pub open spec fn starts(&self, width: u32, height: u32) -> bool {
        &&& self.inner.wf()
        &&& self.inner.in_step()
        &&& self.inner.width == width
        &&& self.inner.height == height
        &&& self.inner.format == pixel::eight_bit_channels(32, 16, 0)
        &&& self.inner.buffer@ == Seq::new((width * 4 * height) as nat, |k: int| 0u8)
        &&& self.inner.dirty() == Seq::new(self.inner.tile_count() as nat, |t: int| true)
        &&& self.inner.hashes() == Seq::new(self.inner.tile_count() as nat, |t: int| 0u64)
        &&& self.inner.frame_version == 1
        &&& self.frame_counter == 1
        &&& self.full_capture_requested
    }

    /// A black screen, of which a first full capture is due.
    pub fn new(width: u32, height: u32) -> (r: Self)
        requires
            framebuffer::size_supported(width, height),
        ensures
            r.starts(width, height),
    {
        SharedFramebuffer {
            inner: TileFramebuffer::new(width, height),
            frame_counter: 1,
            full_capture_requested: true,
        }
    }

    /// Counts a change and returns its number, for the readers.
    pub fn notify_damage(&mut self) -> (number: u64)
        ensures
            number == number_after(old(self).frame_counter),
            *final(self) == (SharedFramebuffer { frame_counter: number, ..*old(self) }),
    {
        self.frame_counter = self.frame_counter.wrapping_add(1);
        self.frame_counter
    }

    /// A capture has been drawn: tells the readers, as any other change.
    pub fn note_capture_complete(&mut self) -> (number: u64)
        ensures
            number == number_after(old(self).frame_counter),
            *final(self) == (SharedFramebuffer { frame_counter: number, ..*old(self) }),
    {
        self.notify_damage()
    }

    /// Asks for the whole screen to be captured next.
    pub fn request_full_capture(&mut self)
        ensures
            *final(self) == (SharedFramebuffer { full_capture_requested: true, ..*old(self) }),
    {
        self.full_capture_requested = true;
    }

    /// Takes a pending request for a full capture. Once taken, it is gone until
    /// the next one.
    pub fn take_full_capture_request(&mut self) -> (due: bool)
        ensures
            due == old(self).full_capture_requested,
            *final(self) == (SharedFramebuffer { full_capture_requested: false, ..*old(self) }),
    {
        let due = self.full_capture_requested;
        self.full_capture_requested = false;
        due
    }
}

/// Every change has a number of its own: another than the one before, and one more
/// as long as there are any.
pub proof fn law_changes_are_numbered(n: u64)
    ensures
        number_after(n) != n,
        n < u64::MAX ==> number_after(n) == n + 1,
{
}

/// A new screen is black, in four bytes to the pixel, blue first; all of it is to be
/// looked at and captured.
pub proof fn law_new_screen_is_black(s: SharedFramebuffer, width: u32, height: u32, k: int)
    requires
        s.starts(width, height),
    ensures
        s.inner.buffer@.len() == width * 4 * height,
        0 <= k < s.inner.buffer@.len() ==> s.inner.buffer@[k] == 0,
        0 <= k < s.inner.tile_count() ==> s.inner.dirty()[k],
        s.full_capture_requested,
        s.inner.format.bits_per_pixel == 32 && s.inner.format.red_shift == 16
            && s.inner.format.green_shift == 8 && s.inner.format.blue_shift == 0,
{
}

} // verus!
