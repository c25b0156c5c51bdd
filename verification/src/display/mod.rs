//! The virtual display: framebuffer, damage tracking and pixel formats.

pub mod extract;
pub mod framebuffer;
pub mod grid;
pub mod hash;
pub mod laws;
pub mod pixel;
pub mod rect;
pub mod shared;
pub mod wayland;
pub mod x11;

pub use framebuffer::{TileFramebuffer, TILE_SIZE};
pub use pixel::PixelFormat;
pub use rect::Rect;
pub use shared::SharedFramebuffer;
pub use wayland::HeadlessWaylandCompositor;
pub use x11::HeadlessX11Server;

use crate::numeral;
use crate::numeral::prefixed;
use crate::text::same_text;
use crate::x11::detector;
use vstd::prelude::*;

verus! {

/// A display with its framebuffer, and what feeds it.
pub struct VirtualDisplay {
    pub display_num: u32,
    pub width: u32,
    pub height: u32,
    pub depth: u8,
    pub mode: String,
    pub framebuffer: SharedFramebuffer,
    pub wayland: Option<HeadlessWaylandCompositor>,
    pub x11: Option<HeadlessX11Server>,
}

/// Whether a mode has a Wayland compositor.
pub open spec fn has_wayland(mode: Seq<char>) -> bool {
    mode == "wayland"@ || mode == "hybrid"@
}

/// Whether a mode has an X11 server.
pub open spec fn has_x11(mode: Seq<char>) -> bool {
    mode == "x11"@ || mode == "hybrid"@
}

impl VirtualDisplay {
    /// Whether this is a new display of the given number, size and mode: its
    /// screen, and each part that the mode has, are new and belong to it.
    pub open spec fn starts(
        &self,
        display_num: u32,
        width: u32,
        height: u32,
        mode: Seq<char>,
    ) -> bool {
        &&& self.display_num == display_num
        &&& self.width == width
        &&& self.height == height
        &&& self.depth == 24
        &&& self.mode@ == mode
        &&& self.framebuffer.starts(width, height)
        &&& self.wayland is Some == has_wayland(mode)
        &&& self.wayland matches Some(w) ==> w.display_name@ == "wayland-"@ + numeral::decimal(
            display_num as nat,
        ) && w.width == width && w.height == height
        &&& self.x11 is Some == has_x11(mode)
        &&& self.x11 matches Some(x) ==> x.display_num == display_num && x.width == width
            && x.height == height && x.depth == 24 && x.lock_file@ == detector::lock_path_of(
            display_num,
        ) && x.socket_path@ == detector::socket_path_of(display_num)
    }

    /// A display of the given mode: "wayland", "x11" or, for both, "hybrid".
    /// Any other mode has neither.
    pub fn new(display_num: u32, width: u32, height: u32, mode: &str) -> (r: Self)
        requires
            framebuffer::size_supported(width, height),
        ensures
            r.starts(display_num, width, height, mode@),
    {
        let hybrid = same_text(mode, "hybrid");
        let wayland = if same_text(mode, "wayland") || hybrid {
            Some(
                HeadlessWaylandCompositor::new(
                    prefixed("wayland-", display_num as u64),
                    width,
                    height,
                ),
            )
        } else {
            None
        };
        let x11 = if same_text(mode, "x11") || hybrid {
            Some(HeadlessX11Server::new(display_num, width, height))
        } else {
            None
        };
        VirtualDisplay {
            display_num,
            width,
            height,
            depth: 24,
            mode: mode.to_owned(),
            framebuffer: SharedFramebuffer::new(width, height),
            wayland,
            x11,
        }
    }
}

/// The modes: "hybrid" has a Wayland compositor and an X11 server, "wayland" only
/// the one, "x11" only the other.
pub proof fn law_modes()
    ensures
        has_wayland("hybrid"@) && has_x11("hybrid"@),
        has_wayland("wayland"@) && !has_x11("wayland"@),
        !has_wayland("x11"@) && has_x11("x11"@),
        forall|mode: Seq<char>| #[trigger]
            has_wayland(mode) ==> mode == "hybrid"@ || mode == "wayland"@,
        forall|mode: Seq<char>| #[trigger] has_x11(mode) ==> mode == "hybrid"@ || mode == "x11"@,
{
    reveal_strlit("hybrid");
    reveal_strlit("wayland");
    reveal_strlit("x11");
    assert("hybrid"@.len() != "wayland"@.len());
    assert("hybrid"@.len() != "x11"@.len());
    assert("wayland"@.len() != "x11"@.len());
}

} // verus!
