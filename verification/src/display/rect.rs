//! Rectangles on the screen.

use vstd::prelude::*;

verus! {

/// A rectangular area of the screen, in pixels.
#[derive(Debug, Clone, Copy, PartialEq, Eq, Structural)]
pub struct Rect {
    pub x: u16,
    pub y: u16,
    pub width: u16,
    pub height: u16,
}

/// `a + b`, held at the largest coordinate.
pub open spec fn edge(a: u16, b: u16) -> u16 {
    if a + b > u16::MAX {
        u16::MAX
    } else {
        (a + b) as u16
    }
}

impl Rect {
    /// First column right of the rectangle, held at the largest coordinate.
    pub open spec fn right(self) -> u16 {
        edge(self.x, self.width)
    }

    /// First row below the rectangle, held at the largest coordinate.
    pub open spec fn bottom(self) -> u16 {
        edge(self.y, self.height)
    }

    /// Whether the pixel at (`px`, `py`) lies in the rectangle.
    pub open spec fn covers(self, px: int, py: int) -> bool {
        self.x <= px < self.right() && self.y <= py < self.bottom()
    }

    pub fn new(x: u16, y: u16, width: u16, height: u16) -> (r: Self)
        ensures
            r == (Rect { x, y, width, height }),
    {
        Rect { x, y, width, height }
    }

    /// Whether the two open spans overlap in both directions.
    pub open spec fn meets(self, other: Rect) -> bool {
        self.x < other.right() && other.x < self.right() && self.y < other.bottom() && other.y
            < self.bottom()
    }

    /// Whether the rectangles overlap.
    pub fn intersects(&self, other: &Rect) -> (r: bool)
        ensures
            r == self.meets(*other),
    {
        self.x < other.x.saturating_add(other.width) && self.x.saturating_add(self.width) > other.x
            && self.y < other.y.saturating_add(other.height) && self.y.saturating_add(self.height)
            > other.y
    }

    /// The common part of the rectangles, if it holds a pixel.
    pub fn intersection(&self, other: &Rect) -> (r: Option<Rect>)
        ensures
            r == self.common(*other),
    {
        let x1: u16 = if self.x > other.x { self.x } else { other.x };
        let y1: u16 = if self.y > other.y { self.y } else { other.y };
        let sr: u16 = self.x.saturating_add(self.width);
        let or: u16 = other.x.saturating_add(other.width);
        let sb: u16 = self.y.saturating_add(self.height);
        let ob: u16 = other.y.saturating_add(other.height);
        let x2: u16 = if sr < or { sr } else { or };
        let y2: u16 = if sb < ob { sb } else { ob };
        if x2 > x1 && y2 > y1 {
            Some(Rect::new(x1, y1, x2 - x1, y2 - y1))
        } else {
            None
        }
    }

    /// The rectangle between the larger of the left and top edges and the
    /// smaller of the right and bottom edges, where that is not empty.
    pub open spec fn common(self, other: Rect) -> Option<Rect> {
        let x1 = if self.x > other.x { self.x } else { other.x };
        let y1 = if self.y > other.y { self.y } else { other.y };
        let x2 = if self.right() < other.right() { self.right() } else { other.right() };
        let y2 = if self.bottom() < other.bottom() { self.bottom() } else { other.bottom() };
        if x2 > x1 && y2 > y1 {
            Some(Rect { x: x1, y: y1, width: (x2 - x1) as u16, height: (y2 - y1) as u16 })
        } else {
            None
        }
    }
}

/// The intersection holds exactly the pixels that both rectangles hold.
pub proof fn law_intersection_is_common_pixels(a: Rect, b: Rect)
    ensures
        forall|px: int, py: int| #![trigger a.covers(px, py)]
            (a.covers(px, py) && b.covers(px, py)) <==> (a.common(b) matches Some(c)
                && c.covers(px, py)),
{
}

/// Neither test depends on the order of the two rectangles.
pub proof fn law_intersection_is_symmetric(a: Rect, b: Rect)
    ensures
        a.meets(b) == b.meets(a),
        a.common(b) == b.common(a),
{
}

/// For rectangles that hold a pixel, the overlap test says whether there is an
/// intersection.
pub proof fn law_intersects_iff_intersection(a: Rect, b: Rect)
    requires
        a.x < a.right() && a.y < a.bottom(),
        b.x < b.right() && b.y < b.bottom(),
    ensures
        a.meets(b) <==> a.common(b) is Some,
{
}

/// Which pixels a rectangle holds: as many columns and rows as it is wide and
/// high, from its corner on, as far as coordinates below 65535 reach.
pub proof fn law_rect_holds_its_pixels(r: Rect, px: int, py: int)
    ensures
        r.covers(px, py) <==> {
            &&& r.x <= px < r.x + r.width && px < 65535
            &&& r.y <= py < r.y + r.height && py < 65535
        },
{
}

/// The overlap test finds every shared pixel; and rectangles that hold a pixel
/// pass it only if they share one.
pub proof fn law_overlap_is_a_shared_pixel(a: Rect, b: Rect)
    ensures
        forall|px: int, py: int|
            #![trigger a.covers(px, py)]
            a.covers(px, py) && b.covers(px, py) ==> a.meets(b),
        a.meets(b) && a.x < a.right() && a.y < a.bottom() && b.x < b.right() && b.y < b.bottom()
            ==> exists|px: int, py: int| #[trigger] a.covers(px, py) && b.covers(px, py),
{
    if a.meets(b) && a.x < a.right() && a.y < a.bottom() && b.x < b.right() && b.y < b.bottom() {
        let px = if a.x > b.x {
            a.x as int
        } else {
            b.x as int
        };
        let py = if a.y > b.y {
            a.y as int
        } else {
            b.y as int
        };
        assert(a.covers(px, py) && b.covers(px, py));
    }
}

} // verus!
