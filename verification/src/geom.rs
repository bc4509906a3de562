//! Whole-pixel rectangles.

use vstd::prelude::*;

verus! {

/// A rectangle of whole device pixels.
#[derive(Clone, Copy, Debug, PartialEq, Eq, Structural)]
pub struct Rect {
    pub x: i32,
    pub y: i32,
    pub width: i32,
    pub height: i32,
}

/// The smaller of two numbers.
pub open spec fn min(a: int, b: int) -> int {
    if a <= b {
        a
    } else {
        b
    }
}

/// The larger of two numbers.
pub open spec fn max(a: int, b: int) -> int {
    if a >= b {
        a
    } else {
        b
    }
}

/// Whether a number is a 32-bit signed integer.
pub open spec fn is_i32(n: int) -> bool {
    i32::MIN <= n <= i32::MAX
}

impl Rect {
    /// The first column past the right edge.
    pub open spec fn right(self) -> int {
        self.x + self.width
    }

    /// The first row past the bottom edge.
    pub open spec fn bottom(self) -> int {
        self.y + self.height
    }

    /// Whether any pixel lies in the rectangle.
    pub open spec fn has_area(self) -> bool {
        self.width > 0 && self.height > 0
    }

    /// Whether the pixel at column `px` and row `py` lies in the rectangle.
    pub open spec fn covers(self, px: int, py: int) -> bool {
        self.x <= px < self.right() && self.y <= py < self.bottom()
    }

    /// Whether every pixel of `other` lies in the rectangle.
    pub open spec fn contains(self, other: Rect) -> bool {
        ||| !other.has_area()
        ||| {
            &&& self.has_area()
            &&& self.x <= other.x
            &&& self.y <= other.y
            &&& other.right() <= self.right()
            &&& other.bottom() <= self.bottom()
        }
    }

    /// Whether the two rectangles share a pixel.
    pub open spec fn meets(self, other: Rect) -> bool {
        &&& max(self.x as int, other.x as int) < min(self.right(), other.right())
        &&& max(self.y as int, other.y as int) < min(self.bottom(), other.bottom())
    }

    /// The pixels two rectangles share, where there are any.
    pub open spec fn common(self, other: Rect) -> Option<Rect> {
        if self.meets(other) {
            let x = max(self.x as int, other.x as int);
            let y = max(self.y as int, other.y as int);
            Some(
                Rect {
                    x: x as i32,
                    y: y as i32,
                    width: (min(self.right(), other.right()) - x) as i32,
                    height: (min(self.bottom(), other.bottom()) - y) as i32,
                },
            )
        } else {
            None
        }
    }

    /// Whether the rectangle lies at or past the origin and ends within the coordinate range.
    pub open spec fn on_surface(self) -> bool {
        &&& 0 <= self.x
        &&& 0 <= self.y
        &&& 0 <= self.width
        &&& 0 <= self.height
        &&& self.right() <= i32::MAX
        &&& self.bottom() <= i32::MAX
    }

    /// Whether the edges of both rectangles, and of what lies between them, are within the
    /// coordinate range.
    pub open spec fn comparable(self, other: Rect) -> bool {
        &&& is_i32(self.right())
        &&& is_i32(self.bottom())
        &&& is_i32(other.right())
        &&& is_i32(other.bottom())
        &&& is_i32(min(self.right(), other.right()) - max(self.x as int, other.x as int))
        &&& is_i32(min(self.bottom(), other.bottom()) - max(self.y as int, other.y as int))
    }

    /// How many pixels the rectangle holds.
    pub open spec fn area(self) -> int {
        self.width * self.height
    }
}

/// Calls `zgui_geom::Rect::intersection`: the pixels both rectangles hold, and nothing when they
/// share none.
#[verifier::external_body]
pub(crate) fn intersection(a: Rect, b: Rect) -> (shared: Option<Rect>)
    requires
        a.comparable(b),
    ensures
        shared == a.common(b),
{
    zgui_geom::Rect::<i32, zgui_geom::Device>::new(
        zgui_geom::Point::new(a.x, a.y),
        zgui_geom::Size::new(a.width, a.height),
    ).intersection(
        zgui_geom::Rect::new(
            zgui_geom::Point::new(b.x, b.y),
            zgui_geom::Size::new(b.width, b.height),
        ),
    ).map(
        |r| Rect { x: r.origin.x, y: r.origin.y, width: r.size.width, height: r.size.height },
    )
}

/// Rectangles on the surface can always be compared, and a rectangle on the surface starts at or
/// past the origin and ends within the range of coordinates.
pub proof fn law_rectangles_on_the_surface_can_be_compared(one: Rect, two: Rect)
    requires
        one.on_surface(),
        two.on_surface(),
    ensures
        one.comparable(two),
        0 <= one.x && 0 <= one.y && 0 <= one.width && 0 <= one.height,
        one.x + one.width <= i32::MAX && one.y + one.height <= i32::MAX,
{
}

/// Of two numbers one is the smaller and the other the larger.
pub proof fn law_smaller_and_larger(a: int, b: int)
    ensures
        min(a, b) <= max(a, b),
        min(a, b) + max(a, b) == a + b,
        min(a, b) == a || min(a, b) == b,
        is_i32(a) <==> -0x8000_0000 <= a <= 0x7fff_ffff,
{
}

} // verus!
