//! Geometry primitives: points, sizes, colors, rectangles and edge insets.
//!
//! All coordinates are integer device units. Every operation states its exact
//! arithmetic result; the `in_range` preconditions are the machine limits
//! under which the 64-bit arithmetic cannot overflow.

use vstd::prelude::*;

verus! {

/// Magnitude bound on the coordinates an operation accepts; any sum or
/// difference of a few in-range coordinates still fits in an `i64`.
pub const COORD_LIMIT: i64 = 0x1000_0000_0000_0000;

/// A coordinate small enough for the geometric operations to be exact.
pub open spec fn in_range(x: int) -> bool {
    -COORD_LIMIT <= x <= COORD_LIMIT
}

/// A bound, a few times wider than `in_range`, inside which an edge bound
/// handed to `Rect::from_bounds` still subtracts without overflow. Sums of
/// two in-range coordinates land in this span.
pub open spec fn in_span(x: int) -> bool {
    -3 * (COORD_LIMIT as int) <= x <= 3 * (COORD_LIMIT as int)
}

/// A position in some local or global coordinate space.
#[derive(Clone, Copy, Debug, PartialEq, Eq, Structural)]
pub struct Point {
    pub x: i64,
    pub y: i64,
}

pub open spec fn point_in_range(p: Point) -> bool {
    in_range(p.x as int) && in_range(p.y as int)
}

impl Point {
    pub fn new(x: i64, y: i64) -> (r: Point)
        ensures
            r == (Point { x, y }),
    {
        Point { x, y }
    }

    pub fn from_tuple(t: (i64, i64)) -> (r: Point)
        ensures
            r == (Point { x: t.0, y: t.1 }),
    {
        Point::new(t.0, t.1)
    }

    pub fn zero() -> (r: Point)
        ensures
            r == (Point { x: 0i64, y: 0i64 }),
    {
        Point::new(0, 0)
    }

    pub fn to_tuple(&self) -> (r: (i64, i64))
        ensures
            r == (self.x, self.y),
    {
        (self.x, self.y)
    }

    /// Componentwise translation.
    pub fn add(self, rhs: Point) -> (r: Point)
        requires
            point_in_range(self),
            point_in_range(rhs),
        ensures
            r.x == self.x + rhs.x,
            r.y == self.y + rhs.y,
    {
        Point::new(self.x + rhs.x, self.y + rhs.y)
    }

    /// Componentwise difference.
    pub fn sub(self, rhs: Point) -> (r: Point)
        requires
            point_in_range(self),
            point_in_range(rhs),
        ensures
            r.x == self.x - rhs.x,
            r.y == self.y - rhs.y,
    {
        Point::new(self.x - rhs.x, self.y - rhs.y)
    }
}

/// An extent: width and height. Either component may be negative when an
/// inset exceeds the available space.
#[derive(Clone, Copy, Debug, PartialEq, Eq, Structural)]
pub struct Size {
    pub w: i64,
    pub h: i64,
}

pub open spec fn size_in_range(s: Size) -> bool {
    in_range(s.w as int) && in_range(s.h as int)
}

impl Size {
    pub fn new(w: i64, h: i64) -> (r: Size)
        ensures
            r == (Size { w, h }),
    {
        Size { w, h }
    }

    pub fn zero() -> (r: Size)
        ensures
            r == (Size { w: 0i64, h: 0i64 }),
    {
        Size::new(0, 0)
    }

    pub fn from_tuple(t: (i64, i64)) -> (r: Size)
        ensures
            r == (Size { w: t.0, h: t.1 }),
    {
        Size::new(t.0, t.1)
    }

    pub fn to_tuple(&self) -> (r: (i64, i64))
        ensures
            r == (self.w, self.h),
    {
        (self.w, self.h)
    }
}

/// An RGBA color with 8-bit channels.
#[derive(Clone, Copy, Debug, PartialEq, Eq, Structural)]
pub struct Color {
    pub a: u8,
    pub r: u8,
    pub g: u8,
    pub b: u8,
}

impl Color {
    pub fn argb(a: u8, r: u8, g: u8, b: u8) -> (c: Color)
        ensures
            c == (Color { a, r, g, b }),
    {
        Color { a, r, g, b }
    }

    pub fn to_tuple_argb(&self) -> (t: (u8, u8, u8, u8))
        ensures
            t == (self.a, self.r, self.g, self.b),
    {
        (self.a, self.r, self.g, self.b)
    }

    pub fn to_tuple_rgb(&self) -> (t: (u8, u8, u8))
        ensures
            t == (self.r, self.g, self.b),
    {
        (self.r, self.g, self.b)
    }
}

/// An axis-aligned rectangle: a position and a size. The y axis grows
/// downwards, so `top` is the position's y and `bottom` is `top + height`.
#[derive(Clone, Copy, Debug, PartialEq, Eq, Structural)]
pub struct Rect {
    pub pos: Point,
    pub size: Size,
}

pub open spec fn rect_in_range(r: Rect) -> bool {
    point_in_range(r.pos) && size_in_range(r.size)
}

/// The rectangle spanning the given bounds, as a value.
pub open spec fn spec_from_bounds(right: int, top: int, left: int, bottom: int) -> Rect {
    Rect {
        pos: Point { x: left as i64, y: top as i64 },
        size: Size { w: (right - left) as i64, h: (bottom - top) as i64 },
    }
}

/// `inner` translated out of the local space whose origin is `outer.pos`.
pub open spec fn spec_transform_to_outer(outer: Rect, inner: Rect) -> Rect {
    Rect {
        pos: Point {
            x: (outer.pos.x + inner.pos.x) as i64,
            y: (outer.pos.y + inner.pos.y) as i64,
        },
        size: inner.size,
    }
}

/// `r` shrunk by the margins of `m` on each edge.
pub open spec fn spec_inset(r: Rect, m: Thickness) -> Rect {
    Rect {
        pos: Point { x: (r.pos.x + m.left) as i64, y: (r.pos.y + m.top) as i64 },
        size: Size {
            w: (r.size.w - m.left - m.right) as i64,
            h: (r.size.h - m.top - m.bottom) as i64,
        },
    }
}

impl Rect {
    pub fn pos_size(pos: Point, size: Size) -> (r: Rect)
        ensures
            r == (Rect { pos, size }),
    {
        Rect { pos, size }
    }

    pub fn from_size(size: Size) -> (r: Rect)
        ensures
            r == (Rect { pos: Point { x: 0i64, y: 0i64 }, size }),
    {
        Rect { pos: Point::zero(), size }
    }

    /// The rectangle spanning the given bounds.
    pub fn from_bounds(right: i64, top: i64, left: i64, bottom: i64) -> (r: Rect)
        requires
            in_span(right as int),
            in_span(top as int),
            in_span(left as int),
            in_span(bottom as int),
        ensures
            r == spec_from_bounds(right as int, top as int, left as int, bottom as int),
            r.pos.x == left,
            r.pos.y == top,
            r.size.w == right - left,
            r.size.h == bottom - top,
    {
        Rect { pos: Point::new(left, top), size: Size::new(right - left, bottom - top) }
    }

    pub fn zero() -> (r: Rect)
        ensures
            r == (Rect { pos: Point { x: 0i64, y: 0i64 }, size: Size { w: 0i64, h: 0i64 } }),
    {
        Rect { pos: Point::zero(), size: Size::zero() }
    }

    pub fn left(&self) -> (r: i64)
        ensures
            r == self.pos.x,
    {
        self.pos.x
    }

    pub fn right(&self) -> (r: i64)
        requires
            rect_in_range(*self),
        ensures
            r == self.pos.x + self.size.w,
    {
        self.pos.x + self.size.w
    }

    pub fn bottom(&self) -> (r: i64)
        requires
            rect_in_range(*self),
        ensures
            r == self.pos.y + self.size.h,
    {
        self.pos.y + self.size.h
    }

    pub fn top(&self) -> (r: i64)
        ensures
            r == self.pos.y,
    {
        self.pos.y
    }

    pub fn to_pos_size_tuple(&self) -> (t: ((i64, i64), (i64, i64)))
        ensures
            t == ((self.pos.x, self.pos.y), (self.size.w, self.size.h)),
    {
        (self.pos.to_tuple(), self.size.to_tuple())
    }

    /// Translates `rect`, expressed in the local space whose origin is
    /// `self.pos`, into the surrounding space. A pure translation: the size
    /// is untouched.
    pub fn transform_to_outer(&self, rect: Rect) -> (r: Rect)
        requires
            rect_in_range(*self),
            rect_in_range(rect),
        ensures
            r == spec_transform_to_outer(*self, rect),
            r.pos.x == self.pos.x + rect.pos.x,
            r.pos.y == self.pos.y + rect.pos.y,
            r.size == rect.size,
    {
        Rect::pos_size(self.pos.add(rect.pos), rect.size)
    }

    /// Translates `rect`, expressed in the surrounding space, into the local
    /// space whose origin is `self.pos`. Inverse of `transform_to_outer`.
    pub fn transform_to_inner(&self, rect: Rect) -> (r: Rect)
        requires
            rect_in_range(*self),
            rect_in_range(rect),
        ensures
            r.pos.x == rect.pos.x - self.pos.x,
            r.pos.y == rect.pos.y - self.pos.y,
            r.size == rect.size,
    {
        Rect::pos_size(rect.pos.sub(self.pos), rect.size)
    }

    /// Grows the rectangle by the margins of `margin` on each edge.
    pub fn expand(&self, margin: Thickness) -> (r: Rect)
        requires
            rect_in_range(*self),
            thickness_in_range(margin),
        ensures
            r.pos.x == self.pos.x - margin.left,
            r.pos.y == self.pos.y - margin.top,
            r.size.w == self.size.w + margin.left + margin.right,
            r.size.h == self.size.h + margin.top + margin.bottom,
    {
        Rect::from_bounds(
            self.right() + margin.right,
            self.top() - margin.top,
            self.left() - margin.left,
            self.bottom() + margin.bottom,
        )
    }

    /// Shrinks the rectangle by the margins of `margin` on each edge.
    pub fn inset(&self, margin: Thickness) -> (r: Rect)
        requires
            rect_in_range(*self),
            thickness_in_range(margin),
        ensures
            r == spec_inset(*self, margin),
            r.pos.x == self.pos.x + margin.left,
            r.pos.y == self.pos.y + margin.top,
            r.size.w == self.size.w - margin.left - margin.right,
            r.size.h == self.size.h - margin.top - margin.bottom,
    {
        Rect::from_bounds(
            self.right() - margin.right,
            self.top() + margin.top,
            self.left() + margin.left,
            self.bottom() - margin.bottom,
        )
    }
}

/// Independent margins for the four edges of a rectangle.
#[derive(Clone, Copy, Debug, PartialEq, Eq, Structural)]
pub struct Thickness {
    pub right: i64,
    pub top: i64,
    pub left: i64,
    pub bottom: i64,
}

pub open spec fn thickness_in_range(t: Thickness) -> bool {
    in_range(t.right as int) && in_range(t.top as int) && in_range(t.left as int) && in_range(t.bottom as int)
}

impl Thickness {
    pub fn new(right: i64, top: i64, left: i64, bottom: i64) -> (t: Thickness)
        ensures
            t == (Thickness { right, top, left, bottom }),
    {
        Thickness { right, top, left, bottom }
    }

    /// The same margin on both horizontal edges and the same margin on both
    /// vertical edges.
    pub fn hv(horizontal: i64, vertical: i64) -> (t: Thickness)
        ensures
            t == (Thickness {
                right: horizontal,
                top: vertical,
                left: horizontal,
                bottom: vertical,
            }),
    {
        Thickness::new(horizontal, vertical, horizontal, vertical)
    }

    /// The rectangle left inside `container` once these margins are taken
    /// from its edges.
    pub fn rect_in(&self, container: Size) -> (r: Rect)
        requires
            thickness_in_range(*self),
            size_in_range(container),
        ensures
            r.pos.x == self.left,
            r.pos.y == self.top,
            r.size.w == container.w - self.right - self.left,
            r.size.h == container.h - self.bottom - self.top,
    {
        Rect::from_bounds(container.w - self.right, self.top, self.left, container.h - self.bottom)
    }
}

/// The bounds of `spec_from_bounds` are recovered exactly by the four edge
/// accessors: composing `Rect::from_bounds` with `right`/`top`/`left`/
/// `bottom` reconstructs the original bounds.
pub proof fn lemma_from_bounds_round_trip(right: int, top: int, left: int, bottom: int)
    requires
        in_range(right),
        in_range(top),
        in_range(left),
        in_range(bottom),
    ensures
        spec_from_bounds(right, top, left, bottom).pos.x == left,
        spec_from_bounds(right, top, left, bottom).pos.y == top,
        spec_from_bounds(right, top, left, bottom).pos.x + spec_from_bounds(
            right,
            top,
            left,
            bottom,
        ).size.w == right,
        spec_from_bounds(right, top, left, bottom).pos.y + spec_from_bounds(
            right,
            top,
            left,
            bottom,
        ).size.h == bottom,
{
}

} // verus!
