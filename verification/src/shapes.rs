//! Integer geometry primitives: points, axis-aligned rectangles, and the
//! strict-overlap test the whole optimizer is built on.

use vstd::prelude::*;

verus! {

/// Coordinates of every rectangle handled by the geometry helpers stay within
/// this bound, which leaves room for the sums and squared distances the
/// helpers compute to fit in `i64`.
pub const GEOM_LIMIT: i64 = 0x2000_0000_0000_0000;

/// Bound on coordinates for the squared-distance comparison of `origo_cmp`.
pub const DIST_LIMIT: i64 = 0x2000_0000;

/// Growth directions used when seeding an initial layout.
#[derive(Copy, Clone, Debug)]
pub enum Direction {
    Left,
    Right,
    Up,
    Down,
}

/// A point on the integer grid.
#[derive(PartialEq, Eq, Structural, Copy, Clone, Debug)]
pub struct Point {
    pub x: i64,
    pub y: i64,
}

/// An axis-aligned rectangle; `(x, y)` is the top-left corner, `w` is the
/// width and `h` the height.
#[derive(PartialEq, Eq, Structural, Copy, Clone, Debug)]
pub struct Rect {
    pub x: i64,
    pub y: i64,
    pub w: i64,
    pub h: i64,
}

/// All four fields of the rectangle are small enough that sums of any two of
/// them fit comfortably in `i64`.
pub open spec fn rect_fits(r: Rect) -> bool {
    &&& -GEOM_LIMIT <= r.x <= GEOM_LIMIT
    &&& -GEOM_LIMIT <= r.y <= GEOM_LIMIT
    &&& -GEOM_LIMIT <= r.w <= GEOM_LIMIT
    &&& -GEOM_LIMIT <= r.h <= GEOM_LIMIT
}

/// Strict overlap of two rectangles: rectangles that share only an edge or a
/// corner do not collide.
pub open spec fn spec_collides(a: Rect, b: Rect) -> bool {
    &&& a.x < b.x + b.w
    &&& b.x < a.x + a.w
    &&& a.y < b.y + b.h
    &&& b.y < a.y + a.h
}

/// The x coordinate of the rectangle's center, for non-negative widths.
pub open spec fn spec_center_x(r: Rect) -> int {
    r.x + r.w / 2
}

/// The y coordinate of the rectangle's center, for non-negative heights.
pub open spec fn spec_center_y(r: Rect) -> int {
    r.y + r.h / 2
}

/// Squared Euclidean distance of the rectangle's center from the origin.
/// Comparing squared distances orders rectangles exactly as comparing the
/// real distances would.
pub open spec fn spec_dist2(r: Rect) -> int {
    spec_center_x(r) * spec_center_x(r) + spec_center_y(r) * spec_center_y(r)
}

impl Point {
    pub fn new(x: i64, y: i64) -> (r: Point)
        ensures
            r == (Point { x, y }),
    {
        Point { x, y }
    }

    /// Returns a vector (represented by a `Point`) from this point to the
    /// other point.
    pub fn diff(&self, point: Point) -> (r: Point)
        requires
            i64::MIN <= point.x - self.x <= i64::MAX,
            i64::MIN <= point.y - self.y <= i64::MAX,
        ensures
            r.x == point.x - self.x,
            r.y == point.y - self.y,
    {
        Point { x: point.x - self.x, y: point.y - self.y }
    }
}

impl Rect {
    pub fn new(x: i64, y: i64, w: i64, h: i64) -> (r: Rect)
        ensures
            r == (Rect { x, y, w, h }),
    {
        Rect { x, y, w, h }
    }

    /// "Rotates" the rectangle: returns a new rectangle with switched width
    /// and height.
    pub fn rotate(&self) -> (r: Rect)
        ensures
            r == (Rect { x: self.x, y: self.y, w: self.h, h: self.w }),
    {
        Rect { x: self.x, y: self.y, w: self.h, h: self.w }
    }

    /// Checks if this rect collides (overlaps) with another rectangle.
    /// Touching boundaries do not count as a collision.
    pub fn collides_with(&self, rect: Rect) -> (r: bool)
        requires
            rect_fits(*self),
            rect_fits(rect),
        ensures
            r == spec_collides(*self, rect),
    {
        self.x < rect.x + rect.w && rect.x < self.x + self.w && self.y < rect.y + rect.h
            && rect.y < self.y + self.h
    }

    /// Returns this rect's area (`w * h`).
    pub fn area(&self) -> (r: i64)
        requires
            -0x8000_0000 <= self.w <= 0x8000_0000,
            -0x8000_0000 <= self.h <= 0x8000_0000,
        ensures
            r == self.w * self.h,
    {
        proof {
            assert((-0x8000_0000 <= self.w <= 0x8000_0000 && -0x8000_0000 <= self.h
                <= 0x8000_0000) ==> -0x4000_0000_0000_0000 <= self.w * self.h
                <= 0x4000_0000_0000_0000) by (nonlinear_arith);
        }
        self.w * self.h
    }

    /// Gets the center point `(x + w/2, y + h/2)`.
    pub fn center(&self) -> (r: Point)
        requires
            rect_fits(*self),
            self.w >= 0,
            self.h >= 0,
        ensures
            r.x == spec_center_x(*self),
            r.y == spec_center_y(*self),
    {
        Point { x: self.x + self.w / 2, y: self.y + self.h / 2 }
    }

    /// Gets the top left corner `(x, y)`.
    pub fn top_left(&self) -> (r: Point)
        ensures
            r == (Point { x: self.x, y: self.y }),
    {
        Point { x: self.x, y: self.y }
    }

    /// Gets the bottom right corner `(x + w, y + h)`.
    pub fn bottom_right(&self) -> (r: Point)
        requires
            rect_fits(*self),
        ensures
            r.x == self.x + self.w,
            r.y == self.y + self.h,
    {
        Point { x: self.x + self.w, y: self.y + self.h }
    }

    /// Moves the rectangle so that its center lands on the given point.
    pub fn set_center(&mut self, x: i64, y: i64)
        requires
            rect_fits(*old(self)),
            old(self).w >= 0,
            old(self).h >= 0,
            -GEOM_LIMIT <= x <= GEOM_LIMIT,
            -GEOM_LIMIT <= y <= GEOM_LIMIT,
        ensures
            final(self).x == old(self).x + (x - spec_center_x(*old(self))),
            final(self).y == old(self).y + (y - spec_center_y(*old(self))),
            final(self).w == old(self).w,
            final(self).h == old(self).h,
    {
        let current_center = self.center();
        let desired_center = Point::new(x, y);
        let move_vector = current_center.diff(desired_center);
        self.x = self.x + move_vector.x;
        self.y = self.y + move_vector.y;
    }

    /// Compares two rectangles by the distance of their centers from the
    /// origin.
    pub fn origo_cmp(&self, other: &Rect) -> (r: core::cmp::Ordering)
        requires
            -DIST_LIMIT <= self.x <= DIST_LIMIT,
            -DIST_LIMIT <= self.y <= DIST_LIMIT,
            0 <= self.w <= DIST_LIMIT,
            0 <= self.h <= DIST_LIMIT,
            -DIST_LIMIT <= other.x <= DIST_LIMIT,
            -DIST_LIMIT <= other.y <= DIST_LIMIT,
            0 <= other.w <= DIST_LIMIT,
            0 <= other.h <= DIST_LIMIT,
        ensures
            r == core::cmp::Ordering::Less <==> spec_dist2(*self) < spec_dist2(*other),
            r == core::cmp::Ordering::Greater <==> spec_dist2(*self) > spec_dist2(*other),
            r == core::cmp::Ordering::Equal <==> spec_dist2(*self) == spec_dist2(*other),
    {
        let my_dist = self.dist2_from_origo();
        let other_dist = other.dist2_from_origo();
        if my_dist < other_dist {
            core::cmp::Ordering::Less
        } else if my_dist > other_dist {
            core::cmp::Ordering::Greater
        } else {
            core::cmp::Ordering::Equal
        }
    }

    /// Squared distance of the rectangle's center from the origin.
    fn dist2_from_origo(&self) -> (r: i64)
        requires
            -DIST_LIMIT <= self.x <= DIST_LIMIT,
            -DIST_LIMIT <= self.y <= DIST_LIMIT,
            0 <= self.w <= DIST_LIMIT,
            0 <= self.h <= DIST_LIMIT,
        ensures
            r == spec_dist2(*self),
    {
        let cx = self.x + self.w / 2;
        let cy = self.y + self.h / 2;
        proof {
            assert((-0x4000_0000 <= cx <= 0x4000_0000 && -0x4000_0000 <= cy <= 0x4000_0000)
                ==> (0 <= cx * cx <= 0x1000_0000_0000_0000 && 0 <= cy * cy
                <= 0x1000_0000_0000_0000)) by (nonlinear_arith);
        }
        cx * cx + cy * cy
    }
}

} // verus!
