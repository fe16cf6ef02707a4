//! Points and rectangles in page-pixel coordinates.
//!
//! Coordinates are signed, extents are not. Every operation is computed in a
//! wider integer type and limited to the 32-bit range at the end, so that no
//! input overflows.

use vstd::prelude::*;
use crate::numeric::{
    clamp_i32, clamp_u32, floor_sqrt, isqrt, lemma_floor_sqrt_below, saturate_i32, saturate_u32,
};

verus! {

/// The squared Euclidean distance between `(ax, ay)` and `(bx, by)`.
pub open spec fn distance_sq(ax: int, ay: int, bx: int, by: int) -> int {
    (ax - bx) * (ax - bx) + (ay - by) * (ay - by)
}

/// The Euclidean distance that belongs to a squared distance, in thousandths
/// of a pixel and rounded down.
pub open spec fn distance_milli(d_sq: int) -> int {
    floor_sqrt(1_000_000 * d_sq)
}

/// The margin that a percentage adds on each side of an extent.
pub open spec fn margin_of(extent: u32, percent: u32) -> int {
    (extent as int * percent as int) / 100
}

/// The distance between two points with 32-bit coordinates fits in 64 bits.
pub proof fn lemma_distance_milli_fits(ax: i32, ay: i32, bx: i32, by: i32)
    ensures
        0 <= distance_sq(ax as int, ay as int, bx as int, by as int) <= 0x1_FFFF_FFFF_0000_0002,
        0 <= distance_milli(distance_sq(ax as int, ay as int, bx as int, by as int))
            < 0x1_0000_0000_0000,
{
    let dx = ax as int - bx as int;
    let dy = ay as int - by as int;
    assert(0 <= dx * dx <= 0xFFFF_FFFF * 0xFFFF_FFFF) by (nonlinear_arith)
        requires
            -0xFFFF_FFFF <= dx <= 0xFFFF_FFFF,
    ;
    assert(0 <= dy * dy <= 0xFFFF_FFFF * 0xFFFF_FFFF) by (nonlinear_arith)
        requires
            -0xFFFF_FFFF <= dy <= 0xFFFF_FFFF,
    ;
    lemma_floor_sqrt_below(1_000_000 * (dx * dx + dy * dy), 0x1_0000_0000_0000);
}

/// A point of the plane.
#[derive(Debug, Clone, Copy, PartialEq, Eq, Structural)]
pub struct Point {
    pub x: i32,
    pub y: i32,
}

impl Default for Point {
    /// The origin.
    fn default() -> (p: Self)
        ensures
            p == (Point { x: 0, y: 0 }),
    {
        Point { x: 0, y: 0 }
    }
}

impl Point {
    /// The point `(x, y)`.
    pub fn new(x: i32, y: i32) -> (p: Self)
        ensures
            p == (Point { x, y }),
    {
        Point { x, y }
    }

    /// The origin.
    pub open spec fn origin() -> Point {
        Point { x: 0, y: 0 }
    }

    /// The squared distance to `other`.
    pub open spec fn spec_distance_sq_to(&self, other: &Point) -> u128 {
        distance_sq(self.x as int, self.y as int, other.x as int, other.y as int) as u128
    }

    /// The squared Euclidean distance to `other`, which is exact.
    #[verifier::when_used_as_spec(spec_distance_sq_to)]
    pub fn distance_sq_to(&self, other: &Point) -> (d: u128)
        ensures
            d == distance_sq(self.x as int, self.y as int, other.x as int, other.y as int),
            d == self.spec_distance_sq_to(other),
            d <= 0x1_FFFF_FFFF_0000_0002,
    {
        squared_distance(self.x, self.y, other.x, other.y)
    }

    /// The Euclidean distance to `other`, in thousandths of a pixel, rounded
    /// down.
    pub fn distance_to(&self, other: &Point) -> (d: u64)
        ensures
            d == distance_milli(
                distance_sq(self.x as int, self.y as int, other.x as int, other.y as int),
            ),
    {
        milli_distance(self.distance_sq_to(other))
    }
}

/// The squared distance between two points given by their coordinates.
pub fn squared_distance(ax: i32, ay: i32, bx: i32, by: i32) -> (d: u128)
    ensures
        d == distance_sq(ax as int, ay as int, bx as int, by as int),
        d <= 0x1_FFFF_FFFF_0000_0002,
{
    let dx: i64 = ax as i64 - bx as i64;
    let dy: i64 = ay as i64 - by as i64;
    let ux: u128 = if dx < 0 { (-dx) as u128 } else { dx as u128 };
    let uy: u128 = if dy < 0 { (-dy) as u128 } else { dy as u128 };
    assert(ux * ux == dx * dx && ux * ux <= 0xFFFF_FFFF * 0xFFFF_FFFF) by (nonlinear_arith)
        requires
            ux == dx || ux == -dx,
            0 <= ux <= 0xFFFF_FFFF,
    ;
    assert(uy * uy == dy * dy && uy * uy <= 0xFFFF_FFFF * 0xFFFF_FFFF) by (nonlinear_arith)
        requires
            uy == dy || uy == -dy,
            0 <= uy <= 0xFFFF_FFFF,
    ;
    ux * ux + uy * uy
}

/// The distance, in thousandths of a pixel and rounded down, that belongs to
/// a squared distance.
pub fn milli_distance(d_sq: u128) -> (d: u64)
    requires
        d_sq <= 0x1_FFFF_FFFF_0000_0002,
    ensures
        d == distance_milli(d_sq as int),
{
    isqrt(1_000_000 * d_sq)
}

/// An axis-aligned rectangle: its corner of least coordinates and its extent.
#[derive(Debug, Clone, Copy, PartialEq, Eq, Structural)]
pub struct Rectangle {
    pub x: i32,
    pub y: i32,
    pub width: u32,
    pub height: u32,
}

impl Rectangle {
    /// The first column right of the rectangle.
    pub open spec fn right(&self) -> int {
        self.x as int + self.width as int
    }

    /// The first row below the rectangle.
    pub open spec fn bottom(&self) -> int {
        self.y as int + self.height as int
    }

    /// Whether the point `(px, py)` lies inside: the left and top edges belong
    /// to the rectangle, the right and bottom edges do not.
    pub open spec fn spec_contains(&self, px: i32, py: i32) -> bool {
        &&& self.x <= px
        &&& px < self.right()
        &&& self.y <= py
        &&& py < self.bottom()
    }

    /// Whether the two rectangles share a region of positive area.
    pub open spec fn spec_overlaps(&self, other: &Rectangle) -> bool {
        &&& self.x < other.right()
        &&& self.right() > other.x
        &&& self.y < other.bottom()
        &&& self.bottom() > other.y
    }

    /// Whether `other` lies inside this rectangle, edges included.
    pub open spec fn spec_contains_rect(&self, other: &Rectangle) -> bool {
        &&& other.x >= self.x
        &&& other.y >= self.y
        &&& other.right() <= self.right()
        &&& other.bottom() <= self.bottom()
    }

    /// The center: the corner moved by half the extent, rounded down.
    pub open spec fn spec_center(&self) -> (i32, i32) {
        (
            clamp_i32(self.x as int + (self.width as int) / 2) as i32,
            clamp_i32(self.y as int + (self.height as int) / 2) as i32,
        )
    }

    /// The center as a point.
    pub open spec fn spec_center_point(&self) -> Point {
        Point { x: self.spec_center().0, y: self.spec_center().1 }
    }

    /// The number of pixels covered.
    pub open spec fn spec_area(&self) -> u64 {
        (self.width as int * self.height as int) as u64
    }

    /// The rectangle grown by `margin_percent` percent of its extent on every
    /// side.
    pub open spec fn spec_expand(&self, margin_percent: u32) -> Rectangle {
        Rectangle {
            x: clamp_i32(self.x as int - margin_of(self.width, margin_percent)) as i32,
            y: clamp_i32(self.y as int - margin_of(self.height, margin_percent)) as i32,
            width: clamp_u32(self.width as int + 2 * margin_of(self.width, margin_percent)) as u32,
            height: clamp_u32(self.height as int + 2 * margin_of(self.height, margin_percent)) as u32,
        }
    }

    /// The region shared with `other`, if it has positive area.
    pub open spec fn spec_intersection(&self, other: &Rectangle) -> Option<Rectangle> {
        let x1 = if self.x >= other.x { self.x } else { other.x };
        let y1 = if self.y >= other.y { self.y } else { other.y };
        let x2 = if self.right() <= other.right() { self.right() } else { other.right() };
        let y2 = if self.bottom() <= other.bottom() { self.bottom() } else { other.bottom() };
        if x2 > x1 && y2 > y1 {
            Some(Rectangle { x: x1, y: y1, width: (x2 - x1) as u32, height: (y2 - y1) as u32 })
        } else {
            None
        }
    }

    /// The squared distance from the center to `(px, py)`.
    pub open spec fn spec_distance_sq_to(&self, px: i32, py: i32) -> u128 {
        distance_sq(
            self.spec_center().0 as int,
            self.spec_center().1 as int,
            px as int,
            py as int,
        ) as u128
    }

    /// The rectangle with corner `(x, y)` and the given extent.
    pub fn new(x: i32, y: i32, width: u32, height: u32) -> (r: Self)
        ensures
            r == (Rectangle { x, y, width, height }),
    {
        Rectangle { x, y, width, height }
    }

    /// Whether the point `(px, py)` lies inside.
    #[verifier::when_used_as_spec(spec_contains)]
    pub fn contains(&self, px: i32, py: i32) -> (inside: bool)
        ensures
            inside == self.spec_contains(px, py),
    {
        let right: i64 = self.x as i64 + self.width as i64;
        let bottom: i64 = self.y as i64 + self.height as i64;
        px >= self.x && (px as i64) < right && py >= self.y && (py as i64) < bottom
    }

    /// Whether the two rectangles share a region of positive area.
    #[verifier::when_used_as_spec(spec_overlaps)]
    pub fn overlaps(&self, other: &Rectangle) -> (shared: bool)
        ensures
            shared == self.spec_overlaps(other),
    {
        let right: i64 = self.x as i64 + self.width as i64;
        let bottom: i64 = self.y as i64 + self.height as i64;
        let other_right: i64 = other.x as i64 + other.width as i64;
        let other_bottom: i64 = other.y as i64 + other.height as i64;
        (self.x as i64) < other_right && right > other.x as i64 && (self.y as i64) < other_bottom
            && bottom > other.y as i64
    }

    /// The center of the rectangle.
    #[verifier::when_used_as_spec(spec_center)]
    pub fn center(&self) -> (c: (i32, i32))
        ensures
            c == self.spec_center(),
    {
        (
            saturate_i32(self.x as i64 + (self.width / 2) as i64),
            saturate_i32(self.y as i64 + (self.height / 2) as i64),
        )
    }

    /// The squared Euclidean distance from the center to `(px, py)`, which is
    /// exact.
    #[verifier::when_used_as_spec(spec_distance_sq_to)]
    pub fn distance_sq_to(&self, px: i32, py: i32) -> (d: u128)
        ensures
            d == self.spec_distance_sq_to(px, py),
            d == distance_sq(
                self.spec_center().0 as int,
                self.spec_center().1 as int,
                px as int,
                py as int,
            ),
            d <= 0x1_FFFF_FFFF_0000_0002,
    {
        let c = self.center();
        squared_distance(c.0, c.1, px, py)
    }

    /// The Euclidean distance from the center to `(px, py)`, in thousandths of
    /// a pixel, rounded down.
    pub fn distance_to(&self, px: i32, py: i32) -> (d: u64)
        ensures
            d == distance_milli(self.spec_distance_sq_to(px, py) as int),
    {
        milli_distance(self.distance_sq_to(px, py))
    }

    /// Grows the rectangle by `margin_percent` percent of its width on the
    /// left and on the right, and of its height above and below.
    #[verifier::when_used_as_spec(spec_expand)]
    pub fn expand(&self, margin_percent: u32) -> (r: Self)
        ensures
            r == self.spec_expand(margin_percent),
    {
        let margin_x: i64 = scaled_margin(self.width, margin_percent);
        let margin_y: i64 = scaled_margin(self.height, margin_percent);
        Rectangle {
            x: saturate_i32(self.x as i64 - margin_x),
            y: saturate_i32(self.y as i64 - margin_y),
            width: saturate_u32(self.width as i64 + 2 * margin_x),
            height: saturate_u32(self.height as i64 + 2 * margin_y),
        }
    }

    /// The number of pixels covered.
    #[verifier::when_used_as_spec(spec_area)]
    pub fn area(&self) -> (a: u64)
        ensures
            a == self.spec_area(),
            a == self.width as int * self.height as int,
    {
        assert(self.width as int * self.height as int <= 0xFFFF_FFFF * 0xFFFF_FFFF)
            by (nonlinear_arith)
            requires
                0 <= self.width <= 0xFFFF_FFFF,
                0 <= self.height <= 0xFFFF_FFFF,
        ;
        self.width as u64 * self.height as u64
    }

    /// The region shared with `other`, or `None` where the two share no region
    /// of positive area.
    #[verifier::when_used_as_spec(spec_intersection)]
    pub fn intersection(&self, other: &Rectangle) -> (shared: Option<Rectangle>)
        ensures
            shared == self.spec_intersection(other),
    {
        let x1: i32 = if self.x >= other.x { self.x } else { other.x };
        let y1: i32 = if self.y >= other.y { self.y } else { other.y };
        let right: i64 = self.x as i64 + self.width as i64;
        let bottom: i64 = self.y as i64 + self.height as i64;
        let other_right: i64 = other.x as i64 + other.width as i64;
        let other_bottom: i64 = other.y as i64 + other.height as i64;
        let x2: i64 = if right <= other_right { right } else { other_right };
        let y2: i64 = if bottom <= other_bottom { bottom } else { other_bottom };
        if x2 > x1 as i64 && y2 > y1 as i64 {
            Some(
                Rectangle {
                    x: x1,
                    y: y1,
                    width: (x2 - x1 as i64) as u32,
                    height: (y2 - y1 as i64) as u32,
                },
            )
        } else {
            None
        }
    }

    /// Whether `other` lies inside this rectangle, edges included.
    #[verifier::when_used_as_spec(spec_contains_rect)]
    pub fn contains_rect(&self, other: &Rectangle) -> (inside: bool)
        ensures
            inside == self.spec_contains_rect(other),
    {
        let right: i64 = self.x as i64 + self.width as i64;
        let bottom: i64 = self.y as i64 + self.height as i64;
        let other_right: i64 = other.x as i64 + other.width as i64;
        let other_bottom: i64 = other.y as i64 + other.height as i64;
        other.x >= self.x && other.y >= self.y && other_right <= right && other_bottom <= bottom
    }

    /// The center as a point.
    #[verifier::when_used_as_spec(spec_center_point)]
    pub fn center_point(&self) -> (p: Point)
        ensures
            p == self.spec_center_point(),
    {
        let c = self.center();
        Point::new(c.0, c.1)
    }
}

/// The margin that `percent` percent of `extent` amounts to, rounded down.
pub fn scaled_margin(extent: u32, percent: u32) -> (m: i64)
    ensures
        m == margin_of(extent, percent),
        0 <= m <= 184_467_440_651_968_512,
{
    assert(extent as int * percent as int <= 0xFFFF_FFFF * 0xFFFF_FFFF) by (nonlinear_arith)
        requires
            0 <= extent <= 0xFFFF_FFFF,
            0 <= percent <= 0xFFFF_FFFF,
    ;
    assert(0 <= extent as int * percent as int) by (nonlinear_arith)
        requires
            0 <= extent,
            0 <= percent,
    ;
    let product: u64 = extent as u64 * percent as u64;
    (product / 100) as i64
}

} // verus!
