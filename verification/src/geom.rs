//! Edge-based geometry for the quadtree: axis-aligned regions described by
//! their four edge coordinates, and the containment and overlap tests the
//! tree is built on.
//!
//! The coordinate convention: `y` grows northward and `x` grows eastward, so
//! a region's north edge is its largest `y` and its west edge its smallest
//! `x`.

use vstd::prelude::*;

verus! {

/// An axis-aligned region given by its four edge coordinates.
///
/// A well-oriented region has `west <= east` and `south <= north`; the tests
/// below do not require it, matching the raw edge comparisons they model.
#[derive(Clone, Copy, PartialEq, Eq, Structural, Debug)]
pub struct Rect {
    pub north: i64,
    pub east: i64,
    pub south: i64,
    pub west: i64,
}

/// `inner` lies entirely within `outer`: every edge of `inner` is on or
/// inside the corresponding edge of `outer`.
pub open spec fn fits_within(inner: Rect, outer: Rect) -> bool {
    &&& inner.north <= outer.north
    &&& inner.east <= outer.east
    &&& inner.south >= outer.south
    &&& inner.west >= outer.west
}

/// `a` and `b` share at least an edge or a point: neither lies strictly
/// beyond any edge of the other.
pub open spec fn overlaps(a: Rect, b: Rect) -> bool {
    !(a.north < b.south || a.east < b.west || a.south > b.north || a.west > b.east)
}

/// The capability an object must offer to be indexed by the quadtree: four
/// edge coordinates in the tree's coordinate system.
///
/// `bounds` is the object's region as one value; each edge accessor must
/// return the matching edge of `bounds`. `inv` lets an implementor restrict
/// the states on which its accessors are meaningful (for example, to rule
/// out arithmetic overflow when an edge is computed from a position and an
/// extent).
pub trait Boundable {
    spec fn bounds(&self) -> Rect;

    spec fn inv(&self) -> bool;

    fn north_edge(&self) -> (r: i64)
        requires
            self.inv(),
        ensures
            r == self.bounds().north,
    ;

    fn east_edge(&self) -> (r: i64)
        requires
            self.inv(),
        ensures
            r == self.bounds().east,
    ;

    fn south_edge(&self) -> (r: i64)
        requires
            self.inv(),
        ensures
            r == self.bounds().south,
    ;

    fn west_edge(&self) -> (r: i64)
        requires
            self.inv(),
        ensures
            r == self.bounds().west,
    ;
}

impl Boundable for Rect {
    open spec fn bounds(&self) -> Rect {
        *self
    }

    open spec fn inv(&self) -> bool {
        true
    }

    fn north_edge(&self) -> (r: i64) {
        self.north
    }

    fn east_edge(&self) -> (r: i64) {
        self.east
    }

    fn south_edge(&self) -> (r: i64) {
        self.south
    }

    fn west_edge(&self) -> (r: i64) {
        self.west
    }
}

/// A rectangle anchored at its north-west corner, with a width extending
/// east and a height extending south.
#[derive(Clone, Copy, PartialEq, Eq, Structural, Debug)]
pub struct Rectangle {
    pub position_x: i64,
    pub position_y: i64,
    pub width: i64,
    pub height: i64,
}

impl Rectangle {
    /// Non-negative extents whose far edges stay within the coordinate type.
    pub open spec fn valid(self) -> bool {
        &&& 0 <= self.width
        &&& 0 <= self.height
        &&& self.position_x + self.width <= i64::MAX
        &&& i64::MIN <= self.position_y - self.height
    }

    /// Returns a `Rectangle` anchored at `(position_x, position_y)` with the
    /// given extents.
    pub fn new(position_x: i64, position_y: i64, width: i64, height: i64) -> (rect: Self)
        requires
            0 <= width,
            0 <= height,
            position_x + width <= i64::MAX,
            i64::MIN <= position_y - height,
        ensures
            rect == (Rectangle { position_x, position_y, width, height }),
    {
        Rectangle { position_x, position_y, width, height }
    }
}

impl Boundable for Rectangle {
    open spec fn bounds(&self) -> Rect {
        Rect {
            north: self.position_y,
            east: (self.position_x + self.width) as i64,
            south: (self.position_y - self.height) as i64,
            west: self.position_x,
        }
    }

    open spec fn inv(&self) -> bool {
        self.valid()
    }

    fn north_edge(&self) -> (r: i64) {
        self.position_y
    }

    fn east_edge(&self) -> (r: i64) {
        self.position_x + self.width
    }

    fn south_edge(&self) -> (r: i64) {
        self.position_y - self.height
    }

    fn west_edge(&self) -> (r: i64) {
        self.position_x
    }
}

} // verus!
