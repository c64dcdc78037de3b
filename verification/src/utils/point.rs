//! Points of the playfield grid.

use vstd::prelude::*;
use vstd::std_specs::ops::AddSpecImpl;
use vstd::std_specs::ops::SubSpecImpl;

verus! {

/// A cell position or an offset on the playfield grid.
///
/// `x` grows to the right and `y` grows upwards; `(0, 0)` is the bottom-left
/// cell of the playfield.
#[derive(Debug, Clone, Copy, PartialEq, Eq, Hash, Structural)]
pub struct Point {
    pub x: isize,
    pub y: isize,
}

impl Point {
    /// The point with the given coordinates.
    pub fn new(x: isize, y: isize) -> (point: Point)
        ensures
            point.x == x,
            point.y == y,
    {
        Point { x, y }
    }

    /// Whether the component-wise sum with `other` is representable.
    pub open spec fn can_add(self, other: Point) -> bool {
        &&& isize::MIN <= self.x + other.x <= isize::MAX
        &&& isize::MIN <= self.y + other.y <= isize::MAX
    }

    /// Whether the component-wise difference with `other` is representable.
    pub open spec fn can_sub(self, other: Point) -> bool {
        &&& isize::MIN <= self.x - other.x <= isize::MAX
        &&& isize::MIN <= self.y - other.y <= isize::MAX
    }

    /// The component-wise sum of two points.
    pub open spec fn plus(self, other: Point) -> Point
        recommends
            self.can_add(other),
    {
        Point { x: (self.x + other.x) as isize, y: (self.y + other.y) as isize }
    }

    /// The component-wise difference of two points.
    pub open spec fn minus(self, other: Point) -> Point
        recommends
            self.can_sub(other),
    {
        Point { x: (self.x - other.x) as isize, y: (self.y - other.y) as isize }
    }
}

impl core::ops::Add for Point {
    type Output = Point;

    fn add(self, other: Point) -> (sum: Point) {
        Point::new(self.x + other.x, self.y + other.y)
    }
}

impl AddSpecImpl for Point {
    open spec fn obeys_add_spec() -> bool {
        true
    }

    open spec fn add_req(self, other: Point) -> bool {
        self.can_add(other)
    }

    open spec fn add_spec(self, other: Point) -> Point {
        self.plus(other)
    }
}

impl core::ops::Sub for Point {
    type Output = Point;

    fn sub(self, other: Point) -> (difference: Point) {
        Point::new(self.x - other.x, self.y - other.y)
    }
}

impl SubSpecImpl for Point {
    open spec fn obeys_sub_spec() -> bool {
        true
    }

    open spec fn sub_req(self, other: Point) -> bool {
        self.can_sub(other)
    }

    open spec fn sub_spec(self, other: Point) -> Point {
        self.minus(other)
    }
}

} // verus!
