//! The directions of a step.

use vstd::prelude::*;
use crate::utils::point::Point;

verus! {

/// A direction in which a piece can be shifted by one cell.
#[derive(Debug, Clone, Copy, PartialEq, Eq, Hash, Structural)]
pub enum Direction {
    Left,
    Right,
    Down,
}

impl Direction {
    /// The unit offset of this direction.
    pub open spec fn spec_offset(self) -> Point {
        match self {
            Direction::Down => Point { x: 0, y: -1isize },
            Direction::Left => Point { x: -1isize, y: 0 },
            Direction::Right => Point { x: 1, y: 0 },
        }
    }

    /// The unit offset of the direction.
    pub fn get_offset(&self) -> (offset: Point)
        ensures
            offset == self.spec_offset(),
    {
        match self {
            Direction::Down => Point::new(0, -1),
            Direction::Left => Point::new(-1, 0),
            Direction::Right => Point::new(1, 0),
        }
    }
}

} // verus!
