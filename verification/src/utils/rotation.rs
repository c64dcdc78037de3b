//! Orientations and the turns that lead from one to another.

use vstd::prelude::*;

verus! {

/// The way a piece faces. `North` is the orientation a piece spawns in.
#[derive(Debug, Clone, Copy, PartialEq, Eq, Hash, Structural)]
pub enum Orientation {
    North,
    South,
    East,
    West,
}

/// A turn applied to an orientation.
#[derive(Debug, Clone, Copy, PartialEq, Eq, Hash, Structural)]
pub enum Rotation {
    Clockwise,
    AntiClockwise,
    Half,
}

impl Orientation {
    /// The number of clockwise quarter turns that lead from `North` to this
    /// orientation.
    pub open spec fn quarter_turns(self) -> int {
        match self {
            Orientation::North => 0,
            Orientation::East => 1,
            Orientation::South => 2,
            Orientation::West => 3,
        }
    }

    /// The orientation reached after the given number (0 to 3) of clockwise
    /// quarter turns from `North`.
    pub open spec fn from_quarter_turns(turns: int) -> Orientation {
        if turns == 0 {
            Orientation::North
        } else if turns == 1 {
            Orientation::East
        } else if turns == 2 {
            Orientation::South
        } else {
            Orientation::West
        }
    }

    /// The orientation reached by applying `by`: orientations form a cycle of
    /// four and a rotation advances along it.
    pub open spec fn spec_rotated(self, by: Rotation) -> Orientation {
        Orientation::from_quarter_turns((self.quarter_turns() + by.quarter_turns()) % 4)
    }

    /// The orientation reached by applying `by`.
    pub fn rotated(&self, by: &Rotation) -> (turned: Orientation)
        ensures
            turned == self.spec_rotated(*by),
    {
        match self {
            Orientation::North => match by {
                Rotation::Clockwise => Orientation::East,
                Rotation::AntiClockwise => Orientation::West,
                Rotation::Half => Orientation::South,
            },
            Orientation::South => match by {
                Rotation::Clockwise => Orientation::West,
                Rotation::AntiClockwise => Orientation::East,
                Rotation::Half => Orientation::North,
            },
            Orientation::East => match by {
                Rotation::Clockwise => Orientation::South,
                Rotation::AntiClockwise => Orientation::North,
                Rotation::Half => Orientation::West,
            },
            Orientation::West => match by {
                Rotation::Clockwise => Orientation::North,
                Rotation::AntiClockwise => Orientation::South,
                Rotation::Half => Orientation::East,
            },
        }
    }
}

impl Rotation {
    /// The number of clockwise quarter turns this rotation amounts to.
    pub open spec fn quarter_turns(self) -> int {
        match self {
            Rotation::Clockwise => 1,
            Rotation::Half => 2,
            Rotation::AntiClockwise => 3,
        }
    }

    /// The rotation that undoes this one.
    pub open spec fn inverse(self) -> Rotation {
        match self {
            Rotation::Clockwise => Rotation::AntiClockwise,
            Rotation::Half => Rotation::Half,
            Rotation::AntiClockwise => Rotation::Clockwise,
        }
    }
}

/// Rotations act on orientations as the cyclic group of order four: a rotation
/// followed by its inverse changes nothing, and two rotations in a row amount
/// to the sum of their quarter turns.
pub proof fn lemma_rotation_group(from: Orientation, first: Rotation, second: Rotation)
    ensures
        from.spec_rotated(first).spec_rotated(first.inverse()) == from,
        from.spec_rotated(first).spec_rotated(second).quarter_turns() == (from.quarter_turns()
            + first.quarter_turns() + second.quarter_turns()) % 4,
        Orientation::from_quarter_turns(from.quarter_turns()) == from,
{
}

/// Four clockwise quarter turns bring every orientation back to itself.
pub proof fn lemma_four_clockwise_turns(from: Orientation)
    ensures
        from.spec_rotated(Rotation::Clockwise).spec_rotated(Rotation::Clockwise).spec_rotated(
            Rotation::Clockwise,
        ).spec_rotated(Rotation::Clockwise) == from,
{
}

} // verus!
