//! The options of the solver: which kicks a turn may use and which moves a
//! piece may make.

use vstd::prelude::*;
use crate::game::Move;
use crate::piece::PieceKind;
use crate::utils::direction::Direction;
use crate::utils::point::Point;
use crate::utils::rotation::{Orientation, Rotation};

verus! {

/// The rotation system that kicks and spawn rows are taken from.
#[derive(Debug, Clone, Copy, PartialEq, Eq, Structural)]
pub enum Kick {
    SRS,
}

/// The options of the solver.
#[derive(Debug, Clone, Copy, PartialEq, Eq, Structural)]
pub struct Config {
    pub kick: Kick,
    /// Whether a piece may be moved down one row at a time.
    pub soft_drop_allowed: bool,
}

/// Whether one quarter turn leads from one orientation to the other.
pub open spec fn is_quarter_turn(from: Orientation, to: Orientation) -> bool {
    to == from.spec_rotated(Rotation::Clockwise) || to == from.spec_rotated(
        Rotation::AntiClockwise,
    )
}

/// The offset data of the rotation system for the kinds with a bounding box
/// of side three: entry `i` (0 to 4) for a piece facing `orientation`.
pub open spec fn srs_common_offset(orientation: Orientation, i: int) -> (int, int) {
    match orientation {
        Orientation::North => (0, 0),
        Orientation::South => (0, 0),
        Orientation::East => if i == 0 {
            (0, 0)
        } else if i == 1 {
            (1, 0)
        } else if i == 2 {
            (1, -1)
        } else if i == 3 {
            (0, 2)
        } else {
            (1, 2)
        },
        Orientation::West => if i == 0 {
            (0, 0)
        } else if i == 1 {
            (-1, 0)
        } else if i == 2 {
            (-1, -1)
        } else if i == 3 {
            (0, 2)
        } else {
            (-1, 2)
        },
    }
}

/// The offset data of the rotation system for the I piece: entry `i` (0 to 4)
/// for a piece facing `orientation`.
pub open spec fn srs_i_offset(orientation: Orientation, i: int) -> (int, int) {
    match orientation {
        Orientation::North => if i == 0 {
            (0, 0)
        } else if i == 1 {
            (-1, 0)
        } else if i == 2 {
            (2, 0)
        } else if i == 3 {
            (-1, 0)
        } else {
            (2, 0)
        },
        Orientation::East => if i == 0 {
            (-1, 0)
        } else if i == 1 {
            (0, 0)
        } else if i == 2 {
            (0, 0)
        } else if i == 3 {
            (0, 1)
        } else {
            (0, -2)
        },
        Orientation::South => if i == 0 {
            (-1, 1)
        } else if i == 1 {
            (1, 1)
        } else if i == 2 {
            (-2, 1)
        } else if i == 3 {
            (1, 0)
        } else {
            (-2, 0)
        },
        Orientation::West => if i == 0 {
            (0, 1)
        } else if i == 1 {
            (0, 1)
        } else if i == 2 {
            (0, 1)
        } else if i == 3 {
            (0, -1)
        } else {
            (0, 2)
        },
    }
}

/// Entry `i` of the offset data for a kind.
pub open spec fn srs_offset(kind: PieceKind, orientation: Orientation, i: int) -> (int, int) {
    if kind == PieceKind::I {
        srs_i_offset(orientation, i)
    } else {
        srs_common_offset(orientation, i)
    }
}

/// The translation that kick `i` (0 to 3) tries after a turn that does not
/// fit in place. The rotation system places a turned piece by the difference
/// of the offset data of the two orientations; entry 0 gives the turn in
/// place, and each kick is what a later entry adds to it.
pub open spec fn srs_kick(kind: PieceKind, from: Orientation, to: Orientation, i: int) -> Point {
    let base_from = srs_offset(kind, from, 0);
    let base_to = srs_offset(kind, to, 0);
    let entry_from = srs_offset(kind, from, i + 1);
    let entry_to = srs_offset(kind, to, i + 1);
    Point {
        x: ((entry_from.0 - entry_to.0) - (base_from.0 - base_to.0)) as isize,
        y: ((entry_from.1 - entry_to.1) - (base_from.1 - base_to.1)) as isize,
    }
}

impl Config {
    /// The options the solver starts from: the SRS kicks, no soft drop.
    pub fn default() -> (config: Config)
        ensures
            config == (Config { kick: Kick::SRS, soft_drop_allowed: false }),
    {
        Config { kick: Kick::SRS, soft_drop_allowed: false }
    }

    /// The kicks to try, in order, after a turn from `from` to `to` that does
    /// not fit in place: none for the O piece and none unless the turn is a
    /// quarter turn, else four.
    pub open spec fn spec_kick_table(
        self,
        piece_kind: PieceKind,
        from: Orientation,
        to: Orientation,
    ) -> Option<Seq<Point>> {
        match self.kick {
            Kick::SRS => if piece_kind == PieceKind::O || !is_quarter_turn(from, to) {
                None
            } else {
                Some(Seq::new(4, |i: int| srs_kick(piece_kind, from, to, i)))
            },
        }
    }

    /// The kicks to try, in order, after a turn that does not fit in place.
    pub fn kick_table(&self, piece_kind: &PieceKind, from: &Orientation, to: &Orientation) -> (table:
        Option<[Point; 4]>)
        ensures
            table is Some <==> *piece_kind != PieceKind::O && is_quarter_turn(*from, *to),
            match table {
                Some(kicks) => self.spec_kick_table(*piece_kind, *from, *to) == Some(kicks@),
                None => self.spec_kick_table(*piece_kind, *from, *to) is None,
            },
    {
        let table = match self.kick {
            Kick::SRS => match piece_kind {
                PieceKind::O => None,
                PieceKind::I => match (from, to) {
                    (Orientation::North, Orientation::East) => Some(
                        [Point::new(-2, 0), Point::new(1, 0), Point::new(-2, -1), Point::new(1, 2)],
                    ),
                    (Orientation::East, Orientation::North) => Some(
                        [Point::new(2, 0), Point::new(-1, 0), Point::new(2, 1), Point::new(-1, -2)],
                    ),
                    (Orientation::East, Orientation::South) => Some(
                        [Point::new(-1, 0), Point::new(2, 0), Point::new(-1, 2), Point::new(2, -1)],
                    ),
                    (Orientation::South, Orientation::East) => Some(
                        [Point::new(1, 0), Point::new(-2, 0), Point::new(1, -2), Point::new(-2, 1)],
                    ),
                    (Orientation::South, Orientation::West) => Some(
                        [Point::new(2, 0), Point::new(-1, 0), Point::new(2, 1), Point::new(-1, -2)],
                    ),
                    (Orientation::West, Orientation::South) => Some(
                        [Point::new(-2, 0), Point::new(1, 0), Point::new(-2, -1), Point::new(1, 2)],
                    ),
                    (Orientation::West, Orientation::North) => Some(
                        [Point::new(1, 0), Point::new(-2, 0), Point::new(1, -2), Point::new(-2, 1)],
                    ),
                    (Orientation::North, Orientation::West) => Some(
                        [Point::new(-1, 0), Point::new(2, 0), Point::new(-1, 2), Point::new(2, -1)],
                    ),
                    _ => None,
                },
                _ => match (from, to) {
                    (Orientation::North, Orientation::East) => Some(
                        [
                            Point::new(-1, 0),
                            Point::new(-1, 1),
                            Point::new(0, -2),
                            Point::new(-1, -2),
                        ],
                    ),
                    (Orientation::East, Orientation::North) => Some(
                        [Point::new(1, 0), Point::new(1, -1), Point::new(0, 2), Point::new(1, 2)],
                    ),
                    (Orientation::East, Orientation::South) => Some(
                        [Point::new(1, 0), Point::new(1, -1), Point::new(0, 2), Point::new(1, 2)],
                    ),
                    (Orientation::South, Orientation::East) => Some(
                        [
                            Point::new(-1, 0),
                            Point::new(-1, 1),
                            Point::new(0, -2),
                            Point::new(-1, -2),
                        ],
                    ),
                    (Orientation::South, Orientation::West) => Some(
                        [Point::new(1, 0), Point::new(1, 1), Point::new(0, -2), Point::new(1, -2)],
                    ),
                    (Orientation::West, Orientation::South) => Some(
                        [
                            Point::new(-1, 0),
                            Point::new(-1, -1),
                            Point::new(0, 2),
                            Point::new(-1, 2),
                        ],
                    ),
                    (Orientation::West, Orientation::North) => Some(
                        [
                            Point::new(-1, 0),
                            Point::new(-1, -1),
                            Point::new(0, 2),
                            Point::new(-1, 2),
                        ],
                    ),
                    (Orientation::North, Orientation::West) => Some(
                        [Point::new(1, 0), Point::new(1, 1), Point::new(0, -2), Point::new(1, -2)],
                    ),
                    _ => None,
                },
            },
        };
        proof {
            if let Some(kicks) = table {
                assert(kicks@ =~= Seq::new(4, |i: int| srs_kick(*piece_kind, *from, *to, i)));
            }
        }
        table
    }

    /// The moves a piece may make: the two quarter turns, the hard drop, a
    /// step left and a step right, and a step down where soft drop is allowed.
    pub open spec fn spec_possible_moves(self) -> Seq<Move> {
        let moves = seq![
            Move::Rotate(Rotation::Clockwise),
            Move::Rotate(Rotation::AntiClockwise),
            Move::Drop,
            Move::Translate(Direction::Left),
            Move::Translate(Direction::Right),
        ];
        if self.soft_drop_allowed {
            moves.push(Move::Translate(Direction::Down))
        } else {
            moves
        }
    }

    /// The moves a piece may make, in the order in which they are tried.
    pub fn possible_moves(&self) -> (moves: Vec<Move>)
        ensures
            moves@ == self.spec_possible_moves(),
    {
        let mut moves = vec![
            Move::Rotate(Rotation::Clockwise),
            Move::Rotate(Rotation::AntiClockwise),
            Move::Drop,
            Move::Translate(Direction::Left),
            Move::Translate(Direction::Right),
        ];
        if self.soft_drop_allowed {
            moves.push(Move::Translate(Direction::Down));
        }
        assert(moves@ =~= self.spec_possible_moves());
        moves
    }
}

/// The kick table has four entries for each quarter turn of every kind but O,
/// and none for O, for a half turn or for a turn that changes nothing.
pub proof fn lemma_kick_table_shape(
    config: Config,
    kind: PieceKind,
    from: Orientation,
    to: Orientation,
)
    ensures
        kind == PieceKind::O ==> config.spec_kick_table(kind, from, to) is None,
        !is_quarter_turn(from, to) ==> config.spec_kick_table(kind, from, to) is None,
        to == from || to == from.spec_rotated(Rotation::Half) ==> !is_quarter_turn(from, to),
        kind != PieceKind::O && is_quarter_turn(from, to) ==> config.spec_kick_table(
            kind,
            from,
            to,
        ) is Some && config.spec_kick_table(kind, from, to).unwrap().len() == 4,
{
}

/// Every kick of a quarter turn moves a piece by at most two cells in each
/// axis, and the kick tried for the turn back is the opposite of the kick tried
/// for a turn.
pub proof fn lemma_kick_extent(kind: PieceKind, from: Orientation, to: Orientation, i: int)
    requires
        0 <= i < 4,
    ensures
        is_quarter_turn(from, to) ==> -2 <= srs_kick(kind, from, to, i).x <= 2,
        is_quarter_turn(from, to) ==> -2 <= srs_kick(kind, from, to, i).y <= 2,
        srs_kick(kind, to, from, i).x == -srs_kick(kind, from, to, i).x,
        srs_kick(kind, to, from, i).y == -srs_kick(kind, from, to, i).y,
{
}

/// A kick that lifts the piece moves it sideways exactly as the turn in place
/// or as an earlier kick of the same table does.
pub proof fn lemma_rising_kick_has_twin(
    kind: PieceKind,
    from: Orientation,
    to: Orientation,
    i: int,
) -> (twin: int)
    requires
        0 <= i < 4,
        is_quarter_turn(from, to),
        srs_kick(kind, from, to, i).y > 0,
    ensures
        -1 <= twin < i,
        twin == -1 ==> srs_kick(kind, from, to, i).x == 0,
        twin >= 0 ==> srs_kick(kind, from, to, twin).x == srs_kick(kind, from, to, i).x,
{
    if srs_kick(kind, from, to, i).x == 0 {
        -1
    } else if srs_kick(kind, from, to, 0).x == srs_kick(kind, from, to, i).x {
        0
    } else {
        1
    }
}

} // verus!
