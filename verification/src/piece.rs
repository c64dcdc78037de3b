//! The seven kinds of piece, their cells, and where they appear.

use vstd::prelude::*;
use crate::config::{Config, Kick};
use crate::utils::point::Point;
use crate::utils::rotation::{Orientation, Rotation};

verus! {

/// The seven kinds of piece.
#[derive(Debug, Clone, Copy, PartialEq, Eq, Hash, Structural)]
pub enum PieceKind {
    I,
    J,
    L,
    O,
    S,
    T,
    Z,
}

/// The row right above the four rows that a perfect clear is played in.
/// Pieces appear in this row and the next, the two spare rows of the board.
pub const SPAWN_TOP: isize = 4;

/// The column of the left edge of a spawning piece's bounding box.
pub const SPAWN_COLUMN: isize = 3;

/// The seven kinds in the order of their byte encoding.
pub open spec fn spec_piece_kinds() -> Seq<PieceKind> {
    seq![
        PieceKind::I,
        PieceKind::J,
        PieceKind::L,
        PieceKind::O,
        PieceKind::S,
        PieceKind::T,
        PieceKind::Z,
    ]
}

/// The seven kinds in the order of their byte encoding.
pub fn piece_kinds() -> (kinds: [PieceKind; 7])
    ensures
        kinds@ == spec_piece_kinds(),
        forall|kind: PieceKind| kinds@[kind.spec_index()] == kind,
{
    let kinds = [
        PieceKind::I,
        PieceKind::J,
        PieceKind::L,
        PieceKind::O,
        PieceKind::S,
        PieceKind::T,
        PieceKind::Z,
    ];
    assert(kinds@ =~= spec_piece_kinds());
    kinds
}

impl PieceKind {
    /// The place of the kind in the order I, J, L, O, S, T, Z, which is also
    /// the byte that encodes it.
    pub open spec fn spec_index(self) -> int {
        match self {
            PieceKind::I => 0,
            PieceKind::J => 1,
            PieceKind::L => 2,
            PieceKind::O => 3,
            PieceKind::S => 4,
            PieceKind::T => 5,
            PieceKind::Z => 6,
        }
    }

    /// The place of the kind in the order I, J, L, O, S, T, Z.
    pub fn index(&self) -> (index: usize)
        ensures
            index == self.spec_index(),
    {
        match self {
            PieceKind::I => 0,
            PieceKind::J => 1,
            PieceKind::L => 2,
            PieceKind::O => 3,
            PieceKind::S => 4,
            PieceKind::T => 5,
            PieceKind::Z => 6,
        }
    }

    /// The kind that a byte encodes: 0 to 6 stand for I, J, L, O, S, T, Z, and
    /// every other byte stands for no kind.
    pub open spec fn spec_from_byte(value: u8) -> Option<PieceKind> {
        if value < 7 {
            Some(spec_piece_kinds()[value as int])
        } else {
            None
        }
    }

    /// The kind that a byte encodes, if it encodes one.
    pub fn from_byte(value: u8) -> (kind: Option<PieceKind>)
        ensures
            kind == PieceKind::spec_from_byte(value),
            kind matches Some(k) ==> k.spec_index() == value,
            kind is Some <==> value < 7,
    {
        match value {
            0 => Some(PieceKind::I),
            1 => Some(PieceKind::J),
            2 => Some(PieceKind::L),
            3 => Some(PieceKind::O),
            4 => Some(PieceKind::S),
            5 => Some(PieceKind::T),
            6 => Some(PieceKind::Z),
            _ => None,
        }
    }

    /// The byte that encodes the kind.
    pub fn to_byte(&self) -> (value: u8)
        ensures
            value == self.spec_index(),
            PieceKind::spec_from_byte(value) == Some(*self),
    {
        match self {
            PieceKind::I => 0,
            PieceKind::J => 1,
            PieceKind::L => 2,
            PieceKind::O => 3,
            PieceKind::S => 4,
            PieceKind::T => 5,
            PieceKind::Z => 6,
        }
    }

    /// Where the bounding box of a new piece has its bottom-left corner. The
    /// cells of every kind then lie in the two rows right above the rows that
    /// a perfect clear is played in: the box of the I piece stands two rows
    /// below `SPAWN_TOP`, the box of every other kind one row below it.
    pub open spec fn spec_spawn_point(self, config: Config) -> Point {
        match config.kick {
            Kick::SRS => match self {
                PieceKind::I => Point { x: 3, y: 2 },
                _ => Point { x: 3, y: 3 },
            },
        }
    }

    /// Where the bounding box of a new piece has its bottom-left corner.
    pub fn get_spawn_point(&self, config: &Config) -> (point: Point)
        ensures
            point == self.spec_spawn_point(*config),
    {
        match config.kick {
            Kick::SRS => match self {
                PieceKind::I => Point::new(SPAWN_COLUMN, SPAWN_TOP - 2),
                PieceKind::J => Point::new(SPAWN_COLUMN, SPAWN_TOP - 1),
                PieceKind::L => Point::new(SPAWN_COLUMN, SPAWN_TOP - 1),
                PieceKind::O => Point::new(SPAWN_COLUMN, SPAWN_TOP - 1),
                PieceKind::S => Point::new(SPAWN_COLUMN, SPAWN_TOP - 1),
                PieceKind::T => Point::new(SPAWN_COLUMN, SPAWN_TOP - 1),
                PieceKind::Z => Point::new(SPAWN_COLUMN, SPAWN_TOP - 1),
            },
        }
    }

    /// The four cells of the kind inside its bounding box, facing north.
    pub open spec fn spec_position_offsets(self) -> Seq<Point> {
        match self {
            PieceKind::I => seq![
                Point { x: 0, y: 2 },
                Point { x: 1, y: 2 },
                Point { x: 2, y: 2 },
                Point { x: 3, y: 2 },
            ],
            PieceKind::J => seq![
                Point { x: 0, y: 2 },
                Point { x: 0, y: 1 },
                Point { x: 1, y: 1 },
                Point { x: 2, y: 1 },
            ],
            PieceKind::L => seq![
                Point { x: 2, y: 2 },
                Point { x: 0, y: 1 },
                Point { x: 1, y: 1 },
                Point { x: 2, y: 1 },
            ],
            PieceKind::O => seq![
                Point { x: 1, y: 2 },
                Point { x: 2, y: 2 },
                Point { x: 1, y: 1 },
                Point { x: 2, y: 1 },
            ],
            PieceKind::S => seq![
                Point { x: 1, y: 2 },
                Point { x: 2, y: 2 },
                Point { x: 0, y: 1 },
                Point { x: 1, y: 1 },
            ],
            PieceKind::T => seq![
                Point { x: 1, y: 2 },
                Point { x: 0, y: 1 },
                Point { x: 1, y: 1 },
                Point { x: 2, y: 1 },
            ],
            PieceKind::Z => seq![
                Point { x: 0, y: 2 },
                Point { x: 1, y: 2 },
                Point { x: 1, y: 1 },
                Point { x: 2, y: 1 },
            ],
        }
    }

    /// The side of the square bounding box of the kind.
    pub open spec fn spec_bounding_box_size(self) -> int {
        match self {
            PieceKind::I => 4,
            PieceKind::O => 4,
            _ => 3,
        }
    }

    /// The bounding box of the kind with its cells facing north.
    pub fn get_unoriented_offset_box(&self, config: &Config) -> (offset_box: PieceOffsetBox)
        ensures
            offset_box.offsets@ == self.spec_position_offsets(),
            offset_box.bounding_box_size == self.spec_bounding_box_size(),
            offset_box.is_well_formed(),
    {
        PieceOffsetBox {
            offsets: self.get_position_offsets(config),
            bounding_box_size: self.get_bounding_box_size(config),
        }
    }

    /// The four cells of the kind inside its bounding box, facing north.
    pub fn get_position_offsets(&self, _config: &Config) -> (offsets: [Point; 4])
        ensures
            offsets@ == self.spec_position_offsets(),
    {
        let offsets = match self {
            PieceKind::I => [
                Point::new(0, 2),
                Point::new(1, 2),
                Point::new(2, 2),
                Point::new(3, 2),
            ],
            PieceKind::J => [
                Point::new(0, 2),
                Point::new(0, 1),
                Point::new(1, 1),
                Point::new(2, 1),
            ],
            PieceKind::L => [
                Point::new(2, 2),
                Point::new(0, 1),
                Point::new(1, 1),
                Point::new(2, 1),
            ],
            PieceKind::O => [
                Point::new(1, 2),
                Point::new(2, 2),
                Point::new(1, 1),
                Point::new(2, 1),
            ],
            PieceKind::S => [
                Point::new(1, 2),
                Point::new(2, 2),
                Point::new(0, 1),
                Point::new(1, 1),
            ],
            PieceKind::T => [
                Point::new(1, 2),
                Point::new(0, 1),
                Point::new(1, 1),
                Point::new(2, 1),
            ],
            PieceKind::Z => [
                Point::new(0, 2),
                Point::new(1, 2),
                Point::new(1, 1),
                Point::new(2, 1),
            ],
        };
        assert(offsets@ =~= self.spec_position_offsets());
        offsets
    }

    /// The side of the square bounding box of the kind.
    pub fn get_bounding_box_size(&self, _config: &Config) -> (size: usize)
        ensures
            size == self.spec_bounding_box_size(),
    {
        match self {
            PieceKind::I => 4,
            PieceKind::J => 3,
            PieceKind::L => 3,
            PieceKind::O => 4,
            PieceKind::S => 3,
            PieceKind::T => 3,
            PieceKind::Z => 3,
        }
    }
}

impl TryFrom<u8> for PieceKind {
    type Error = ();

    fn try_from(value: u8) -> (kind: Result<PieceKind, ()>) {
        match PieceKind::from_byte(value) {
            Some(kind) => Ok(kind),
            None => Err(()),
        }
    }
}

impl vstd::std_specs::convert::TryFromSpecImpl<u8> for PieceKind {
    open spec fn obeys_try_from_spec() -> bool {
        true
    }

    open spec fn try_from_spec(value: u8) -> Result<PieceKind, ()> {
        match PieceKind::spec_from_byte(value) {
            Some(kind) => Ok(kind),
            None => Err(()),
        }
    }
}

/// Where a cell of a piece facing north lies, seen from the bottom-left
/// corner of the bounding box, once the piece faces `orientation`.
pub open spec fn spec_orient_offset(offset: Point, size: int, orientation: Orientation) -> Point {
    match orientation {
        Orientation::North => offset,
        Orientation::South => Point {
            x: (size - 1 - offset.x) as isize,
            y: (size - 1 - offset.y) as isize,
        },
        Orientation::East => Point { x: offset.y, y: (size - 1 - offset.x) as isize },
        Orientation::West => Point { x: (size - 1 - offset.y) as isize, y: offset.x },
    }
}

/// Four cells given from the bottom-left corner of a square bounding box.
pub struct PieceOffsetBox {
    pub offsets: [Point; 4],
    pub bounding_box_size: usize,
}

impl PieceOffsetBox {
    /// Every cell lies inside the box, and the box has a side of one to four.
    pub open spec fn is_well_formed(self) -> bool {
        &&& 1 <= self.bounding_box_size <= 4
        &&& forall|i: int|
            0 <= i < 4 ==> 0 <= (#[trigger] self.offsets@[i]).x < self.bounding_box_size && 0
                <= self.offsets@[i].y < self.bounding_box_size
    }
}

/// Turns the cells of a box that faces north so that they face `orientation`.
pub fn orient_offset_box(unoriented_offset_box: &mut PieceOffsetBox, orientation: &Orientation)
    requires
        old(unoriented_offset_box).is_well_formed(),
    ensures
        final(unoriented_offset_box).bounding_box_size == old(unoriented_offset_box).bounding_box_size,
        final(unoriented_offset_box).is_well_formed(),
        forall|i: int|
            0 <= i < 4 ==> #[trigger] final(unoriented_offset_box).offsets@[i]
                == spec_orient_offset(
                old(unoriented_offset_box).offsets@[i],
                old(unoriented_offset_box).bounding_box_size as int,
                *orientation,
            ),
{
    let size_minus_one = (unoriented_offset_box.bounding_box_size - 1) as isize;
    let mut offsets = unoriented_offset_box.offsets;
    let mut i: usize = 0;
    while i < 4
        invariant
            0 <= i <= 4,
            size_minus_one == old(unoriented_offset_box).bounding_box_size - 1,
            old(unoriented_offset_box).is_well_formed(),
            forall|k: int| i <= k < 4 ==> offsets@[k] == old(unoriented_offset_box).offsets@[k],
            forall|k: int|
                0 <= k < i ==> #[trigger] offsets@[k] == spec_orient_offset(
                    old(unoriented_offset_box).offsets@[k],
                    old(unoriented_offset_box).bounding_box_size as int,
                    *orientation,
                ),
        decreases 4 - i,
    {
        let offset = offsets[i];
        let turned = match orientation {
            Orientation::North => offset,
            Orientation::South => Point::new(size_minus_one - offset.x, size_minus_one - offset.y),
            Orientation::East => Point::new(offset.y, size_minus_one - offset.x),
            Orientation::West => Point::new(size_minus_one - offset.y, offset.x),
        };
        offsets[i] = turned;
        i += 1;
    }
    unoriented_offset_box.offsets = offsets;
}

/// A piece on the playfield.
#[derive(Debug, Clone, Copy, PartialEq, Eq, Hash, Structural)]
pub struct Piece {
    pub kind: PieceKind,
    /// The bottom-left corner of the bounding box.
    pub position: Point,
    pub orientation: Orientation,
}

impl Piece {
    /// The cells of the piece are representable: the bounding box does not
    /// reach past the largest coordinate.
    pub open spec fn has_points(self) -> bool {
        self.position.x <= isize::MAX - 3 && self.position.y <= isize::MAX - 3
    }

    /// The piece is far enough from the ends of the coordinate range that it
    /// can be shifted by any kick or unit step and still have its cells.
    pub open spec fn in_bounds(self) -> bool {
        &&& isize::MIN + 2 <= self.position.x <= isize::MAX - 5
        &&& isize::MIN + 2 <= self.position.y <= isize::MAX - 5
    }

    /// Whether the piece is far enough from the ends of the coordinate range to
    /// be moved.
    pub fn is_in_bounds(&self) -> (inside: bool)
        ensures
            inside == self.in_bounds(),
    {
        isize::MIN + 2 <= self.position.x && self.position.x <= isize::MAX - 5 && isize::MIN + 2
            <= self.position.y && self.position.y <= isize::MAX - 5
    }

    /// A new piece of the kind: at its spawn point, facing north.
    pub open spec fn spec_spawn(config: Config, kind: PieceKind) -> Piece {
        Piece { kind, position: kind.spec_spawn_point(config), orientation: Orientation::North }
    }

    /// A new piece of the kind: at its spawn point, facing north.
    pub fn spawn(config: &Config, kind: &PieceKind) -> (piece: Piece)
        ensures
            piece == Piece::spec_spawn(*config, *kind),
            piece.in_bounds(),
    {
        Piece {
            kind: *kind,
            position: kind.get_spawn_point(config),
            orientation: Orientation::North,
        }
    }

    /// The cell of the piece that cell `i` of its kind becomes: turned to the
    /// orientation of the piece and moved to its position.
    pub open spec fn spec_point(self, i: int) -> Point {
        let turned = spec_orient_offset(
            self.kind.spec_position_offsets()[i],
            self.kind.spec_bounding_box_size(),
            self.orientation,
        );
        Point {
            x: (turned.x + self.position.x) as isize,
            y: (turned.y + self.position.y) as isize,
        }
    }

    /// The four cells of the piece on the playfield.
    pub open spec fn spec_points(self, config: Config) -> Seq<Point> {
        Seq::new(4, |i: int| self.spec_point(i))
    }

    /// The piece with its position shifted by `offset`.
    pub open spec fn shifted(self, offset: Point) -> Piece {
        Piece { position: self.position.plus(offset), ..self }
    }

    /// The piece facing `orientation`.
    pub open spec fn facing(self, orientation: Orientation) -> Piece {
        Piece { orientation, ..self }
    }

    /// The four cells of the piece on the playfield, in the order of the cells
    /// of its kind.
    pub fn get_points(&self, config: &Config) -> (points: [Point; 4])
        requires
            self.has_points(),
        ensures
            points@ == self.spec_points(*config),
    {
        let mut unoriented_offset_box = self.kind.get_unoriented_offset_box(config);
        orient_offset_box(&mut unoriented_offset_box, &self.orientation);
        let offsets = unoriented_offset_box.offsets;
        let points = [
            Point::new(offsets[0].x + self.position.x, offsets[0].y + self.position.y),
            Point::new(offsets[1].x + self.position.x, offsets[1].y + self.position.y),
            Point::new(offsets[2].x + self.position.x, offsets[2].y + self.position.y),
            Point::new(offsets[3].x + self.position.x, offsets[3].y + self.position.y),
        ];
        assert(points@ =~= self.spec_points(*config));
        points
    }
}

/// The quarter turn clockwise of a cell inside a box of side `size`.
pub open spec fn spec_quarter_turn(offset: Point, size: int) -> Point {
    Point { x: offset.y, y: (size - 1 - offset.x) as isize }
}

/// Turning a piece clockwise by a quarter moves each of its cells by the same
/// quarter turn inside the bounding box, whatever the piece faced before, and
/// four quarter turns put every cell back where it was.
pub proof fn lemma_orientation_transform_cycle(
    offset: Point,
    size: int,
    orientation: Orientation,
)
    requires
        1 <= size <= 4,
        0 <= offset.x < size,
        0 <= offset.y < size,
    ensures
        spec_orient_offset(offset, size, orientation.spec_rotated(Rotation::Clockwise))
            == spec_quarter_turn(spec_orient_offset(offset, size, orientation), size),
        spec_quarter_turn(
            spec_quarter_turn(spec_quarter_turn(spec_quarter_turn(offset, size), size), size),
            size,
        ) == offset,
        0 <= spec_orient_offset(offset, size, orientation).x < size,
        0 <= spec_orient_offset(offset, size, orientation).y < size,
{
}

/// For every kind, turning the cells clockwise four times yields the cells
/// the kind started with, and every cell of a kind lies inside its bounding
/// box.
pub proof fn lemma_kind_offsets_cycle(kind: PieceKind, i: int)
    requires
        0 <= i < 4,
    ensures
        0 <= kind.spec_position_offsets()[i].x < kind.spec_bounding_box_size(),
        0 <= kind.spec_position_offsets()[i].y < kind.spec_bounding_box_size(),
        spec_quarter_turn(
            spec_quarter_turn(
                spec_quarter_turn(
                    spec_quarter_turn(
                        kind.spec_position_offsets()[i],
                        kind.spec_bounding_box_size(),
                    ),
                    kind.spec_bounding_box_size(),
                ),
                kind.spec_bounding_box_size(),
            ),
            kind.spec_bounding_box_size(),
        ) == kind.spec_position_offsets()[i],
{
}

} // verus!
