//! The playfield as a mask of bits, one bit for each cell.

use vstd::prelude::*;
use crate::utils::point::Point;

verus! {

/// The mask with exactly the bottom row filled.
pub const ONE_PC_FILL: u64 = 0x3FF;

/// The mask with exactly the two bottom rows filled.
pub const TWO_PC_FILL: u64 = 0xF_FFFF;

/// The mask with exactly the three bottom rows filled.
pub const THREE_PC_FILL: u64 = 0x3FFF_FFFF;

/// The mask with exactly the four bottom rows filled.
pub const FOUR_PC_FILL: u64 = 0xFF_FFFF_FFFF;

/// The mask with every cell of the six rows filled.
pub const FULL_FILL: u64 = 0xFFF_FFFF_FFFF_FFFF;

/// Whether bit `index` of `bits` is set.
pub open spec fn bit_at(bits: u64, index: u64) -> bool {
    (bits >> index) & 1 == 1
}

/// The playfield: ten columns by six rows, one bit per cell.
///
/// The cell in column `x` and row `y` is bit `x + y * 10` of `fill`; row 0 is
/// the bottom row and column 0 the leftmost one. Bits 60 to 63 belong to no
/// cell.
#[derive(Debug, Clone, Copy, PartialEq, Eq, Hash, Structural)]
pub struct Board {
    pub fill: u64,
}

impl Board {
    /// Whether `(x, y)` names a cell that the board stores.
    pub open spec fn in_window(x: int, y: int) -> bool {
        0 <= x < 10 && 0 <= y < 6
    }

    /// Whether `(x, y)` is a stored cell and that cell is filled.
    pub open spec fn has_cell(self, x: int, y: int) -> bool {
        Board::in_window(x, y) && bit_at(self.fill, (x + y * 10) as u64)
    }

    /// What a collision test reads at `(x, y)`: the walls left and right of the
    /// playfield and the floor below it read as filled, everything above the
    /// stored rows reads as empty, and a stored cell reads as it is.
    pub open spec fn filled_at(self, x: int, y: int) -> bool {
        x < 0 || x >= 10 || y < 0 || self.has_cell(x, y)
    }

    /// What a collision test reads at a point.
    pub open spec fn spec_is_filled(self, at: Point) -> bool {
        self.filled_at(at.x as int, at.y as int)
    }

    /// The bits that belong to no cell.
    pub open spec fn spare_bits(self) -> u64 {
        self.fill >> 60
    }

    /// The board with the cell at `point` filled; a point that names no stored
    /// cell changes nothing.
    pub open spec fn spec_fill(self, point: Point) -> Board {
        if Board::in_window(point.x as int, point.y as int) {
            Board { fill: self.fill | (1u64 << ((point.x + point.y * 10) as u64)) }
        } else {
            self
        }
    }

    /// The board with the cell at `point` emptied; a point that names no stored
    /// cell changes nothing.
    pub open spec fn spec_empty(self, point: Point) -> Board {
        if Board::in_window(point.x as int, point.y as int) {
            Board { fill: self.fill & !(1u64 << ((point.x + point.y * 10) as u64)) }
        } else {
            self
        }
    }

    /// The board with every bit set that is set in one of the two masks.
    pub open spec fn spec_union(self, other: Board) -> Board {
        Board { fill: self.fill | other.fill }
    }

    /// Whether some bit is set in both masks.
    pub open spec fn spec_has_intersect(self, other: Board) -> bool {
        self.fill & other.fill != 0
    }

    /// None of the points reads as filled.
    pub open spec fn spec_can_fit(self, points: Seq<Point>) -> bool {
        forall|i: int| 0 <= i < points.len() ==> !self.spec_is_filled(#[trigger] points[i])
    }

    /// One of the points rests on something: the position right below it reads
    /// as filled.
    pub open spec fn is_supported(self, points: Seq<Point>) -> bool {
        exists|i: int|
            0 <= i < points.len() && self.filled_at(
                (#[trigger] points[i]).x as int,
                points[i].y - 1,
            )
    }

    /// The points fit and one of them rests on something.
    pub open spec fn spec_can_place(self, points: Seq<Point>) -> bool {
        self.spec_can_fit(points) && self.is_supported(points)
    }

    /// The board after filling every point of the sequence, first to last.
    pub open spec fn spec_fill_piece_points(self, points: Seq<Point>) -> Board
        decreases points.len(),
    {
        if points.len() == 0 {
            self
        } else {
            self.spec_fill_piece_points(points.drop_last()).spec_fill(points.last())
        }
    }

    /// Every position of row `y` between the walls reads as filled.
    pub open spec fn spec_is_line_filled(self, y: int) -> bool {
        forall|x: int| 0 <= x < 10 ==> #[trigger] self.filled_at(x, y)
    }

    /// Every position of row `y` between the walls reads as empty.
    pub open spec fn spec_is_line_empty(self, y: int) -> bool {
        forall|x: int| 0 <= x < 10 ==> !#[trigger] self.filled_at(x, y)
    }

    /// No bit of the mask is set.
    pub open spec fn spec_is_empty_board(self) -> bool {
        self.fill == 0
    }

    /// The board is one of the four shapes that clear perfectly: the bottom
    /// one, two, three or four rows filled and nothing else.
    pub open spec fn spec_can_perfect_clear(self) -> bool {
        self.fill == ONE_PC_FILL || self.fill == TWO_PC_FILL || self.fill == THREE_PC_FILL
            || self.fill == FOUR_PC_FILL
    }

    /// Exactly the cells of the bottom `rows` rows are filled.
    pub open spec fn is_row_prefix(self, rows: int) -> bool {
        &&& self.spare_bits() == 0
        &&& forall|x: int, y: int|
            Board::in_window(x, y) ==> (#[trigger] self.has_cell(x, y) <==> y < rows)
    }

    /// The number of rows below row `y` that are not completely filled.
    pub open spec fn kept_below(self, y: int) -> int
        decreases y,
    {
        if y <= 0 {
            0
        } else if self.spec_is_line_filled(y - 1) {
            self.kept_below(y - 1)
        } else {
            self.kept_below(y - 1) + 1
        }
    }

    /// `after` is `before` with its filled rows taken out: every row of `before`
    /// that is not completely filled sits in `after` as many rows up as there
    /// are such rows below it, the rows above those are empty, and no bit
    /// outside the cells is set.
    pub open spec fn is_compaction_of(after: Board, before: Board) -> bool {
        &&& after.spare_bits() == 0
        &&& forall|x: int, y: int|
            Board::in_window(x, y) && !before.spec_is_line_filled(y) ==> after.has_cell(
                x,
                before.kept_below(y),
            ) == #[trigger] before.has_cell(x, y)
        &&& forall|x: int, y: int|
            Board::in_window(x, y) && y >= before.kept_below(6) ==> !#[trigger] after.has_cell(
                x,
                y,
            )
    }

    /// The board with its filled rows taken out and the rows above them moved
    /// down in their order.
    pub open spec fn spec_clear_filled_lines(self) -> Board {
        choose|after: Board| Board::is_compaction_of(after, self)
    }

    /// A board from the mask a host hands over.
    pub fn js_new(fill: u64) -> (board: Board)
        ensures
            board.fill == fill,
    {
        Board { fill }
    }

    /// The board without a filled cell.
    pub fn empty_board() -> (board: Board)
        ensures
            board.fill == 0,
            forall|x: int, y: int| !board.has_cell(x, y),
    {
        let board = Board { fill: 0 };
        proof {
            assert forall|x: int, y: int| !board.has_cell(x, y) by {
                if Board::in_window(x, y) {
                    let index = (x + y * 10) as u64;
                    assert(!bit_at(0u64, index)) by (bit_vector);
                }
            }
        }
        board
    }

    /// The board with every cell of its six rows filled.
    pub fn filled_board() -> (board: Board)
        ensures
            board.fill == FULL_FILL,
            forall|x: int, y: int| Board::in_window(x, y) ==> board.has_cell(x, y),
    {
        let board = Board { fill: 0xFFF_FFFF_FFFF_FFFF };
        proof {
            assert forall|x: int, y: int| Board::in_window(x, y) implies board.has_cell(x, y) by {
                let index = (x + y * 10) as u64;
                assert(index < 60 ==> bit_at(0xFFF_FFFF_FFFF_FFFFu64, index)) by (bit_vector);
            }
        }
        board
    }

    /// Whether a collision test reads `at` as filled. Positions left or right
    /// of the playfield and below it are filled; positions above the stored
    /// rows are empty.
    pub fn is_filled(&self, at: &Point) -> (filled: bool)
        ensures
            filled == self.spec_is_filled(*at),
    {
        if at.x < 0 || at.x >= 10 || at.y < 0 {
            return true;
        }
        if at.y >= 6 {
            return false;
        }
        let index: u64 = (at.x + at.y * 10) as u64;
        (self.fill >> index) & 1 == 1
    }

    /// Fills the cell at `point`; a point that names no stored cell changes
    /// nothing.
    pub fn fill(&mut self, point: &Point)
        ensures
            *final(self) == old(self).spec_fill(*point),
            final(self).spare_bits() == old(self).spare_bits(),
            forall|x: int, y: int|
                #[trigger] final(self).has_cell(x, y) == (old(self).has_cell(x, y) || (
                Board::in_window(x, y) && x == point.x && y == point.y)),
    {
        proof {
            self.lemma_fill_cells(*point);
        }
        if point.x < 0 || point.x >= 10 || point.y < 0 || point.y >= 6 {
            return ;
        }
        let index: u64 = (point.x + point.y * 10) as u64;
        self.fill = self.fill | (1u64 << index);
    }

    /// Empties the cell at `point`; a point that names no stored cell changes
    /// nothing.
    pub fn empty(&mut self, point: &Point)
        ensures
            *final(self) == old(self).spec_empty(*point),
            final(self).spare_bits() == old(self).spare_bits(),
            forall|x: int, y: int|
                #[trigger] final(self).has_cell(x, y) == (old(self).has_cell(x, y) && !(x
                    == point.x && y == point.y)),
    {
        proof {
            self.lemma_empty_cells(*point);
        }
        if point.x < 0 || point.x >= 10 || point.y < 0 || point.y >= 6 {
            return ;
        }
        let index: u64 = (point.x + point.y * 10) as u64;
        self.fill = self.fill & !(1u64 << index);
    }

    /// Whether no bit of the mask is set.
    pub fn is_empty_board(&self) -> (empty: bool)
        ensures
            empty == self.spec_is_empty_board(),
    {
        self.fill == 0
    }

    /// Whether some cell is filled in both boards.
    pub fn has_intersect(&self, other: &Board) -> (intersects: bool)
        ensures
            intersects == self.spec_has_intersect(*other),
            self.spare_bits() == 0 && other.spare_bits() == 0 ==> (intersects <==> exists|
                x: int,
                y: int,
            | #[trigger] self.has_cell(x, y) && other.has_cell(x, y)),
    {
        proof {
            if self.spare_bits() == 0 && other.spare_bits() == 0 {
                self.lemma_intersect_cells(*other);
            }
        }
        self.fill & other.fill != 0
    }

    /// Fills every cell that is filled in `other`.
    pub fn union(&mut self, other: &Board)
        ensures
            *final(self) == old(self).spec_union(*other),
            forall|x: int, y: int|
                #[trigger] final(self).has_cell(x, y) == (old(self).has_cell(x, y)
                    || other.has_cell(x, y)),
    {
        self.fill = self.fill | other.fill;
        proof {
            old(self).lemma_union_cells(*other);
            assert forall|x: int, y: int|
                #[trigger] self.has_cell(x, y) == (old(self).has_cell(x, y) || other.has_cell(
                    x,
                    y,
                )) by {
                assert(old(self).spec_union(*other).has_cell(x, y) == (old(self).has_cell(x, y)
                    || other.has_cell(x, y)));
            }
        }
    }

    /// Whether a piece with these four cells overlaps nothing.
    pub fn can_fit(&self, piece_points: &[Point; 4]) -> (fits: bool)
        ensures
            fits == self.spec_can_fit(piece_points@),
    {
        let mut i: usize = 0;
        while i < 4
            invariant
                0 <= i <= 4,
                forall|k: int| 0 <= k < i ==> !self.spec_is_filled(#[trigger] piece_points@[k]),
            decreases 4 - i,
        {
            if self.is_filled(&piece_points[i]) {
                return false;
            }
            i += 1;
        }
        true
    }

    /// Whether a piece with these four cells can be locked: it overlaps
    /// nothing and rests on a filled cell or on the floor.
    pub fn can_place(&self, piece_points: &[Point; 4]) -> (lockable: bool)
        ensures
            lockable == self.spec_can_place(piece_points@),
    {
        if !self.can_fit(piece_points) {
            return false;
        }
        let mut i: usize = 0;
        while i < 4
            invariant
                0 <= i <= 4,
                self.spec_can_fit(piece_points@),
                forall|k: int|
                    0 <= k < i ==> !self.filled_at(
                        (#[trigger] piece_points@[k]).x as int,
                        piece_points@[k].y - 1,
                    ),
            decreases 4 - i,
        {
            let point = piece_points[i];
            if point.y <= 0 || self.is_filled(&Point::new(point.x, point.y - 1)) {
                proof {
                    let k = i as int;
                    assert(self.filled_at(piece_points@[k].x as int, piece_points@[k].y - 1));
                }
                return true;
            }
            i += 1;
        }
        false
    }

    /// Fills the four cells of a piece.
    pub fn fill_piece_points(&mut self, piece_points: &[Point; 4])
        ensures
            *final(self) == old(self).spec_fill_piece_points(piece_points@),
    {
        let mut i: usize = 0;
        while i < 4
            invariant
                0 <= i <= 4,
                *self == old(self).spec_fill_piece_points(piece_points@.take(i as int)),
            decreases 4 - i,
        {
            proof {
                let next = piece_points@.take(i + 1);
                assert(next.drop_last() =~= piece_points@.take(i as int));
            }
            self.fill(&piece_points[i]);
            i += 1;
        }
        proof {
            assert(piece_points@.take(4) =~= piece_points@);
        }
    }

    /// Whether every cell of row `y` reads as filled. Rows below the floor do,
    /// rows above the stored ones do not.
    pub fn is_line_filled(&self, y: isize) -> (filled: bool)
        ensures
            filled == self.spec_is_line_filled(y as int),
    {
        let mut x: isize = 0;
        while x < 10
            invariant
                0 <= x <= 10,
                forall|k: int| 0 <= k < x ==> #[trigger] self.filled_at(k, y as int),
            decreases 10 - x,
        {
            if !self.is_filled(&Point::new(x, y)) {
                return false;
            }
            x += 1;
        }
        true
    }

    /// Whether every cell of row `y` reads as empty.
    pub fn is_line_empty(&self, y: isize) -> (empty: bool)
        ensures
            empty == self.spec_is_line_empty(y as int),
    {
        let mut x: isize = 0;
        while x < 10
            invariant
                0 <= x <= 10,
                forall|k: int| 0 <= k < x ==> !#[trigger] self.filled_at(k, y as int),
            decreases 10 - x,
        {
            if self.is_filled(&Point::new(x, y)) {
                return false;
            }
            x += 1;
        }
        true
    }

    /// Whether the board is one of the four shapes that clear perfectly.
    pub fn can_perfect_clear(&self) -> (clears: bool)
        ensures
            clears == self.spec_can_perfect_clear(),
    {
        self.fill == ONE_PC_FILL || self.fill == TWO_PC_FILL || self.fill == THREE_PC_FILL
            || self.fill == FOUR_PC_FILL
    }

    /// Takes out every filled row: the rows above a filled row move down, in
    /// their order, and the rows that become free at the top are empty.
    pub fn clear_filled_lines(&mut self)
        ensures
            Board::is_compaction_of(*final(self), *old(self)),
            *final(self) == old(self).spec_clear_filled_lines(),
    {
        let mut next_board = Board::empty_board();
        let mut next_y: isize = 0;
        let mut y: isize = 0;
        proof {
            assert(next_board.spare_bits() == 0) by {
                assert(0u64 >> 60 == 0) by (bit_vector);
            }
        }
        while y < 6
            invariant
                0 <= y <= 6,
                *self == *old(self),
                next_y == self.kept_below(y as int),
                0 <= next_y <= y,
                next_board.spare_bits() == 0,
                forall|x: int, r: int|
                    Board::in_window(x, r) && r < y && !self.spec_is_line_filled(r)
                        ==> next_board.has_cell(x, self.kept_below(r)) == #[trigger] self.has_cell(
                        x,
                        r,
                    ),
                forall|x: int, j: int|
                    Board::in_window(x, j) && j >= next_y ==> !#[trigger] next_board.has_cell(x, j),
            decreases 6 - y,
        {
            if !self.is_line_filled(y) {
                let mut x: isize = 0;
                while x < 10
                    invariant
                        0 <= x <= 10,
                        0 <= y < 6,
                        *self == *old(self),
                        !self.spec_is_line_filled(y as int),
                        next_y == self.kept_below(y as int),
                        0 <= next_y <= y,
                        next_board.spare_bits() == 0,
                        forall|c: int, r: int|
                            Board::in_window(c, r) && r < y && !self.spec_is_line_filled(r)
                                ==> next_board.has_cell(c, self.kept_below(r))
                                == #[trigger] self.has_cell(c, r),
                        forall|c: int|
                            0 <= c < x ==> #[trigger] next_board.has_cell(c, next_y as int)
                                == self.has_cell(c, y as int),
                        forall|c: int|
                            x <= c < 10 ==> !#[trigger] next_board.has_cell(c, next_y as int),
                        forall|c: int, j: int|
                            Board::in_window(c, j) && j > next_y ==> !#[trigger] next_board.has_cell(
                                c,
                                j,
                            ),
                    decreases 10 - x,
                {
                    if self.is_filled(&Point::new(x, y)) {
                        let ghost before = next_board;
                        let target = Point::new(x, next_y);
                        next_board.fill(&target);
                        proof {
                            before.lemma_fill_cells(target);
                            assert forall|c: int, r: int|
                                Board::in_window(c, r) && r < y && !self.spec_is_line_filled(
                                    r,
                                ) implies next_board.has_cell(c, self.kept_below(r))
                                == #[trigger] self.has_cell(c, r) by {
                                self.lemma_kept_below_grows(r, y as int);
                            }
                        }
                    }
                    x += 1;
                }
                proof {
                    assert forall|c: int, r: int|
                        Board::in_window(c, r) && r < y + 1 && !self.spec_is_line_filled(
                            r,
                        ) implies next_board.has_cell(c, self.kept_below(r))
                        == #[trigger] self.has_cell(c, r) by {
                        if r == y {
                            assert(next_board.has_cell(c, next_y as int) == self.has_cell(
                                c,
                                y as int,
                            ));
                        }
                    }
                }
                next_y += 1;
            }
            y += 1;
        }
        self.fill = next_board.fill;
        proof {
            assert(Board::is_compaction_of(*self, *old(self)));
            Board::lemma_compaction_unique(
                *self,
                old(self).spec_clear_filled_lines(),
                *old(self),
            );
        }
    }

    /// Filling a cell sets that cell and leaves every other cell, and the bits
    /// outside the cells, as they were.
    pub proof fn lemma_fill_cells(self, point: Point)
        ensures
            self.spec_fill(point).spare_bits() == self.spare_bits(),
            forall|x: int, y: int|
                #[trigger] self.spec_fill(point).has_cell(x, y) == (self.has_cell(x, y) || (
                Board::in_window(x, y) && x == point.x && y == point.y)),
    {
        if Board::in_window(point.x as int, point.y as int) {
            let i = (point.x + point.y * 10) as u64;
            let bits = self.fill;
            assert((bits | (1u64 << i)) >> 60 == bits >> 60) by (bit_vector)
                requires
                    i < 60,
            ;
            assert forall|x: int, y: int|
                #[trigger] self.spec_fill(point).has_cell(x, y) == (self.has_cell(x, y) || (
                Board::in_window(x, y) && x == point.x && y == point.y)) by {
                if Board::in_window(x, y) {
                    let j = (x + y * 10) as u64;
                    assert(bit_at(bits | (1u64 << i), j) == (i == j || bit_at(bits, j)))
                        by (bit_vector)
                        requires
                            i < 60,
                            j < 60,
                    ;
                }
            }
        }
    }

    /// Emptying a cell clears that cell and leaves every other cell, and the
    /// bits outside the cells, as they were.
    pub proof fn lemma_empty_cells(self, point: Point)
        ensures
            self.spec_empty(point).spare_bits() == self.spare_bits(),
            forall|x: int, y: int|
                #[trigger] self.spec_empty(point).has_cell(x, y) == (self.has_cell(x, y) && !(x
                    == point.x && y == point.y)),
    {
        if Board::in_window(point.x as int, point.y as int) {
            let i = (point.x + point.y * 10) as u64;
            let bits = self.fill;
            assert((bits & !(1u64 << i)) >> 60 == bits >> 60) by (bit_vector)
                requires
                    i < 60,
            ;
            assert forall|x: int, y: int|
                #[trigger] self.spec_empty(point).has_cell(x, y) == (self.has_cell(x, y) && !(x
                    == point.x && y == point.y)) by {
                if Board::in_window(x, y) {
                    let j = (x + y * 10) as u64;
                    assert(bit_at(bits & !(1u64 << i), j) == (i != j && bit_at(bits, j)))
                        by (bit_vector)
                        requires
                            i < 60,
                            j < 60,
                    ;
                }
            }
        }
    }

    /// The union holds exactly the cells that one of the two boards holds.
    pub proof fn lemma_union_cells(self, other: Board)
        ensures
            forall|x: int, y: int|
                #[trigger] self.spec_union(other).has_cell(x, y) == (self.has_cell(x, y)
                    || other.has_cell(x, y)),
    {
        let a = self.fill;
        let b = other.fill;
        assert forall|x: int, y: int|
            #[trigger] self.spec_union(other).has_cell(x, y) == (self.has_cell(x, y)
                || other.has_cell(x, y)) by {
            if Board::in_window(x, y) {
                let j = (x + y * 10) as u64;
                assert(bit_at(a | b, j) == (bit_at(a, j) || bit_at(b, j))) by (bit_vector);
            }
        }
    }

    /// Two boards intersect exactly when some cell is filled in both, provided
    /// neither has a bit set outside the cells.
    pub proof fn lemma_intersect_cells(self, other: Board)
        requires
            self.spare_bits() == 0,
            other.spare_bits() == 0,
        ensures
            self.spec_has_intersect(other) <==> exists|x: int, y: int|
                #[trigger] self.has_cell(x, y) && other.has_cell(x, y),
    {
        let both = Board { fill: self.fill & other.fill };
        let a = self.fill;
        let b = other.fill;
        assert forall|x: int, y: int|
            #[trigger] both.has_cell(x, y) == (self.has_cell(x, y) && other.has_cell(x, y)) by {
            if Board::in_window(x, y) {
                let j = (x + y * 10) as u64;
                assert(bit_at(a & b, j) == (bit_at(a, j) && bit_at(b, j))) by (bit_vector);
            }
        }
        assert((a & b) >> 60 == 0) by (bit_vector)
            requires
                a >> 60 == 0,
        ;
        let none = Board { fill: 0 };
        assert(0u64 >> 60 == 0) by (bit_vector);
        assert forall|x: int, y: int| !#[trigger] none.has_cell(x, y) by {
            if Board::in_window(x, y) {
                let j = (x + y * 10) as u64;
                assert(!bit_at(0u64, j)) by (bit_vector);
            }
        }
        if !self.spec_has_intersect(other) {
            assert(both == none);
            assert forall|x: int, y: int|
                !(#[trigger] self.has_cell(x, y) && other.has_cell(x, y)) by {
                assert(!both.has_cell(x, y));
            }
        } else {
            if forall|x: int, y: int| !(#[trigger] self.has_cell(x, y) && other.has_cell(x, y)) {
                assert forall|x: int, y: int| both.has_cell(x, y) == none.has_cell(x, y) by {
                    assert(!(self.has_cell(x, y) && other.has_cell(x, y)));
                }
                Board::lemma_same_cells_same_board(both, none);
            }
        }
    }

    /// A board is determined by its cells and the bits outside them.
    pub proof fn lemma_same_cells_same_board(a: Board, b: Board)
        requires
            a.spare_bits() == b.spare_bits(),
            forall|x: int, y: int| a.has_cell(x, y) == b.has_cell(x, y),
        ensures
            a == b,
    {
        assert forall|j: u64| j < 60 implies bit_at(a.fill, j) == bit_at(b.fill, j) by {
            let x = (j % 10) as int;
            let y = (j / 10) as int;
            assert(Board::in_window(x, y));
            assert(a.has_cell(x, y) == b.has_cell(x, y));
            assert((x + y * 10) as u64 == j);
        }
        lemma_low_bits_agree(a.fill, b.fill, 60);
        let af = a.fill;
        let bf = b.fill;
        assert(af == bf) by (bit_vector)
            requires
                af >> 60 == bf >> 60,
                af & !(0xFFFF_FFFF_FFFF_FFFFu64 << 60u64) == bf & !(0xFFFF_FFFF_FFFF_FFFFu64
                    << 60u64),
        ;
    }

    /// A row that is kept has fewer kept rows below it than any row above it.
    pub proof fn lemma_kept_below_grows(self, lower: int, upper: int)
        requires
            0 <= lower < upper,
            !self.spec_is_line_filled(lower),
        ensures
            self.kept_below(lower) < self.kept_below(upper),
            self.kept_below(lower) >= 0,
        decreases upper,
    {
        self.lemma_kept_below_bounds(lower);
        if upper - 1 > lower {
            self.lemma_kept_below_grows(lower, upper - 1);
        }
    }

    /// There are at most `y` kept rows below row `y`.
    pub proof fn lemma_kept_below_bounds(self, y: int)
        requires
            0 <= y,
        ensures
            0 <= self.kept_below(y) <= y,
        decreases y,
    {
        if y > 0 {
            self.lemma_kept_below_bounds(y - 1);
        }
    }

    /// Every position below the count of kept rows is the place of one kept
    /// row.
    pub proof fn lemma_kept_row_exists(self, place: int, upper: int) -> (row: int)
        requires
            0 <= place < self.kept_below(upper),
        ensures
            0 <= row < upper,
            !self.spec_is_line_filled(row),
            self.kept_below(row) == place,
        decreases upper,
    {
        if upper <= 0 {
            0
        } else if !self.spec_is_line_filled(upper - 1) && self.kept_below(upper - 1) == place {
            upper - 1
        } else {
            self.lemma_kept_row_exists(place, upper - 1)
        }
    }

    /// Taking the filled rows out of a board has one result only.
    pub proof fn lemma_compaction_unique(first: Board, second: Board, before: Board)
        requires
            Board::is_compaction_of(first, before),
        ensures
            second == before.spec_clear_filled_lines() || Board::is_compaction_of(second, before)
                ==> first == second,
    {
        if second == before.spec_clear_filled_lines() || Board::is_compaction_of(second, before) {
            assert(Board::is_compaction_of(second, before));
            assert forall|x: int, y: int| first.has_cell(x, y) == second.has_cell(x, y) by {
                if Board::in_window(x, y) {
                    if y >= before.kept_below(6) {
                        assert(!first.has_cell(x, y));
                        assert(!second.has_cell(x, y));
                    } else {
                        let row = before.lemma_kept_row_exists(y, 6);
                        assert(first.has_cell(x, y) == before.has_cell(x, row));
                        assert(second.has_cell(x, y) == before.has_cell(x, row));
                    }
                }
            }
            Board::lemma_same_cells_same_board(first, second);
        }
    }
}

/// The walls left and right of the playfield and the floor below it read as
/// filled on every board, at every height and in every column.
pub proof fn lemma_walls_and_floor_filled(board: Board, x: isize, y: isize)
    ensures
        board.spec_is_filled(Point { x: -1isize, y }),
        board.spec_is_filled(Point { x: 10, y }),
        board.spec_is_filled(Point { x, y: -1isize }),
{
}

/// Filling a cell that was not filled and then emptying it gives the board
/// back. A point that names no stored cell counts as not filled: both steps
/// then change nothing.
pub proof fn lemma_fill_then_empty(board: Board, point: Point)
    requires
        !board.has_cell(point.x as int, point.y as int),
    ensures
        board.spec_fill(point).spec_empty(point) == board,
{
    if Board::in_window(point.x as int, point.y as int) {
        let i = (point.x + point.y * 10) as u64;
        let bits = board.fill;
        assert((bits | (1u64 << i)) & !(1u64 << i) == bits) by (bit_vector)
            requires
                i < 60,
                !bit_at(bits, i),
        ;
    }
}

/// Emptying a cell that was filled and then filling it gives the board back,
/// and so does the pair of steps at a point that names no stored cell.
pub proof fn lemma_empty_then_fill(board: Board, point: Point)
    requires
        board.has_cell(point.x as int, point.y as int) || !Board::in_window(
            point.x as int,
            point.y as int,
        ),
    ensures
        board.spec_empty(point).spec_fill(point) == board,
{
    if Board::in_window(point.x as int, point.y as int) {
        let i = (point.x + point.y * 10) as u64;
        let bits = board.fill;
        assert((bits & !(1u64 << i)) | (1u64 << i) == bits) by (bit_vector)
            requires
                i < 60,
                bit_at(bits, i),
        ;
    }
}

/// Union is idempotent, commutative and associative.
pub proof fn lemma_union_laws(a: Board, b: Board, c: Board)
    ensures
        a.spec_union(a) == a,
        a.spec_union(b).spec_union(b) == a.spec_union(b),
        a.spec_union(b) == b.spec_union(a),
        a.spec_union(b).spec_union(c) == a.spec_union(b.spec_union(c)),
{
    let x = a.fill;
    let y = b.fill;
    let z = c.fill;
    assert(x | x == x) by (bit_vector);
    assert((x | y) | y == x | y) by (bit_vector);
    assert(x | y == y | x) by (bit_vector);
    assert((x | y) | z == x | (y | z)) by (bit_vector);
}

/// The mask of the bottom `rows` rows, for one to four rows.
pub open spec fn row_prefix_fill(rows: int) -> u64 {
    if rows == 1 {
        ONE_PC_FILL
    } else if rows == 2 {
        TWO_PC_FILL
    } else if rows == 3 {
        THREE_PC_FILL
    } else {
        FOUR_PC_FILL
    }
}

/// Each of the four masks that clear perfectly holds exactly the cells of its
/// bottom rows.
pub proof fn lemma_row_prefix_fill(rows: int)
    requires
        1 <= rows <= 4,
    ensures
        (Board { fill: row_prefix_fill(rows) }).is_row_prefix(rows),
{
    let board = Board { fill: row_prefix_fill(rows) };
    assert(0x3FFu64 >> 60 == 0 && 0xF_FFFFu64 >> 60 == 0 && 0x3FFF_FFFFu64 >> 60 == 0
        && 0xFF_FFFF_FFFFu64 >> 60 == 0) by (bit_vector);
    assert forall|x: int, y: int| Board::in_window(x, y) implies (#[trigger] board.has_cell(x, y)
        <==> y < rows) by {
        let j = (x + y * 10) as u64;
        assert(j < 60 ==> (bit_at(0x3FFu64, j) <==> j < 10)) by (bit_vector);
        assert(j < 60 ==> (bit_at(0xF_FFFFu64, j) <==> j < 20)) by (bit_vector);
        assert(j < 60 ==> (bit_at(0x3FFF_FFFFu64, j) <==> j < 30)) by (bit_vector);
        assert(j < 60 ==> (bit_at(0xFF_FFFF_FFFFu64, j) <==> j < 40)) by (bit_vector);
    }
}

/// A board can clear perfectly exactly when its filled cells are those of its
/// bottom one, two, three or four rows.
pub proof fn lemma_perfect_clear_shapes(board: Board)
    ensures
        board.spec_can_perfect_clear() <==> exists|rows: int|
            1 <= rows <= 4 && #[trigger] board.is_row_prefix(rows),
{
    if board.spec_can_perfect_clear() {
        let rows: int = if board.fill == ONE_PC_FILL {
            1
        } else if board.fill == TWO_PC_FILL {
            2
        } else if board.fill == THREE_PC_FILL {
            3
        } else {
            4
        };
        lemma_row_prefix_fill(rows);
        assert(board.is_row_prefix(rows));
    }
    if exists|rows: int| 1 <= rows <= 4 && #[trigger] board.is_row_prefix(rows) {
        let rows = choose|rows: int| 1 <= rows <= 4 && #[trigger] board.is_row_prefix(rows);
        let shape = Board { fill: row_prefix_fill(rows) };
        lemma_row_prefix_fill(rows);
        assert forall|x: int, y: int| board.has_cell(x, y) == shape.has_cell(x, y) by {
            if Board::in_window(x, y) {
                assert(board.has_cell(x, y) <==> y < rows);
                assert(shape.has_cell(x, y) <==> y < rows);
            }
        }
        Board::lemma_same_cells_same_board(board, shape);
    }
}

/// The low `n` bits of `bits`.
pub open spec fn low_bits(bits: u64, n: u64) -> u64 {
    bits & !(0xFFFF_FFFF_FFFF_FFFFu64 << n)
}

/// Two masks that agree bit by bit below `n` have the same low `n` bits.
pub proof fn lemma_low_bits_agree(a: u64, b: u64, n: u64)
    requires
        n <= 60,
        forall|j: u64| j < n ==> bit_at(a, j) == bit_at(b, j),
    ensures
        low_bits(a, n) == low_bits(b, n),
    decreases n,
{
    if n == 0 {
        assert(low_bits(a, 0) == low_bits(b, 0)) by (bit_vector);
    } else {
        let m = (n - 1) as u64;
        lemma_low_bits_agree(a, b, m);
        assert(bit_at(a, m) == bit_at(b, m));
        assert(low_bits(a, n) == low_bits(b, n)) by (bit_vector)
            requires
                n == m + 1,
                n <= 60,
                low_bits(a, m) == low_bits(b, m),
                bit_at(a, m) == bit_at(b, m),
        ;
    }
}

} // verus!
