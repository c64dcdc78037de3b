//! A game and what the actions of a player make of it.

use vstd::prelude::*;
use crate::board::Board;
use crate::config::{is_quarter_turn, lemma_kick_extent, lemma_rising_kick_has_twin, srs_kick, Config};
use crate::piece::{lemma_kind_offsets_cycle, lemma_orientation_transform_cycle, Piece, PieceKind};
use crate::utils::direction::Direction;
use crate::utils::point::Point;
use crate::utils::rotation::Rotation;

verus! {

/// What a piece can be asked to do before it is locked.
#[derive(Debug, Clone, Copy, PartialEq, Eq, Structural)]
pub enum Move {
    Rotate(Rotation),
    Translate(Direction),
    /// Hard drop: fall as far as the piece can.
    Drop,
}

/// What a player can do in a game.
#[derive(Debug, Clone, Copy, PartialEq, Eq, Structural)]
pub enum Action {
    Move(Move),
    Hold { switch: bool },
    Place,
}

/// Why a move was not made.
#[derive(Debug, Clone, Copy, PartialEq, Eq, Structural)]
pub enum MoveError {
    NoPiece,
    InvalidMove,
}

/// Why the hold was not used.
#[derive(Debug, Clone, Copy, PartialEq, Eq, Structural)]
pub enum HoldError {
    NotAvailable,
    NoHoldPiece,
    NoPiece,
    PieceCollision,
}

/// Why the piece was not locked.
#[derive(Debug, Clone, Copy, PartialEq, Eq, Structural)]
pub enum PlaceError {
    NoPiece,
    PieceInAir,
}

/// Why an action was not applied.
#[derive(Debug, Clone, Copy, PartialEq, Eq, Structural)]
pub enum ReduceError {
    Move(MoveError),
    Hold(HoldError),
    Place(PlaceError),
}

/// A game between two placements: the board, the piece in play, the piece
/// held back, and the pieces to come.
#[derive(Debug, Clone, Copy, PartialEq, Eq)]
pub struct Game {
    pub board: Board,
    pub piece: Option<Piece>,
    pub hold_kind: Option<PieceKind>,
    pub is_hold_used: bool,
    /// The pieces to come, first to last, followed by `None` up to seven
    /// entries.
    pub queue: [Option<PieceKind>; 7],
}

/// Whether the cells of the piece overlap nothing on the board.
pub open spec fn fits(config: Config, board: Board, piece: Piece) -> bool {
    board.spec_can_fit(piece.spec_points(config))
}

/// Whether the piece can be locked where it is.
pub open spec fn is_lockable(config: Config, board: Board, piece: Piece) -> bool {
    board.spec_can_place(piece.spec_points(config))
}

/// The turned piece shifted by the first kick, from kick `from` on, with
/// which it fits; `None` if it fits with none of them.
pub open spec fn spec_first_kick(
    config: Config,
    board: Board,
    turned: Piece,
    kicks: Seq<Point>,
    from: int,
) -> Option<Piece>
    decreases kicks.len() - from,
{
    if from < 0 || from >= kicks.len() {
        None
    } else if fits(config, board, turned.shifted(kicks[from])) {
        Some(turned.shifted(kicks[from]))
    } else {
        spec_first_kick(config, board, turned, kicks, from + 1)
    }
}

/// The piece after a turn: turned in place if that fits, else shifted by the
/// first kick of the table with which it fits, else `None`.
pub open spec fn spec_turned(config: Config, board: Board, piece: Piece, rotation: Rotation)
    -> Option<Piece> {
    let to = piece.orientation.spec_rotated(rotation);
    let turned = piece.facing(to);
    if fits(config, board, turned) {
        Some(turned)
    } else {
        match config.spec_kick_table(piece.kind, piece.orientation, to) {
            Some(kicks) => spec_first_kick(config, board, turned, kicks, 0),
            None => None,
        }
    }
}

/// The piece after a step in `direction`, if it fits there.
pub open spec fn spec_stepped(config: Config, board: Board, piece: Piece, direction: Direction)
    -> Option<Piece> {
    let moved = piece.shifted(direction.spec_offset());
    if fits(config, board, moved) {
        Some(moved)
    } else {
        None
    }
}

/// The piece one row further down.
pub open spec fn lowered(piece: Piece) -> Piece {
    piece.shifted(Point { x: 0, y: -1isize })
}

/// Where the piece comes to rest when it falls: it goes down row by row for
/// as long as it fits one row further down.
pub open spec fn spec_landing(config: Config, board: Board, piece: Piece) -> Piece
    decreases piece.position.y - isize::MIN,
{
    if piece.position.y > isize::MIN && fits(config, board, lowered(piece)) {
        spec_landing(config, board, lowered(piece))
    } else {
        piece
    }
}

/// The piece after a hard drop; `None` if it cannot go down at all.
pub open spec fn spec_dropped(config: Config, board: Board, piece: Piece) -> Option<Piece> {
    let landed = spec_landing(config, board, piece);
    if landed == piece {
        None
    } else {
        Some(landed)
    }
}

/// The piece after a move; `None` if the board does not allow the move.
pub open spec fn spec_moved(config: Config, board: Board, piece: Piece, mov: Move) -> Option<
    Piece,
> {
    match mov {
        Move::Rotate(rotation) => spec_turned(config, board, piece, rotation),
        Move::Translate(direction) => spec_stepped(config, board, piece, direction),
        Move::Drop => spec_dropped(config, board, piece),
    }
}

/// The board after a piece with these cells is locked: the cells are filled,
/// and unless the board then has a shape that clears perfectly, its filled
/// rows are taken out.
pub open spec fn spec_locked_board(board: Board, points: Seq<Point>) -> Board {
    let filled = board.spec_fill_piece_points(points);
    if filled.spec_can_perfect_clear() {
        filled
    } else {
        filled.spec_clear_filled_lines()
    }
}

impl Game {
    /// The piece in play, if there is one, is far enough from the ends of the
    /// coordinate range to be moved.
    pub open spec fn wf(self) -> bool {
        match self.piece {
            Some(piece) => piece.in_bounds(),
            None => true,
        }
    }

    /// Whether the piece in play, if there is one, is far enough from the ends of
    /// the coordinate range to be moved.
    pub fn is_wf(&self) -> (valid: bool)
        ensures
            valid == self.wf(),
    {
        match &self.piece {
            Some(piece) => piece.is_in_bounds(),
            None => true,
        }
    }

    /// The game with `piece` in play.
    pub open spec fn with_piece(self, piece: Piece) -> Game {
        Game { piece: Some(piece), ..self }
    }

    /// The game is the one before anything happened: an empty board, no
    /// piece in play or in hold, no pieces to come.
    pub open spec fn is_initial(self) -> bool {
        &&& self.board.fill == 0
        &&& self.piece is None
        &&& self.hold_kind is None
        &&& !self.is_hold_used
        &&& forall|i: int| 0 <= i < 7 ==> self.queue@[i] is None
    }

    /// The game before anything happened.
    pub fn initial() -> (game: Game)
        ensures
            game.is_initial(),
            game.wf(),
    {
        Game {
            board: Board::empty_board(),
            piece: None,
            hold_kind: None,
            is_hold_used: false,
            queue: [None, None, None, None, None, None, None],
        }
    }

    /// What a move makes of the game: `NoPiece` without a piece in play,
    /// `InvalidMove` where the board does not allow the move.
    pub open spec fn spec_with_move(self, config: Config, mov: Move) -> Result<Game, MoveError> {
        match self.piece {
            None => Err(MoveError::NoPiece),
            Some(piece) => match spec_moved(config, self.board, piece, mov) {
                Some(moved) => Ok(self.with_piece(moved)),
                None => Err(MoveError::InvalidMove),
            },
        }
    }

    /// What a use of the hold makes of the game. The hold can be used once for
    /// each piece. Without a swap the piece in play stays; with a swap the piece
    /// held back comes into play at its spawn point and the kind of the piece in
    /// play is held back.
    pub open spec fn spec_with_hold_used(self, config: Config, switch: bool) -> Result<
        Game,
        HoldError,
    > {
        if self.is_hold_used {
            Err(HoldError::NotAvailable)
        } else if !switch {
            Ok(Game { is_hold_used: true, ..self })
        } else {
            match self.hold_kind {
                None => Err(HoldError::NoHoldPiece),
                Some(hold_kind) => if !fits(
                    config,
                    self.board,
                    Piece::spec_spawn(config, hold_kind),
                ) {
                    Err(HoldError::PieceCollision)
                } else {
                    match self.piece {
                        None => Err(HoldError::NoPiece),
                        Some(piece) => Ok(
                            Game {
                                is_hold_used: true,
                                piece: Some(Piece::spec_spawn(config, hold_kind)),
                                hold_kind: Some(piece.kind),
                                ..self
                            },
                        ),
                    }
                },
            }
        }
    }

    /// What locking the piece in play makes of the game: `NoPiece` without a
    /// piece in play, `PieceInAir` where the piece overlaps something or rests on
    /// nothing.
    pub open spec fn spec_with_placed_piece(self, config: Config) -> Result<Game, PlaceError> {
        match self.piece {
            None => Err(PlaceError::NoPiece),
            Some(piece) => if !is_lockable(config, self.board, piece) {
                Err(PlaceError::PieceInAir)
            } else {
                Ok(
                    Game {
                        board: spec_locked_board(self.board, piece.spec_points(config)),
                        piece: None,
                        is_hold_used: false,
                        ..self
                    },
                )
            },
        }
    }

    /// What an action makes of the game, or why the game does not allow it.
    pub open spec fn spec_reduce(self, config: Config, action: Action) -> Result<
        Game,
        ReduceError,
    > {
        match action {
            Action::Move(mov) => match self.spec_with_move(config, mov) {
                Ok(game) => Ok(game),
                Err(e) => Err(ReduceError::Move(e)),
            },
            Action::Hold { switch } => match self.spec_with_hold_used(config, switch) {
                Ok(game) => Ok(game),
                Err(e) => Err(ReduceError::Hold(e)),
            },
            Action::Place => match self.spec_with_placed_piece(config) {
                Ok(game) => Ok(game),
                Err(e) => Err(ReduceError::Place(e)),
            },
        }
    }

    /// A game from what a host hands over. The queue comes as bytes, first
    /// piece first: 0 to 6 stand for I, J, L, O, S, T, Z, any other byte for an
    /// entry without a piece, and entries past the last byte hold no piece.
    pub fn js_new(
        board: Board,
        piece: Option<Piece>,
        hold_kind: Option<PieceKind>,
        is_hold_used: bool,
        js_queue: &[u8],
    ) -> (game: Game)
        requires
            js_queue@.len() <= 7,
        ensures
            game.board == board,
            game.piece == piece,
            game.hold_kind == hold_kind,
            game.is_hold_used == is_hold_used,
            forall|i: int|
                0 <= i < 7 ==> #[trigger] game.queue@[i] == if i < js_queue@.len() {
                    PieceKind::spec_from_byte(js_queue@[i])
                } else {
                    None
                },
    {
        let mut queue: [Option<PieceKind>; 7] = [None, None, None, None, None, None, None];
        let mut i: usize = 0;
        while i < js_queue.len()
            invariant
                0 <= i <= js_queue@.len() <= 7,
                forall|k: int|
                    0 <= k < 7 ==> #[trigger] queue@[k] == if k < i {
                        PieceKind::spec_from_byte(js_queue@[k])
                    } else {
                        None
                    },
            decreases js_queue@.len() - i,
        {
            queue[i] = PieceKind::from_byte(js_queue[i]);
            i += 1;
        }
        Game { board, piece, hold_kind, is_hold_used, queue }
    }

    /// The queue as bytes, first piece first, entries without a piece left
    /// out.
    pub fn js_queue(&self) -> (bytes: Vec<u8>)
        ensures
            bytes@ == spec_queue_bytes(self.queue@),
    {
        let mut bytes: Vec<u8> = Vec::new();
        let mut i: usize = 0;
        while i < 7
            invariant
                0 <= i <= 7,
                bytes@ == spec_queue_bytes(self.queue@.take(i as int)),
            decreases 7 - i,
        {
            proof {
                assert(self.queue@.take(i + 1).drop_last() =~= self.queue@.take(i as int));
            }
            match &self.queue[i] {
                Some(kind) => {
                    bytes.push(kind.to_byte());
                },
                None => {},
            }
            i += 1;
        }
        proof {
            assert(self.queue@.take(7) =~= self.queue@);
        }
        bytes
    }

    /// Applies one action and returns the game that results. The game itself
    /// is left as it was.
    pub fn reduce(&self, config: &Config, action: &Action) -> (result: Result<Game, ReduceError>)
        requires
            self.wf(),
        ensures
            result == self.spec_reduce(*config, *action),
            result matches Ok(next) ==> next.wf(),
    {
        match action {
            Action::Move(mov) => match self.with_move(config, mov) {
                Ok(game) => Ok(game),
                Err(e) => Err(ReduceError::Move(e)),
            },
            Action::Hold { switch } => match self.with_hold_used(config, *switch) {
                Ok(game) => Ok(game),
                Err(e) => Err(ReduceError::Hold(e)),
            },
            Action::Place => match self.with_placed_piece(config) {
                Ok(game) => Ok(game),
                Err(e) => Err(ReduceError::Place(e)),
            },
        }
    }

    /// Applies a move to the piece in play.
    pub fn with_move(&self, config: &Config, mov: &Move) -> (result: Result<Game, MoveError>)
        requires
            self.wf(),
        ensures
            result == self.spec_with_move(*config, *mov),
            result matches Ok(next) ==> next.wf(),
    {
        match mov {
            Move::Rotate(rotation) => self.with_rotation(config, rotation),
            Move::Translate(direction) => self.with_translation(config, direction),
            Move::Drop => self.with_drop(config),
        }
    }

    /// Turns the piece in play, in place if it fits there, else shifted by
    /// the first kick with which it fits.
    pub fn with_rotation(&self, config: &Config, rotation: &Rotation) -> (result: Result<
        Game,
        MoveError,
    >)
        requires
            self.wf(),
        ensures
            result == self.spec_with_move(*config, Move::Rotate(*rotation)),
            result matches Ok(next) ==> next.wf(),
    {
        let piece = match &self.piece {
            Some(piece) => *piece,
            None => {
                return Err(MoveError::NoPiece);
            },
        };
        proof {
            lemma_moved_stays_in_bounds(*config, self.board, piece, Move::Rotate(*rotation));
        }
        let from_orientation = piece.orientation;
        let to_orientation = from_orientation.rotated(rotation);
        let rotated_piece = Piece { orientation: to_orientation, ..piece };
        let piece_points = rotated_piece.get_points(config);
        if self.board.can_fit(&piece_points) {
            return Ok(Game { piece: Some(rotated_piece), ..*self });
        }
        let kicks = match config.kick_table(&piece.kind, &from_orientation, &to_orientation) {
            Some(kicks) => kicks,
            None => {
                return Err(MoveError::InvalidMove);
            },
        };
        let mut i: usize = 0;
        while i < 4
            invariant
                0 <= i <= 4,
                self.piece == Some(piece),
                piece.in_bounds(),
                from_orientation == piece.orientation,
                to_orientation == piece.orientation.spec_rotated(*rotation),
                rotated_piece == piece.facing(to_orientation),
                !fits(*config, self.board, rotated_piece),
                is_quarter_turn(from_orientation, to_orientation),
                config.spec_kick_table(piece.kind, from_orientation, to_orientation) == Some(
                    kicks@,
                ),
                kicks@ == Seq::new(
                    4,
                    |k: int| srs_kick(piece.kind, from_orientation, to_orientation, k),
                ),
                spec_first_kick(*config, self.board, rotated_piece, kicks@, 0) == spec_first_kick(
                    *config,
                    self.board,
                    rotated_piece,
                    kicks@,
                    i as int,
                ),
            decreases 4 - i,
        {
            let kick = kicks[i];
            proof {
                lemma_kick_extent(piece.kind, from_orientation, to_orientation, i as int);
            }
            let kicked_piece = Piece { position: rotated_piece.position + kick, ..rotated_piece };
            assert(kicked_piece == rotated_piece.shifted(kicks@[i as int]));
            if self.board.can_fit(&kicked_piece.get_points(config)) {
                proof {
                    lemma_moved_stays_in_bounds(
                        *config,
                        self.board,
                        piece,
                        Move::Rotate(*rotation),
                    );
                }
                return Ok(Game { piece: Some(kicked_piece), ..*self });
            }
            i += 1;
        }
        Err(MoveError::InvalidMove)
    }

    /// Moves the piece in play by one cell, if it fits there.
    pub fn with_translation(&self, config: &Config, direction: &Direction) -> (result: Result<
        Game,
        MoveError,
    >)
        requires
            self.wf(),
        ensures
            result == self.spec_with_move(*config, Move::Translate(*direction)),
            result matches Ok(next) ==> next.wf(),
    {
        let piece = match &self.piece {
            Some(piece) => *piece,
            None => {
                return Err(MoveError::NoPiece);
            },
        };
        proof {
            lemma_moved_stays_in_bounds(*config, self.board, piece, Move::Translate(*direction));
        }
        let direction_offset = direction.get_offset();
        let next_piece = Piece { position: piece.position + direction_offset, ..piece };
        let next_piece_points = next_piece.get_points(config);
        if !self.board.can_fit(&next_piece_points) {
            return Err(MoveError::InvalidMove);
        }
        Ok(Game { piece: Some(next_piece), ..*self })
    }

    /// Lets the piece in play fall as far as it can. A piece that cannot go
    /// down by a single row is not moved at all.
    pub fn with_drop(&self, config: &Config) -> (result: Result<Game, MoveError>)
        requires
            self.wf(),
        ensures
            result == self.spec_with_move(*config, Move::Drop),
            result matches Ok(next) ==> next.wf(),
    {
        let piece = match &self.piece {
            Some(piece) => *piece,
            None => {
                return Err(MoveError::NoPiece);
            },
        };
        let mut dropped_piece = piece;
        let mut next_piece = Piece {
            position: Point::new(piece.position.x, piece.position.y - 1),
            ..piece
        };
        let mut can_fall = self.board.can_fit(&next_piece.get_points(config));
        while can_fall
            invariant
                dropped_piece.in_bounds(),
                next_piece == lowered(dropped_piece),
                can_fall == fits(*config, self.board, next_piece),
                spec_landing(*config, self.board, piece) == spec_landing(
                    *config,
                    self.board,
                    dropped_piece,
                ),
            decreases dropped_piece.position.y - isize::MIN,
        {
            proof {
                lemma_fit_bounds(*config, self.board, next_piece);
            }
            dropped_piece = next_piece;
            next_piece =
            Piece {
                position: Point::new(dropped_piece.position.x, dropped_piece.position.y - 1),
                ..dropped_piece
            };
            can_fall = self.board.can_fit(&next_piece.get_points(config));
        }
        proof {
            lemma_landing_column(*config, self.board, piece);
            assert(spec_landing(*config, self.board, dropped_piece) == dropped_piece);
        }
        if dropped_piece.position.y == piece.position.y {
            return Err(MoveError::InvalidMove);
        }
        Ok(Game { piece: Some(dropped_piece), ..*self })
    }

    /// Uses the hold: either swaps the piece in play with the piece held
    /// back, or only spends the hold for this piece.
    pub fn with_hold_used(&self, config: &Config, switch: bool) -> (result: Result<
        Game,
        HoldError,
    >)
        ensures
            result == self.spec_with_hold_used(*config, switch),
            self.wf() ==> (result matches Ok(next) ==> next.wf()),
    {
        if self.is_hold_used {
            return Err(HoldError::NotAvailable);
        }
        if !switch {
            return Ok(Game { is_hold_used: true, ..*self });
        }
        let hold_kind = match &self.hold_kind {
            Some(kind) => *kind,
            None => {
                return Err(HoldError::NoHoldPiece);
            },
        };
        let next_piece = Piece::spawn(config, &hold_kind);
        if !self.board.can_fit(&next_piece.get_points(config)) {
            return Err(HoldError::PieceCollision);
        }
        let piece = match &self.piece {
            Some(piece) => *piece,
            None => {
                return Err(HoldError::NoPiece);
            },
        };
        Ok(
            Game {
                is_hold_used: true,
                piece: Some(next_piece),
                hold_kind: Some(piece.kind),
                ..*self
            },
        )
    }

    /// Locks the piece in play: its cells are filled, filled rows are taken
    /// out unless the board then clears perfectly, and no piece is in play
    /// afterwards.
    pub fn with_placed_piece(&self, config: &Config) -> (result: Result<Game, PlaceError>)
        requires
            self.wf(),
        ensures
            result == self.spec_with_placed_piece(*config),
            result matches Ok(next) ==> next.wf(),
    {
        let piece = match &self.piece {
            Some(piece) => *piece,
            None => {
                return Err(PlaceError::NoPiece);
            },
        };
        let piece_points = piece.get_points(config);
        if !self.board.can_place(&piece_points) {
            return Err(PlaceError::PieceInAir);
        }
        let mut next_board = self.board;
        next_board.fill_piece_points(&piece_points);
        if !next_board.can_perfect_clear() {
            next_board.clear_filled_lines();
        }
        Ok(Game { board: next_board, piece: None, is_hold_used: false, ..*self })
    }
}

/// The bytes that stand for the pieces of a queue, in order; entries without
/// a piece give no byte.
pub open spec fn spec_queue_bytes(queue: Seq<Option<PieceKind>>) -> Seq<u8>
    decreases queue.len(),
{
    if queue.len() == 0 {
        Seq::empty()
    } else {
        match queue.last() {
            Some(kind) => spec_queue_bytes(queue.drop_last()).push(kind.spec_index() as u8),
            None => spec_queue_bytes(queue.drop_last()),
        }
    }
}

/// Reducing is a function of the game, the options and the action: whatever
/// two calls on the same three return is the same.
pub proof fn lemma_reduce_is_pure(
    game: Game,
    config: Config,
    action: Action,
    first: Result<Game, ReduceError>,
    second: Result<Game, ReduceError>,
)
    requires
        game.wf(),
        call_ensures(Game::reduce, (&game, &config, &action), first),
        call_ensures(Game::reduce, (&game, &config, &action), second),
    ensures
        first == second,
        first == game.spec_reduce(config, action),
{
}

/// Only a placement changes the board, and it leaves no piece in play and
/// the hold free; a move changes nothing but the piece in play; a hold
/// changes neither the board nor the queue.
pub proof fn lemma_reduce_frame(game: Game, config: Config, action: Action)
    ensures
        game.spec_reduce(config, action) matches Ok(next) ==> {
            &&& next.queue == game.queue
            &&& action is Move ==> next.board == game.board && next.hold_kind == game.hold_kind
                && next.is_hold_used == game.is_hold_used && next.piece is Some
            &&& action is Hold ==> next.board == game.board && next.is_hold_used
            &&& action is Place ==> next.piece is None && !next.is_hold_used && next.hold_kind
                == game.hold_kind
        },
{
}

/// A hold without a swap leaves the piece in play and the piece held back
/// as they are. A swap brings a new piece of the kind held back into play, at
/// its spawn point and facing north, and holds back the kind of the piece
/// that was in play. Either way the hold is spent.
pub proof fn lemma_hold_swaps_at_spawn(game: Game, config: Config, switch: bool)
    ensures
        game.spec_reduce(config, Action::Hold { switch }) matches Ok(next) ==> {
            &&& !game.is_hold_used
            &&& next.is_hold_used
            &&& !switch ==> next.piece == game.piece && next.hold_kind == game.hold_kind
            &&& switch ==> game.hold_kind is Some && game.piece is Some && next.piece == Some(
                Piece::spec_spawn(config, game.hold_kind.unwrap()),
            ) && next.hold_kind == Some(game.piece.unwrap().kind)
        },
{
}

/// A piece that fits lies between the walls and above the floor: its
/// bounding box starts at most three cells outside the playfield.
pub proof fn lemma_fit_bounds(config: Config, board: Board, piece: Piece)
    requires
        piece.has_points(),
        fits(config, board, piece),
    ensures
        -3 <= piece.position.x <= 9,
        -3 <= piece.position.y,
{
    let points = piece.spec_points(config);
    lemma_kind_offsets_cycle(piece.kind, 0);
    lemma_orientation_transform_cycle(
        piece.kind.spec_position_offsets()[0],
        piece.kind.spec_bounding_box_size(),
        piece.orientation,
    );
    assert(!board.spec_is_filled(points[0]));
}

/// Above the stored rows only the walls matter: two pieces of one kind that
/// face the same way and stand in the same column, both with their bounding
/// box above the stored rows, fit or do not fit alike.
pub proof fn lemma_fit_in_air(config: Config, board: Board, first: Piece, second: Piece)
    requires
        first.has_points(),
        second.has_points(),
        first.kind == second.kind,
        first.orientation == second.orientation,
        first.position.x == second.position.x,
        first.position.y >= 6,
        second.position.y >= 6,
    ensures
        fits(config, board, first) == fits(config, board, second),
{
    let a = first.spec_points(config);
    let b = second.spec_points(config);
    assert forall|i: int| 0 <= i < 4 implies board.spec_is_filled(#[trigger] a[i])
        == board.spec_is_filled(b[i]) by {
        lemma_kind_offsets_cycle(first.kind, i);
        lemma_orientation_transform_cycle(
            first.kind.spec_position_offsets()[i],
            first.kind.spec_bounding_box_size(),
            first.orientation,
        );
    }
    if fits(config, board, first) {
        assert forall|i: int| 0 <= i < 4 implies !board.spec_is_filled(#[trigger] b[i]) by {
            assert(!board.spec_is_filled(a[i]));
        }
    }
    if fits(config, board, second) {
        assert forall|i: int| 0 <= i < 4 implies !board.spec_is_filled(#[trigger] a[i]) by {
            assert(!board.spec_is_filled(b[i]));
        }
    }
}

/// The kick that a turn settles on: the piece fits with it and with no
/// earlier kick from `from` on.
pub proof fn lemma_first_kick_chosen(
    config: Config,
    board: Board,
    turned: Piece,
    kicks: Seq<Point>,
    from: int,
) -> (chosen: int)
    requires
        0 <= from,
        spec_first_kick(config, board, turned, kicks, from) is Some,
    ensures
        from <= chosen < kicks.len(),
        spec_first_kick(config, board, turned, kicks, from) == Some(turned.shifted(kicks[chosen])),
        fits(config, board, turned.shifted(kicks[chosen])),
        forall|j: int| from <= j < chosen ==> !fits(config, board, turned.shifted(#[trigger] kicks[j])),
    decreases kicks.len() - from,
{
    if fits(config, board, turned.shifted(kicks[from])) {
        from
    } else {
        lemma_first_kick_chosen(config, board, turned, kicks, from + 1)
    }
}

/// Where a falling piece comes to rest: in its column, facing as before, no
/// higher than it started, fitting there unless it did not move, and unable
/// to go one row further down.
pub proof fn lemma_landing_column(config: Config, board: Board, piece: Piece)
    requires
        piece.in_bounds(),
    ensures
        spec_landing(config, board, piece).kind == piece.kind,
        spec_landing(config, board, piece).orientation == piece.orientation,
        spec_landing(config, board, piece).position.x == piece.position.x,
        spec_landing(config, board, piece).position.y <= piece.position.y,
        spec_landing(config, board, piece).in_bounds(),
        spec_landing(config, board, piece) != piece ==> fits(
            config,
            board,
            spec_landing(config, board, piece),
        ),
        !fits(config, board, lowered(spec_landing(config, board, piece))),
        spec_landing(config, board, piece).position.y == piece.position.y ==> spec_landing(
            config,
            board,
            piece,
        ) == piece,
    decreases piece.position.y - isize::MIN,
{
    if fits(config, board, lowered(piece)) {
        lemma_fit_bounds(config, board, lowered(piece));
        lemma_landing_column(config, board, lowered(piece));
    }
}

/// A turn does not lift a piece whose bounding box stands two rows or more
/// above the stored rows: up there only the walls can be in the way, and a
/// kick that lifts the piece gets past a wall no better than the turn in
/// place or an earlier kick did.
pub proof fn lemma_turn_does_not_rise_in_air(
    config: Config,
    board: Board,
    piece: Piece,
    rotation: Rotation,
)
    requires
        piece.in_bounds(),
        piece.position.y >= 8,
        spec_turned(config, board, piece, rotation) is Some,
    ensures
        spec_turned(config, board, piece, rotation).unwrap().position.y <= piece.position.y,
{
    let to = piece.orientation.spec_rotated(rotation);
    let turned = piece.facing(to);
    if !fits(config, board, turned) {
        let kicks = config.spec_kick_table(piece.kind, piece.orientation, to).unwrap();
        let chosen = lemma_first_kick_chosen(config, board, turned, kicks, 0);
        lemma_kick_extent(piece.kind, piece.orientation, to, chosen);
        if kicks[chosen].y > 0 {
            let twin = lemma_rising_kick_has_twin(piece.kind, piece.orientation, to, chosen);
            if twin == -1 {
                lemma_fit_in_air(config, board, turned.shifted(kicks[chosen]), turned);
            } else {
                lemma_kick_extent(piece.kind, piece.orientation, to, twin);
                assert(!fits(config, board, turned.shifted(kicks[twin])));
                lemma_fit_in_air(
                    config,
                    board,
                    turned.shifted(kicks[chosen]),
                    turned.shifted(kicks[twin]),
                );
            }
        }
    }
}

/// A move leaves the piece its kind, makes it fit, keeps it between the
/// walls and above the floor, and lifts it no higher than row 9 unless it
/// was higher already.
pub proof fn lemma_moved_stays_in_bounds(config: Config, board: Board, piece: Piece, mov: Move)
    requires
        piece.in_bounds(),
    ensures
        spec_moved(config, board, piece, mov) matches Some(moved) ==> {
            &&& moved.kind == piece.kind
            &&& fits(config, board, moved)
            &&& moved.in_bounds()
            &&& -3 <= moved.position.x <= 9
            &&& -3 <= moved.position.y
            &&& moved.position.y <= piece.position.y || moved.position.y <= 9
        },
{
    match mov {
        Move::Rotate(rotation) => {
            let to = piece.orientation.spec_rotated(rotation);
            let turned = piece.facing(to);
            if fits(config, board, turned) {
                lemma_fit_bounds(config, board, turned);
            } else if let Some(kicks) = config.spec_kick_table(piece.kind, piece.orientation, to) {
                if spec_first_kick(config, board, turned, kicks, 0) is Some {
                    let chosen = lemma_first_kick_chosen(config, board, turned, kicks, 0);
                    lemma_kick_extent(piece.kind, piece.orientation, to, chosen);
                    lemma_fit_bounds(config, board, turned.shifted(kicks[chosen]));
                    if piece.position.y >= 8 {
                        lemma_turn_does_not_rise_in_air(config, board, piece, rotation);
                    }
                }
            }
        },
        Move::Translate(direction) => {
            let moved = piece.shifted(direction.spec_offset());
            if fits(config, board, moved) {
                lemma_fit_bounds(config, board, moved);
            }
        },
        Move::Drop => {
            lemma_landing_column(config, board, piece);
            let landed = spec_landing(config, board, piece);
            if landed != piece {
                lemma_fit_bounds(config, board, landed);
            }
        },
    }
}

} // verus!
