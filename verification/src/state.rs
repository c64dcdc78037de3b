//! A game as a search sees it: with a budget of moves, and with pieces that
//! come into play from the queue or by a guess.

use vstd::prelude::*;
use crate::config::Config;
use crate::game::{fits, Action as GameAction, Game, ReduceError as GameError};
use crate::piece::{Piece, PieceKind};
use crate::utils::piece_kind_set::PieceKindSet;

verus! {

/// The number of placements a search starts with.
pub const MOVE_BUDGET: u8 = 10;

/// A game together with what a search keeps about it.
#[derive(Debug, Clone, Copy, PartialEq, Eq)]
pub struct State {
    pub game: Game,
    /// The number of placements that may still be made.
    pub moves_remaining: u8,
    /// Which kinds of the current bag of seven have been drawn.
    pub seen_in_bag: PieceKindSet<bool>,
}

/// What a search can do to a state.
#[derive(Debug, Clone, Copy, PartialEq, Eq, Structural)]
pub enum Action {
    /// Brings the first piece of the queue into play.
    ConsumeQueue,
    /// Brings a piece of the given kind into play without touching the queue.
    WithNextPiece { kind: PieceKind },
    /// Applies an action of the game.
    Play(GameAction),
}

/// Why an action was not applied to a state.
#[derive(Debug, Clone, Copy, PartialEq, Eq, Structural)]
pub enum ReduceError {
    ConsumeQueue(QueueError),
    Play(GameError),
}

/// Why no new piece came into play.
#[derive(Debug, Clone, Copy, PartialEq, Eq, Structural)]
pub enum QueueError {
    QueueEmpty,
    PieceCollision,
}

/// The queue without its first entry: every entry moves one place forward
/// and the last place holds no piece.
pub open spec fn spec_queue_rest(queue: [Option<PieceKind>; 7]) -> [Option<PieceKind>; 7] {
    [queue@[1], queue@[2], queue@[3], queue@[4], queue@[5], queue@[6], None]
}

/// The number of entries from `from` on that hold a piece, up to the first
/// that holds none.
pub open spec fn spec_queue_head(queue: Seq<Option<PieceKind>>, from: int) -> int
    decreases queue.len() - from,
{
    if from < 0 || from >= queue.len() || queue[from] is None {
        0
    } else {
        1 + spec_queue_head(queue, from + 1)
    }
}

impl State {
    /// The game of the state is well formed.
    pub open spec fn wf(self) -> bool {
        self.game.wf()
    }

    /// Whether the budget allows the action: a placement needs a move left.
    pub open spec fn can_afford(self, action: Action) -> bool {
        action == Action::Play(GameAction::Place) ==> self.moves_remaining > 0
    }

    /// The state is the one a search starts from when it is told nothing:
    /// the initial game, the full budget of moves and no kind drawn from the
    /// bag.
    pub open spec fn is_initial(self) -> bool {
        &&& self.game.is_initial()
        &&& self.moves_remaining == MOVE_BUDGET
        &&& forall|kind: PieceKind| !self.seen_in_bag.spec_get(kind)
    }

    /// The state a search starts from when it is told nothing.
    pub fn initial() -> (state: State)
        ensures
            state.is_initial(),
            state.wf(),
    {
        State {
            game: Game::initial(),
            moves_remaining: MOVE_BUDGET,
            seen_in_bag: PieceKindSet::new_with_value(false),
        }
    }

    /// The state with a new piece of `kind` in play and the hold free again;
    /// `PieceCollision` if the new piece overlaps the board.
    pub open spec fn spec_with_spawned(
        self,
        config: Config,
        kind: PieceKind,
        queue: [Option<PieceKind>; 7],
    ) -> Result<State, QueueError> {
        if !fits(config, self.game.board, Piece::spec_spawn(config, kind)) {
            Err(QueueError::PieceCollision)
        } else {
            Ok(
                State {
                    game: Game {
                        queue,
                        piece: Some(Piece::spec_spawn(config, kind)),
                        is_hold_used: false,
                        ..self.game
                    },
                    ..self
                },
            )
        }
    }

    /// The state with the first piece of the queue in play and the rest of the
    /// queue moved up; `QueueEmpty` if the first entry holds no piece.
    pub open spec fn spec_with_consumed_queue(self, config: Config) -> Result<State, QueueError> {
        match self.game.queue@[0] {
            None => Err(QueueError::QueueEmpty),
            Some(kind) => self.spec_with_spawned(config, kind, spec_queue_rest(self.game.queue)),
        }
    }

    /// The state with a piece of the given kind in play and the queue as it was.
    pub open spec fn spec_with_next_piece(self, config: Config, kind: PieceKind) -> Result<
        State,
        QueueError,
    > {
        self.spec_with_spawned(config, kind, self.game.queue)
    }

    /// What an action of the game makes of the state: a placement spends one
    /// move, every other action leaves the number of moves as it is.
    pub open spec fn spec_play(self, config: Config, action: GameAction) -> Result<
        State,
        GameError,
    > {
        match self.game.spec_reduce(config, action) {
            Ok(game) => Ok(
                State {
                    game,
                    moves_remaining: if action == GameAction::Place {
                        (self.moves_remaining - 1) as u8
                    } else {
                        self.moves_remaining
                    },
                    ..self
                },
            ),
            Err(e) => Err(e),
        }
    }

    /// What an action makes of the state, or why it is not allowed.
    pub open spec fn spec_reduce(self, config: Config, action: Action) -> Result<
        State,
        ReduceError,
    > {
        match action {
            Action::ConsumeQueue => match self.spec_with_consumed_queue(config) {
                Ok(state) => Ok(state),
                Err(e) => Err(ReduceError::ConsumeQueue(e)),
            },
            Action::WithNextPiece { kind } => match self.spec_with_next_piece(config, kind) {
                Ok(state) => Ok(state),
                Err(e) => Err(ReduceError::ConsumeQueue(e)),
            },
            Action::Play(action) => match self.spec_play(config, action) {
                Ok(state) => Ok(state),
                Err(e) => Err(ReduceError::Play(e)),
            },
        }
    }

    /// The number of pieces that come into play without a guess: the piece in
    /// play, if there is one, and the pieces at the head of the queue.
    pub open spec fn spec_known_draws(self) -> int {
        spec_queue_head(self.game.queue@, 0) + if self.game.piece is Some {
            1int
        } else {
            0int
        }
    }

    /// The number of pieces that come into play without a guess.
    pub fn known_draws(&self) -> (count: usize)
        ensures
            count == self.spec_known_draws(),
    {
        let mut head: usize = 0;
        while head < 7 && self.game.queue[head].is_some()
            invariant
                0 <= head <= 7,
                spec_queue_head(self.game.queue@, 0) == head + spec_queue_head(
                    self.game.queue@,
                    head as int,
                ),
            decreases 7 - head,
        {
            head += 1;
        }
        if self.game.piece.is_some() {
            head + 1
        } else {
            head
        }
    }

    /// Applies one action and returns the state that results. The state
    /// itself is left as it was.
    pub fn reduce(&self, config: &Config, action: &Action) -> (result: Result<State, ReduceError>)
        requires
            self.wf(),
            self.can_afford(*action),
        ensures
            result == self.spec_reduce(*config, *action),
            result matches Ok(next) ==> next.wf(),
    {
        match action {
            Action::ConsumeQueue => match self.with_consumed_queue(config) {
                Ok(state) => Ok(state),
                Err(e) => Err(ReduceError::ConsumeQueue(e)),
            },
            Action::WithNextPiece { kind } => match self.with_next_piece(config, kind) {
                Ok(state) => Ok(state),
                Err(e) => Err(ReduceError::ConsumeQueue(e)),
            },
            Action::Play(action) => match self.game.reduce(config, action) {
                Ok(game) => {
                    let moves_remaining = match action {
                        GameAction::Place => self.moves_remaining - 1,
                        _ => self.moves_remaining,
                    };
                    Ok(State { game, moves_remaining, ..*self })
                },
                Err(e) => Err(ReduceError::Play(e)),
            },
        }
    }

    /// Brings the first piece of the queue into play.
    pub fn with_consumed_queue(&self, config: &Config) -> (result: Result<State, QueueError>)
        ensures
            result == self.spec_with_consumed_queue(*config),
            result matches Ok(next) ==> next.wf(),
    {
        let next_piece_kind = match &self.game.queue[0] {
            Some(kind) => *kind,
            None => {
                return Err(QueueError::QueueEmpty);
            },
        };
        let next_piece = Piece::spawn(config, &next_piece_kind);
        if !self.game.board.can_fit(&next_piece.get_points(config)) {
            return Err(QueueError::PieceCollision);
        }
        let queue = self.game.queue;
        let new_queue = [queue[1], queue[2], queue[3], queue[4], queue[5], queue[6], None];
        Ok(
            State {
                game: Game {
                    queue: new_queue,
                    piece: Some(next_piece),
                    is_hold_used: false,
                    ..self.game
                },
                ..*self
            },
        )
    }

    /// Brings a piece of the given kind into play; the queue stays as it is.
    pub fn with_next_piece(&self, config: &Config, kind: &PieceKind) -> (result: Result<
        State,
        QueueError,
    >)
        ensures
            result == self.spec_with_next_piece(*config, *kind),
            result matches Ok(next) ==> next.wf(),
    {
        let next_piece = Piece::spawn(config, kind);
        if !self.game.board.can_fit(&next_piece.get_points(config)) {
            return Err(QueueError::PieceCollision);
        }
        Ok(
            State {
                game: Game { piece: Some(next_piece), is_hold_used: false, ..self.game },
                ..*self
            },
        )
    }
}

/// A placement spends one move and frees the hold; no other action changes
/// the number of moves that remain.
pub proof fn lemma_only_place_spends_a_move(state: State, config: Config, action: Action)
    requires
        state.can_afford(action),
    ensures
        state.spec_reduce(config, action) matches Ok(next) ==> {
            &&& action == Action::Play(GameAction::Place) ==> next.moves_remaining
                == state.moves_remaining - 1 && !next.game.is_hold_used && next.game.piece is None
            &&& action != Action::Play(GameAction::Place) ==> next.moves_remaining
                == state.moves_remaining
            &&& next.seen_in_bag == state.seen_in_bag
        },
{
}

/// A piece that comes into play, from the queue or by itself, frees the
/// hold, appears at its spawn point facing north, and leaves the board, the
/// piece held back and the budget as they were.
pub proof fn lemma_new_piece_frees_hold(state: State, config: Config, action: Action)
    requires
        action is ConsumeQueue || action is WithNextPiece,
    ensures
        state.spec_reduce(config, action) matches Ok(next) ==> {
            &&& !next.game.is_hold_used
            &&& next.game.piece matches Some(piece) && piece == Piece::spec_spawn(
                config,
                piece.kind,
            )
            &&& next.game.board == state.game.board
            &&& next.game.hold_kind == state.game.hold_kind
            &&& next.moves_remaining == state.moves_remaining
        },
{
}

} // verus!
