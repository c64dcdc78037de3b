//! Where the piece in play can be locked: every position and orientation it
//! can reach by the moves that the options allow.

use std::collections::HashMap;
use vstd::prelude::*;
use vstd::set_lib::lemma_len_subset;
use crate::board::Board;
use crate::config::Config;
use crate::game::{
    fits, is_lockable, lemma_moved_stays_in_bounds, spec_moved, Action, Game, Move,
};
use crate::piece::{Piece, PieceKind};
use crate::utils::point::Point;
use crate::utils::rotation::Orientation;

verus! {

broadcast use vstd::std_specs::hash::group_hash_axioms;

/// What the search for placements keeps about a position it has reached.
#[derive(Debug, Clone, Copy, PartialEq, Eq)]
pub struct PlaceablePiecesValue {
    /// Whether the piece can be locked there.
    pub is_placable: bool,
    /// The position and orientation from which a single move led there.
    pub previous_key: Option<(Point, Orientation)>,
}

/// Where the piece is after the moves, made one after the other, or `None`
/// if the board does not allow one of them.
pub open spec fn run_moves(config: Config, board: Board, start: Piece, moves: Seq<Move>) -> Option<
    Piece,
>
    decreases moves.len(),
{
    if moves.len() == 0 {
        Some(start)
    } else {
        match run_moves(config, board, start, moves.drop_last()) {
            Some(piece) => spec_moved(config, board, piece, moves.last()),
            None => None,
        }
    }
}

/// Every move of the sequence is one that the options allow.
pub open spec fn all_allowed(config: Config, moves: Seq<Move>) -> bool {
    forall|i: int| 0 <= i < moves.len() ==> config.spec_possible_moves().contains(#[trigger] moves[i])
}

/// Some sequence of one or more allowed moves takes the piece from `start`
/// to `piece`.
pub open spec fn is_reachable(config: Config, board: Board, start: Piece, piece: Piece) -> bool {
    exists|moves: Seq<Move>|
        moves.len() > 0 && all_allowed(config, moves) && #[trigger] run_moves(
            config,
            board,
            start,
            moves,
        ) == Some(piece)
}

/// The piece stands where a piece that fits can stand, and its position has
/// a key.
pub open spec fn is_keyed(piece: Piece) -> bool {
    &&& -3 <= piece.position.x <= 9
    &&& -3 <= piece.position.y
    &&& piece.in_bounds()
}

/// The number that stands for the position and orientation of a piece:
/// positions are counted row by row from the lowest row a piece can stand
/// in, thirteen columns to a row, four orientations to a column.
pub open spec fn spec_placement_key(piece: Piece) -> int {
    ((piece.position.y + 3) * 13 + (piece.position.x + 3)) * 4 + piece.orientation.quarter_turns()
}

/// The key as the map holds it.
pub open spec fn key_of(piece: Piece) -> u128 {
    spec_placement_key(piece) as u128
}

/// The piece of the given kind that a key stands for.
pub open spec fn spec_piece_of_key(kind: PieceKind, key: int) -> Piece {
    Piece {
        kind,
        position: Point { x: ((key / 4) % 13 - 3) as isize, y: (key / 52 - 3) as isize },
        orientation: Orientation::from_quarter_turns(key % 4),
    }
}

/// The number of keys of the positions up to row `ceiling`.
pub open spec fn key_bound(ceiling: int) -> nat {
    (52 * (ceiling + 4)) as nat
}

/// The keys below `bound`.
pub open spec fn key_range(bound: nat) -> Set<u128>
    decreases bound,
{
    if bound == 0 {
        Set::empty()
    } else {
        key_range((bound - 1) as nat).insert((bound - 1) as u128)
    }
}

/// The keys up to row `ceiling` that the map does not hold yet.
pub open spec fn unexplored(ceiling: int, memo: Map<u128, PlaceablePiecesValue>) -> Set<u128> {
    key_range(key_bound(ceiling)).difference(memo.dom())
}

/// Every entry of the smaller map is an entry of the larger one.
pub open spec fn is_kept_in(
    smaller: Map<u128, PlaceablePiecesValue>,
    larger: Map<u128, PlaceablePiecesValue>,
) -> bool {
    forall|key: u128| #[trigger]
        smaller.contains_key(key) ==> larger.contains_key(key) && larger[key] == smaller[key]
}

/// Every position the piece can move to from where it is has a key in the
/// map.
pub open spec fn successors_known(
    config: Config,
    board: Board,
    piece: Piece,
    memo: Map<u128, PlaceablePiecesValue>,
) -> bool {
    forall|mov: Move|
        config.spec_possible_moves().contains(mov) && (#[trigger] spec_moved(
            config,
            board,
            piece,
            mov,
        )) is Some ==> memo.contains_key(key_of(spec_moved(config, board, piece, mov).unwrap()))
}

/// One allowed move takes the piece from the one place to the other.
pub open spec fn is_one_move(config: Config, board: Board, from: Piece, to: Piece) -> bool {
    exists|mov: Move|
        config.spec_possible_moves().contains(mov) && #[trigger] spec_moved(
            config,
            board,
            from,
            mov,
        ) == Some(to)
}

/// What holds of every entry of the map: its key stands for a position up to
/// row `ceiling` that the piece can reach from `start`, and the entry says
/// whether the piece can be locked there and names a position from which one
/// allowed move leads there.
pub open spec fn memo_inv(
    config: Config,
    board: Board,
    start: Piece,
    ceiling: int,
    memo: Map<u128, PlaceablePiecesValue>,
) -> bool {
    forall|key: u128| #[trigger]
        memo.contains_key(key) ==> {
            let piece = spec_piece_of_key(start.kind, key as int);
            &&& is_keyed(piece)
            &&& key_of(piece) == key
            &&& piece.position.y <= ceiling
            &&& is_reachable(config, board, start, piece)
            &&& memo[key].is_placable == is_lockable(config, board, piece)
            &&& memo[key].previous_key matches Some(previous) && is_one_move(
                config,
                board,
                Piece { kind: start.kind, position: previous.0, orientation: previous.1 },
                piece,
            )
        }
}

/// The pieces found are exactly those of the map that can be locked, each
/// once.
pub open spec fn found_inv(
    kind: PieceKind,
    memo: Map<u128, PlaceablePiecesValue>,
    found: Seq<Piece>,
) -> bool {
    &&& forall|i: int|
        0 <= i < found.len() ==> {
            let piece = #[trigger] found[i];
            &&& piece.kind == kind
            &&& is_keyed(piece)
            &&& memo.contains_key(key_of(piece))
            &&& memo[key_of(piece)].is_placable
        }
    &&& forall|key: u128| #[trigger]
        memo.contains_key(key) && memo[key].is_placable ==> found.contains(
            spec_piece_of_key(kind, key as int),
        )
    &&& found.no_duplicates()
}

/// A key stands for one position only.
pub proof fn lemma_key_round_trip(piece: Piece)
    requires
        is_keyed(piece),
    ensures
        spec_piece_of_key(piece.kind, spec_placement_key(piece)) == piece,
        0 <= spec_placement_key(piece) < key_bound(piece.position.y as int),
        spec_placement_key(piece) <= u128::MAX,
{
    let key = spec_placement_key(piece);
    let turns = piece.orientation.quarter_turns();
    let column = piece.position.x + 3;
    let row = piece.position.y + 3;
    assert(key == (row * 13 + column) * 4 + turns);
    assert(key / 4 == row * 13 + column);
    assert(key % 4 == turns);
    assert((row * 13 + column) % 13 == column);
    assert(key / 52 == row);
}

/// The keys below a bound are as many as the bound says.
pub proof fn lemma_key_range(bound: nat)
    requires
        bound <= u128::MAX,
    ensures
        key_range(bound).finite(),
        key_range(bound).len() == bound,
        forall|key: u128| key_range(bound).contains(key) <==> key < bound,
    decreases bound,
{
    if bound > 0 {
        lemma_key_range((bound - 1) as nat);
    }
}

/// A new key below the bound leaves one key fewer unexplored.
pub proof fn lemma_unexplored_shrinks(
    ceiling: int,
    memo: Map<u128, PlaceablePiecesValue>,
    key: u128,
    value: PlaceablePiecesValue,
)
    requires
        0 <= key_bound(ceiling) <= u128::MAX,
        key < key_bound(ceiling),
        !memo.contains_key(key),
    ensures
        unexplored(ceiling, memo.insert(key, value)).len() < unexplored(ceiling, memo).len(),
{
    lemma_key_range(key_bound(ceiling));
    assert(unexplored(ceiling, memo.insert(key, value)) =~= unexplored(ceiling, memo).remove(key));
    assert(unexplored(ceiling, memo).contains(key));
}

/// A map that holds more leaves no more unexplored.
pub proof fn lemma_unexplored_monotone(
    ceiling: int,
    smaller: Map<u128, PlaceablePiecesValue>,
    larger: Map<u128, PlaceablePiecesValue>,
)
    requires
        0 <= key_bound(ceiling) <= u128::MAX,
        is_kept_in(smaller, larger),
    ensures
        unexplored(ceiling, larger).len() <= unexplored(ceiling, smaller).len(),
{
    lemma_key_range(key_bound(ceiling));
    assert(unexplored(ceiling, larger).subset_of(unexplored(ceiling, smaller)));
    lemma_len_subset(unexplored(ceiling, larger), unexplored(ceiling, smaller));
}

/// One more allowed move from a position that is the start or can be reached
/// from it leads to a position that can be reached.
pub proof fn lemma_reachable_step(
    config: Config,
    board: Board,
    start: Piece,
    piece: Piece,
    mov: Move,
)
    requires
        piece == start || is_reachable(config, board, start, piece),
        config.spec_possible_moves().contains(mov),
        spec_moved(config, board, piece, mov) is Some,
    ensures
        is_reachable(config, board, start, spec_moved(config, board, piece, mov).unwrap()),
{
    let moves = if is_reachable(config, board, start, piece) {
        choose|moves: Seq<Move>|
            moves.len() > 0 && all_allowed(config, moves) && #[trigger] run_moves(
                config,
                board,
                start,
                moves,
            ) == Some(piece)
    } else {
        Seq::<Move>::empty()
    };
    let longer = moves.push(mov);
    assert(longer.drop_last() =~= moves);
    assert(run_moves(config, board, start, moves) == Some(piece));
    assert(run_moves(config, board, start, longer) == spec_moved(config, board, piece, mov));
}

/// Moves keep a piece its kind and, once one has been made, leave it
/// standing where a piece that fits can stand.
pub proof fn lemma_run_moves_keyed(config: Config, board: Board, start: Piece, moves: Seq<Move>)
    requires
        start.in_bounds(),
        run_moves(config, board, start, moves) is Some,
    ensures
        run_moves(config, board, start, moves).unwrap().kind == start.kind,
        run_moves(config, board, start, moves).unwrap().in_bounds(),
        moves.len() > 0 ==> is_keyed(run_moves(config, board, start, moves).unwrap()) && fits(
            config,
            board,
            run_moves(config, board, start, moves).unwrap(),
        ),
    decreases moves.len(),
{
    if moves.len() > 0 {
        lemma_run_moves_keyed(config, board, start, moves.drop_last());
        let before = run_moves(config, board, start, moves.drop_last()).unwrap();
        lemma_moved_stays_in_bounds(config, board, before, moves.last());
    }
}

/// A map that knows the successors of the start and of every position it
/// holds knows every position that can be reached.
pub proof fn lemma_closed_memo_is_complete(
    config: Config,
    board: Board,
    start: Piece,
    memo: Map<u128, PlaceablePiecesValue>,
    moves: Seq<Move>,
)
    requires
        start.in_bounds(),
        successors_known(config, board, start, memo),
        forall|key: u128| #[trigger]
            memo.contains_key(key) ==> successors_known(
                config,
                board,
                spec_piece_of_key(start.kind, key as int),
                memo,
            ),
        moves.len() > 0,
        all_allowed(config, moves),
        run_moves(config, board, start, moves) is Some,
    ensures
        memo.contains_key(key_of(run_moves(config, board, start, moves).unwrap())),
    decreases moves.len(),
{
    let earlier = moves.drop_last();
    let before = run_moves(config, board, start, earlier).unwrap();
    assert(config.spec_possible_moves().contains(moves.last()));
    if earlier.len() == 0 {
        assert(before == start);
    } else {
        assert(all_allowed(config, earlier)) by {
            assert forall|i: int| 0 <= i < earlier.len() implies config.spec_possible_moves().contains(
            #[trigger] earlier[i]) by {
                assert(earlier[i] == moves[i]);
            }
        }
        lemma_closed_memo_is_complete(config, board, start, memo, earlier);
        lemma_run_moves_keyed(config, board, start, earlier);
        lemma_key_round_trip(before);
        assert(memo.contains_key(key_of(before)));
        assert(spec_piece_of_key(start.kind, key_of(before) as int) == before);
    }
}

/// The key of a piece that stands where a piece that fits can stand.
pub fn placement_key(piece: &Piece) -> (key: u128)
    requires
        is_keyed(*piece),
    ensures
        key == key_of(*piece),
        key == spec_placement_key(*piece),
{
    let row: u128 = (piece.position.y + 3) as u128;
    let column: u128 = (piece.position.x + 3) as u128;
    let turns: u128 = match piece.orientation {
        Orientation::North => 0,
        Orientation::East => 1,
        Orientation::South => 2,
        Orientation::West => 3,
    };
    (row * 13 + column) * 4 + turns
}

/// Containment of maps carries over a map in between.
pub proof fn lemma_kept_chain(
    first: Map<u128, PlaceablePiecesValue>,
    second: Map<u128, PlaceablePiecesValue>,
    third: Map<u128, PlaceablePiecesValue>,
)
    requires
        is_kept_in(first, second),
        is_kept_in(second, third),
    ensures
        is_kept_in(first, third),
{
    assert forall|key: u128| #[trigger] first.contains_key(key) implies third.contains_key(key)
        && third[key] == first[key] by {
        assert(second.contains_key(key));
    }
}

/// What is known of the successors of a piece stays known when the map
/// grows.
pub proof fn lemma_successors_stay_known(
    config: Config,
    board: Board,
    piece: Piece,
    smaller: Map<u128, PlaceablePiecesValue>,
    larger: Map<u128, PlaceablePiecesValue>,
)
    requires
        is_kept_in(smaller, larger),
        successors_known(config, board, piece, smaller),
    ensures
        successors_known(config, board, piece, larger),
{
    assert forall|mov: Move|
        config.spec_possible_moves().contains(mov) && (#[trigger] spec_moved(
            config,
            board,
            piece,
            mov,
        )) is Some implies larger.contains_key(
        key_of(spec_moved(config, board, piece, mov).unwrap()),
    ) by {
        assert(smaller.contains_key(key_of(spec_moved(config, board, piece, mov).unwrap())));
    }
}

/// Entering a piece that can be locked keeps the pieces found in step with
/// the map.
pub proof fn lemma_found_after_entry(
    kind: PieceKind,
    memo: Map<u128, PlaceablePiecesValue>,
    found: Seq<Piece>,
    piece: Piece,
    value: PlaceablePiecesValue,
)
    requires
        found_inv(kind, memo, found),
        piece.kind == kind,
        is_keyed(piece),
        !memo.contains_key(key_of(piece)),
    ensures
        value.is_placable ==> found_inv(kind, memo.insert(key_of(piece), value), found.push(piece)),
        !value.is_placable ==> found_inv(kind, memo.insert(key_of(piece), value), found),
{
    let key = key_of(piece);
    let entered = memo.insert(key, value);
    lemma_key_round_trip(piece);
    if value.is_placable {
        let longer = found.push(piece);
        assert forall|k: u128| #[trigger]
            entered.contains_key(k) && entered[k].is_placable implies longer.contains(
            spec_piece_of_key(kind, k as int),
        ) by {
            if k == key {
                assert(longer[longer.len() - 1] == piece);
            } else {
                let at = choose|at: int|
                    0 <= at < found.len() && found[at] == spec_piece_of_key(kind, k as int);
                assert(longer[at] == found[at]);
            }
        }
        assert forall|a: int, b: int|
            0 <= a < longer.len() && 0 <= b < longer.len() && a != b implies longer[a]
            != longer[b] by {
            if a < found.len() && b < found.len() {
                assert(found[a] != found[b]);
            } else if a < found.len() {
                assert(memo.contains_key(key_of(found[a])));
            } else if b < found.len() {
                assert(memo.contains_key(key_of(found[b])));
            }
        }
        assert forall|i: int| 0 <= i < longer.len() implies {
            let at = #[trigger] longer[i];
            &&& at.kind == kind
            &&& is_keyed(at)
            &&& entered.contains_key(key_of(at))
            &&& entered[key_of(at)].is_placable
        } by {
            if i < found.len() {
                assert(longer[i] == found[i]);
                assert(memo.contains_key(key_of(found[i])));
            }
        }
    } else {
        assert forall|k: u128| #[trigger]
            entered.contains_key(k) && entered[k].is_placable implies found.contains(
            spec_piece_of_key(kind, k as int),
        ) by {
            assert(memo.contains_key(k));
        }
        assert forall|i: int| 0 <= i < found.len() implies {
            let at = #[trigger] found[i];
            &&& at.kind == kind
            &&& is_keyed(at)
            &&& entered.contains_key(key_of(at))
            &&& entered[key_of(at)].is_placable
        } by {
            assert(memo.contains_key(key_of(found[i])));
        }
    }
}

/// Enters the piece in play into the map unless the map holds it already,
/// and then everything that can be reached from it.
fn enter_placement(
    config: &Config,
    game: &Game,
    previous: &Piece,
    memo: &mut HashMap<u128, PlaceablePiecesValue>,
    found: &mut Vec<Piece>,
    Ghost(start): Ghost<Piece>,
    Ghost(ceiling): Ghost<int>,
)
    requires
        game.piece is Some,
        is_keyed(game.piece.unwrap()),
        game.piece.unwrap().kind == start.kind,
        game.piece.unwrap().position.y <= ceiling,
        9 <= ceiling <= isize::MAX - 5,
        is_reachable(*config, game.board, start, game.piece.unwrap()),
        previous.kind == start.kind,
        is_one_move(*config, game.board, *previous, game.piece.unwrap()),
        memo_inv(*config, game.board, start, ceiling, old(memo)@),
        found_inv(start.kind, old(memo)@, old(found)@),
    ensures
        memo_inv(*config, game.board, start, ceiling, final(memo)@),
        found_inv(start.kind, final(memo)@, final(found)@),
        is_kept_in(old(memo)@, final(memo)@),
        unexplored(ceiling, final(memo)@).len() <= unexplored(ceiling, old(memo)@).len(),
        final(memo)@.contains_key(key_of(game.piece.unwrap())),
        forall|key: u128| #[trigger]
            final(memo)@.contains_key(key) && !old(memo)@.contains_key(key) ==> successors_known(
                *config,
                game.board,
                spec_piece_of_key(start.kind, key as int),
                final(memo)@,
            ),
    decreases unexplored(ceiling, old(memo)@).len(), 0int,
{
    let piece = match &game.piece {
        Some(piece) => *piece,
        None => {
            return ;
        },
    };
    proof {
        lemma_key_round_trip(piece);
        assert(key_bound(piece.position.y as int) <= key_bound(ceiling));
    }
    let key = placement_key(&piece);
    if memo.contains_key(&key) {
        return ;
    }
    let is_placable = game.board.can_place(&piece.get_points(config));
    let value = PlaceablePiecesValue {
        is_placable,
        previous_key: Some((previous.position, previous.orientation)),
    };
    proof {
        lemma_found_after_entry(start.kind, memo@, found@, piece, value);
        lemma_unexplored_shrinks(ceiling, memo@, key, value);
        assert(*previous == Piece {
            kind: start.kind,
            position: previous.position,
            orientation: previous.orientation,
        });
    }
    memo.insert(key, value);
    if is_placable {
        found.push(piece);
    }
    let ghost entered = memo@;
    assert(is_kept_in(old(memo)@, entered));
    generate_placable_pieces(config, game, memo, found, Ghost(start), Ghost(ceiling));
    proof {
        lemma_kept_chain(old(memo)@, entered, memo@);
        lemma_unexplored_monotone(ceiling, entered, memo@);
        assert(entered.contains_key(key));
    }
}

/// Follows every allowed move from the piece in play and enters each position
/// that is new into the map, together with every position that can be
/// reached from it in turn. The pieces that can be locked are added to
/// `found` as they are met.
fn generate_placable_pieces(
    config: &Config,
    game: &Game,
    memo: &mut HashMap<u128, PlaceablePiecesValue>,
    found: &mut Vec<Piece>,
    Ghost(start): Ghost<Piece>,
    Ghost(ceiling): Ghost<int>,
)
    requires
        game.piece is Some,
        game.piece.unwrap().in_bounds(),
        game.piece.unwrap().kind == start.kind,
        game.piece.unwrap().position.y <= ceiling,
        9 <= ceiling <= isize::MAX - 5,
        game.piece.unwrap() == start || is_reachable(
            *config,
            game.board,
            start,
            game.piece.unwrap(),
        ),
        memo_inv(*config, game.board, start, ceiling, old(memo)@),
        found_inv(start.kind, old(memo)@, old(found)@),
    ensures
        memo_inv(*config, game.board, start, ceiling, final(memo)@),
        found_inv(start.kind, final(memo)@, final(found)@),
        is_kept_in(old(memo)@, final(memo)@),
        unexplored(ceiling, final(memo)@).len() <= unexplored(ceiling, old(memo)@).len(),
        successors_known(*config, game.board, game.piece.unwrap(), final(memo)@),
        forall|key: u128| #[trigger]
            final(memo)@.contains_key(key) && !old(memo)@.contains_key(key) ==> successors_known(
                *config,
                game.board,
                spec_piece_of_key(start.kind, key as int),
                final(memo)@,
            ),
    decreases unexplored(ceiling, old(memo)@).len(), 1int,
{
    let piece = match &game.piece {
        Some(piece) => *piece,
        None => {
            return ;
        },
    };
    let moves = config.possible_moves();
    let mut j: usize = 0;
    while j < moves.len()
        invariant
            0 <= j <= moves.len(),
            moves@ == config.spec_possible_moves(),
            game.piece == Some(piece),
            piece.in_bounds(),
            piece.kind == start.kind,
            piece.position.y <= ceiling,
            9 <= ceiling <= isize::MAX - 5,
            piece == start || is_reachable(*config, game.board, start, piece),
            memo_inv(*config, game.board, start, ceiling, memo@),
            found_inv(start.kind, memo@, found@),
            is_kept_in(old(memo)@, memo@),
            unexplored(ceiling, memo@).len() <= unexplored(ceiling, old(memo)@).len(),
            forall|i: int|
                0 <= i < j && (#[trigger] spec_moved(*config, game.board, piece, moves@[i])) is Some
                    ==> memo@.contains_key(
                    key_of(spec_moved(*config, game.board, piece, moves@[i]).unwrap()),
                ),
            forall|key: u128| #[trigger]
                memo@.contains_key(key) && !old(memo)@.contains_key(key) ==> successors_known(
                    *config,
                    game.board,
                    spec_piece_of_key(start.kind, key as int),
                    memo@,
                ),
        decreases moves.len() - j,
    {
        let mov = moves[j];
        let ghost memo_before = memo@;
        proof {
            assert(config.spec_possible_moves().contains(mov));
            lemma_moved_stays_in_bounds(*config, game.board, piece, mov);
        }
        match game.reduce(config, &Action::Move(mov)) {
            Ok(next_game) => {
                proof {
                    assert(spec_moved(*config, game.board, piece, mov) == next_game.piece);
                    lemma_reachable_step(*config, game.board, start, piece, mov);
                    assert(is_one_move(*config, game.board, piece, next_game.piece.unwrap()));
                }
                enter_placement(
                    config,
                    &next_game,
                    &piece,
                    memo,
                    found,
                    Ghost(start),
                    Ghost(ceiling),
                );
                proof {
                    lemma_kept_chain(old(memo)@, memo_before, memo@);
                    assert forall|key: u128| #[trigger]
                        memo@.contains_key(key) && !old(memo)@.contains_key(
                            key,
                        ) implies successors_known(
                        *config,
                        game.board,
                        spec_piece_of_key(start.kind, key as int),
                        memo@,
                    ) by {
                        if memo_before.contains_key(key) {
                            lemma_successors_stay_known(
                                *config,
                                game.board,
                                spec_piece_of_key(start.kind, key as int),
                                memo_before,
                                memo@,
                            );
                        }
                    }
                    assert forall|i: int|
                        0 <= i < j + 1 && (#[trigger] spec_moved(
                            *config,
                            game.board,
                            piece,
                            moves@[i],
                        )) is Some implies memo@.contains_key(
                        key_of(spec_moved(*config, game.board, piece, moves@[i]).unwrap()),
                    ) by {
                        if i < j {
                            assert(memo_before.contains_key(
                                key_of(spec_moved(*config, game.board, piece, moves@[i]).unwrap()),
                            ));
                        }
                    }
                }
            },
            Err(_) => {},
        }
        j += 1;
    }
    proof {
        assert forall|mov: Move|
            config.spec_possible_moves().contains(mov) && (#[trigger] spec_moved(
                *config,
                game.board,
                piece,
                mov,
            )) is Some implies memo@.contains_key(
            key_of(spec_moved(*config, game.board, piece, mov).unwrap()),
        ) by {
            let i = choose|i: int| 0 <= i < moves@.len() && moves@[i] == mov;
            assert(spec_moved(*config, game.board, piece, moves@[i]) is Some);
        }
    }
}

/// The pieces stand in the order of their keys: row by row from the bottom,
/// in each row column by column from the left, and in each column facing
/// north, east, south, west.
pub open spec fn is_key_sorted(pieces: Seq<Piece>) -> bool {
    forall|i: int, j: int|
        0 <= i < j < pieces.len() ==> spec_placement_key(#[trigger] pieces[i]) < spec_placement_key(
            #[trigger] pieces[j],
        )
}

/// The pieces of `found` in the order of their keys.
pub fn sort_by_key(found: &Vec<Piece>) -> (sorted: Vec<Piece>)
    requires
        forall|i: int| 0 <= i < found@.len() ==> is_keyed(#[trigger] found@[i]),
        forall|i: int, j: int|
            0 <= i < j < found@.len() ==> spec_placement_key(#[trigger] found@[i])
                != spec_placement_key(#[trigger] found@[j]),
    ensures
        is_key_sorted(sorted@),
        sorted@.len() == found@.len(),
        forall|piece: Piece| sorted@.contains(piece) <==> found@.contains(piece),
{
    let mut sorted: Vec<Piece> = Vec::new();
    let mut i: usize = 0;
    while i < found.len()
        invariant
            0 <= i <= found@.len(),
            sorted@.len() == i,
            is_key_sorted(sorted@),
            forall|k: int| 0 <= k < found@.len() ==> is_keyed(#[trigger] found@[k]),
            forall|a: int, b: int|
                0 <= a < b < found@.len() ==> spec_placement_key(#[trigger] found@[a])
                    != spec_placement_key(#[trigger] found@[b]),
            forall|k: int| 0 <= k < sorted@.len() ==> found@.take(i as int).contains(#[trigger] sorted@[k]),
            forall|k: int| 0 <= k < i ==> sorted@.contains(#[trigger] found@[k]),
        decreases found@.len() - i,
    {
        let piece = found[i];
        let key = placement_key(&piece);
        let mut at: usize = 0;
        while at < sorted.len() && placement_key(&sorted[at]) < key
            invariant
                0 <= at <= sorted@.len(),
                key == spec_placement_key(piece),
                forall|k: int| 0 <= k < sorted@.len() ==> is_keyed(#[trigger] sorted@[k]),
                forall|k: int| 0 <= k < at ==> spec_placement_key(#[trigger] sorted@[k]) < key,
            decreases sorted@.len() - at,
        {
            at += 1;
        }
        let ghost before = sorted@;
        proof {
            assert forall|k: int| at <= k < before.len() implies key < spec_placement_key(
                #[trigger] before[k],
            ) by {
                let from = choose|from: int|
                    0 <= from < found@.take(i as int).len() && found@.take(i as int)[from]
                        == before[k];
                assert(found@[from] == before[k]);
                assert(spec_placement_key(found@[from]) != spec_placement_key(found@[i as int]));
                if k > at {
                    assert(spec_placement_key(before[at as int]) < spec_placement_key(before[k]));
                }
            }
        }
        sorted.insert(at, piece);
        proof {
            let after = sorted@;
            assert forall|a: int, b: int| 0 <= a < b < after.len() implies spec_placement_key(
                #[trigger] after[a],
            ) < spec_placement_key(#[trigger] after[b]) by {
                let a_before = if a < at {
                    a
                } else {
                    a - 1
                };
                let b_before = if b < at {
                    b
                } else {
                    b - 1
                };
                if a != at && b != at {
                    assert(after[a] == before[a_before]);
                    assert(after[b] == before[b_before]);
                } else if a == at {
                    assert(after[b] == before[b_before]);
                } else {
                    assert(after[a] == before[a_before]);
                }
            }
            assert forall|k: int| 0 <= k < after.len() implies found@.take(i + 1).contains(
                #[trigger] after[k],
            ) by {
                if k == at {
                    assert(found@.take(i + 1)[i as int] == piece);
                } else {
                    let k_before = if k < at {
                        k
                    } else {
                        k - 1
                    };
                    assert(after[k] == before[k_before]);
                    let from = choose|from: int|
                        0 <= from < found@.take(i as int).len() && found@.take(i as int)[from]
                            == before[k_before];
                    assert(found@.take(i + 1)[from] == before[k_before]);
                }
            }
            assert forall|k: int| 0 <= k < i + 1 implies after.contains(#[trigger] found@[k]) by {
                if k == i {
                    assert(after[at as int] == piece);
                } else {
                    let was = choose|was: int| 0 <= was < before.len() && before[was] == found@[k];
                    let now = if was < at {
                        was
                    } else {
                        was + 1
                    };
                    assert(after[now] == before[was]);
                }
            }
        }
        i += 1;
    }
    proof {
        assert(found@.take(found@.len() as int) =~= found@);
    }
    sorted
}

/// What the placements of a game are: one game for each position and
/// orientation in which the piece in play can be locked and that it can
/// reach by allowed moves, and nothing else, in the order of the keys of the
/// pieces. A game without a piece in play has none.
pub open spec fn is_placement_list(config: Config, game: Game, games: Seq<Game>) -> bool {
    match game.piece {
        None => games.len() == 0,
        Some(start) => {
            &&& forall|i: int|
                0 <= i < games.len() ==> {
                    let next = #[trigger] games[i];
                    &&& next.piece is Some
                    &&& next == game.with_piece(next.piece.unwrap())
                    &&& next.piece.unwrap().kind == start.kind
                    &&& is_keyed(next.piece.unwrap())
                    &&& is_reachable(config, game.board, start, next.piece.unwrap())
                    &&& is_lockable(config, game.board, next.piece.unwrap())
                }
            &&& forall|piece: Piece|
                is_reachable(config, game.board, start, piece) && #[trigger] is_lockable(
                    config,
                    game.board,
                    piece,
                ) ==> games.contains(game.with_piece(piece))
            &&& forall|i: int, j: int|
                0 <= i < j < games.len() ==> spec_placement_key(
                    (#[trigger] games[i]).piece.unwrap(),
                ) < spec_placement_key((#[trigger] games[j]).piece.unwrap())
        },
    }
}

/// The placements of a game.
pub open spec fn spec_placements(config: Config, game: Game) -> Seq<Game> {
    choose|games: Seq<Game>| is_placement_list(config, game, games)
}

/// Two lists of the placements of a game agree up to any place that both
/// have.
pub proof fn lemma_placement_lists_agree(
    config: Config,
    game: Game,
    first: Seq<Game>,
    second: Seq<Game>,
    upto: int,
)
    requires
        is_placement_list(config, game, first),
        is_placement_list(config, game, second),
        0 <= upto <= first.len(),
        upto <= second.len(),
    ensures
        forall|i: int| 0 <= i < upto ==> first[i] == second[i],
    decreases upto,
{
    if upto > 0 {
        lemma_placement_lists_agree(config, game, first, second, upto - 1);
        let i = upto - 1;
        let a = first[i];
        let b = second[i];
        assert(second.contains(game.with_piece(a.piece.unwrap())));
        let at_second = choose|j: int| 0 <= j < second.len() && second[j] == a;
        assert(first.contains(game.with_piece(b.piece.unwrap())));
        let at_first = choose|j: int| 0 <= j < first.len() && first[j] == b;
        if at_second < i {
            assert(first[at_second] == second[at_second]);
        }
        if at_first < i {
            assert(first[at_first] == second[at_first]);
        }
        lemma_key_round_trip(a.piece.unwrap());
        lemma_key_round_trip(b.piece.unwrap());
    }
}

/// A game has one list of placements only.
pub proof fn lemma_placement_list_unique(
    config: Config,
    game: Game,
    first: Seq<Game>,
    second: Seq<Game>,
)
    requires
        is_placement_list(config, game, first),
        is_placement_list(config, game, second),
    ensures
        first == second,
{
    if game.piece is Some {
        if first.len() < second.len() {
            lemma_placement_lists_agree(config, game, first, second, first.len() as int);
            let extra = second[first.len() as int];
            assert(first.contains(game.with_piece(extra.piece.unwrap())));
            let at = choose|j: int| 0 <= j < first.len() && first[j] == extra;
            assert(second[at] == extra);
        } else if second.len() < first.len() {
            lemma_placement_lists_agree(config, game, first, second, second.len() as int);
            let extra = first[second.len() as int];
            assert(second.contains(game.with_piece(extra.piece.unwrap())));
            let at = choose|j: int| 0 <= j < second.len() && second[j] == extra;
            assert(first[at] == extra);
        } else {
            lemma_placement_lists_agree(config, game, first, second, first.len() as int);
        }
    }
    assert(first =~= second);
}

/// The games in which the piece in play stands where it can be locked: one
/// for every position and orientation that the piece can reach by the moves
/// that the options allow, in the order of their keys.
pub fn branch_game_to_placable_pieces(config: &Config, game: &Game) -> (games: Vec<Game>)
    requires
        game.wf(),
    ensures
        is_placement_list(*config, *game, games@),
        games@ == spec_placements(*config, *game),
{
    let piece = match &game.piece {
        Some(piece) => *piece,
        None => {
            let games: Vec<Game> = Vec::new();
            proof {
                lemma_placement_list_unique(
                    *config,
                    *game,
                    games@,
                    spec_placements(*config, *game),
                );
            }
            return games;
        },
    };
    let ghost ceiling: int = if piece.position.y >= 9 {
        piece.position.y as int
    } else {
        9
    };
    let mut memo: HashMap<u128, PlaceablePiecesValue> = HashMap::new();
    let mut found: Vec<Piece> = Vec::new();
    generate_placable_pieces(config, game, &mut memo, &mut found, Ghost(piece), Ghost(ceiling));
    proof {
        assert forall|i: int, j: int| 0 <= i < j < found@.len() implies spec_placement_key(
            #[trigger] found@[i],
        ) != spec_placement_key(#[trigger] found@[j]) by {
            lemma_key_round_trip(found@[i]);
            lemma_key_round_trip(found@[j]);
        }
    }
    let sorted = sort_by_key(&found);
    let mut games: Vec<Game> = Vec::new();
    let mut i: usize = 0;
    while i < sorted.len()
        invariant
            0 <= i <= sorted.len(),
            games@.len() == i,
            forall|k: int|
                0 <= k < i ==> #[trigger] games@[k] == game.with_piece(sorted@[k]),
        decreases sorted.len() - i,
    {
        games.push(Game { piece: Some(sorted[i]), ..*game });
        i += 1;
    }
    proof {
        assert forall|k: int| 0 <= k < games@.len() implies {
            let next = #[trigger] games@[k];
            &&& next.piece is Some
            &&& next == game.with_piece(next.piece.unwrap())
            &&& next.piece.unwrap().kind == piece.kind
            &&& is_keyed(next.piece.unwrap())
            &&& is_reachable(*config, game.board, piece, next.piece.unwrap())
            &&& is_lockable(*config, game.board, next.piece.unwrap())
        } by {
            let placed = sorted@[k];
            assert(sorted@.contains(placed));
            let at = choose|at: int| 0 <= at < found@.len() && found@[at] == placed;
            lemma_key_round_trip(placed);
            assert(memo@.contains_key(key_of(found@[at])));
        }
        assert forall|placed: Piece|
            is_reachable(*config, game.board, piece, placed) && #[trigger] is_lockable(
                *config,
                game.board,
                placed,
            ) implies games@.contains(game.with_piece(placed)) by {
            let moves = choose|moves: Seq<Move>|
                moves.len() > 0 && all_allowed(*config, moves) && #[trigger] run_moves(
                    *config,
                    game.board,
                    piece,
                    moves,
                ) == Some(placed);
            lemma_closed_memo_is_complete(*config, game.board, piece, memo@, moves);
            lemma_run_moves_keyed(*config, game.board, piece, moves);
            lemma_key_round_trip(placed);
            let key = key_of(placed);
            assert(memo@.contains_key(key));
            assert(found@.contains(spec_piece_of_key(piece.kind, key as int)));
            assert(sorted@.contains(placed));
            let at = choose|at: int| 0 <= at < sorted@.len() && sorted@[at] == placed;
            assert(games@[at] == game.with_piece(placed));
        }
        assert forall|a: int, b: int| 0 <= a < b < games@.len() implies spec_placement_key(
            (#[trigger] games@[a]).piece.unwrap(),
        ) < spec_placement_key((#[trigger] games@[b]).piece.unwrap()) by {
            assert(games@[a].piece == Some(sorted@[a]));
            assert(games@[b].piece == Some(sorted@[b]));
        }
        lemma_placement_list_unique(*config, *game, games@, spec_placements(*config, *game));
    }
    games
}

} // verus!
