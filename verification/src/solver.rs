//! The search for perfect clears.

use vstd::prelude::*;
use crate::board::Board;
use crate::config::Config;
use crate::game::{lemma_reduce_frame, Action as GameAction, Game};
use crate::piece::{piece_kinds, spec_piece_kinds, Piece, PieceKind};
use crate::placement::{branch_game_to_placable_pieces, is_placement_list, spec_placements};
use crate::search_graph::{
    edge_is_step, graph_grows, is_entry_piece, is_placement_step, lemma_graph_grows_chain,
    lemma_inv_after_edge, lemma_inv_after_node, lemma_node_key_round_trip, node_at, search_inv,
    spec_board_too_high, spec_node_key, GraphEdge, GraphNode,
};
use crate::solution::{
    get_perfect_clear_paths_from_graph, has_kind_weights, is_simple_walk, is_solution_of,
    is_solution_step, is_walk_between, is_walk_step, lemma_solution_walks, solutions_tell,
    spec_candidate_paths, spec_solution_walks, spec_walks,
};
use crate::state::{Action, QueueError, ReduceError, State};
use crate::utils::source_sink_graph::{GraphModel, SourceSinkGraph};
use crate::utils::weight_indexed_graph::GRAPH_LIMIT;

verus! {

/// The states in which a piece of each kind, in the order of the kinds up to
/// `upto`, has come into play by itself; a kind whose piece overlaps the
/// board gives none.
pub open spec fn spec_guessed_states(config: Config, state: State, upto: int) -> Seq<State>
    decreases upto,
{
    if upto <= 0 {
        Seq::empty()
    } else {
        let earlier = spec_guessed_states(config, state, upto - 1);
        match state.spec_reduce(config, Action::WithNextPiece { kind: spec_piece_kinds()[upto - 1] }) {
            Ok(next) => earlier.push(next),
            Err(_) => earlier,
        }
    }
}

/// The states that a placement starts from: the state itself if a piece is
/// in play; else the state with the first piece of the queue in play; else,
/// if the queue is empty, one state for each kind of piece.
pub open spec fn spec_branch_state_for_piece(config: Config, state: State) -> Seq<State> {
    if state.game.piece is Some {
        seq![state]
    } else {
        match state.spec_reduce(config, Action::ConsumeQueue) {
            Ok(next) => seq![next],
            Err(ReduceError::ConsumeQueue(QueueError::QueueEmpty)) => spec_guessed_states(
                config,
                state,
                7,
            ),
            Err(_) => Seq::empty(),
        }
    }
}

/// The states that a placement starts from.
pub fn branch_state_for_piece(config: &Config, state: &State) -> (states: Vec<State>)
    requires
        state.wf(),
    ensures
        states@ == spec_branch_state_for_piece(*config, *state),
        forall|i: int| 0 <= i < states@.len() ==> (#[trigger] states@[i]).wf(),
{
    if state.game.piece.is_some() {
        return vec![*state];
    }
    match state.reduce(config, &Action::ConsumeQueue) {
        Ok(state_after_consume_queue) => {
            return vec![state_after_consume_queue];
        },
        Err(ReduceError::ConsumeQueue(QueueError::QueueEmpty)) => {},
        Err(_) => {
            return Vec::new();
        },
    }
    let kinds = piece_kinds();
    let mut states: Vec<State> = Vec::new();
    let mut i: usize = 0;
    while i < 7
        invariant
            0 <= i <= 7,
            state.wf(),
            kinds@ == spec_piece_kinds(),
            states@ == spec_guessed_states(*config, *state, i as int),
            forall|k: int| 0 <= k < states@.len() ==> (#[trigger] states@[k]).wf(),
        decreases 7 - i,
    {
        match state.reduce(config, &Action::WithNextPiece { kind: kinds[i] }) {
            Ok(next) => {
                states.push(next);
            },
            Err(_) => {},
        }
        i += 1;
    }
    states
}

/// The games after the hold was used, first with a swap, then without one;
/// a use that the game does not allow gives none.
pub open spec fn spec_branch_game_on_hold(config: Config, game: Game) -> Seq<Game> {
    let swapped = match game.spec_reduce(config, GameAction::Hold { switch: true }) {
        Ok(next) => seq![next],
        Err(_) => Seq::empty(),
    };
    match game.spec_reduce(config, GameAction::Hold { switch: false }) {
        Ok(next) => swapped.push(next),
        Err(_) => swapped,
    }
}

/// The games after the hold was used, first with a swap, then without one.
pub fn branch_game_on_hold(config: &Config, game: &Game) -> (games: Vec<Game>)
    requires
        game.wf(),
    ensures
        games@ == spec_branch_game_on_hold(*config, *game),
        forall|i: int| 0 <= i < games@.len() ==> (#[trigger] games@[i]).wf(),
{
    let mut games: Vec<Game> = Vec::new();
    match game.reduce(config, &GameAction::Hold { switch: true }) {
        Ok(next) => {
            games.push(next);
        },
        Err(_) => {},
    }
    match game.reduce(config, &GameAction::Hold { switch: false }) {
        Ok(next) => {
            games.push(next);
        },
        Err(_) => {},
    }
    games
}

/// The graph after the piece in play has been locked and the board that
/// results has been entered as a successor of the node with the given index:
/// an edge to the node of that board, which is a new node unless the board
/// was reached before with as many moves left, and, from a new node whose
/// board neither clears perfectly nor is too high, everything that the
/// search reaches from there. A graph at its limit takes no new node.
pub open spec fn spec_insert_next_state(
    config: Config,
    state_after_move: State,
    previous_node_idx: usize,
    graph: GraphModel,
) -> GraphModel
    decreases state_after_move.moves_remaining, 0int, 0int,
{
    if state_after_move.moves_remaining == 0 || state_after_move.game.piece is None {
        graph
    } else {
        match state_after_move.spec_reduce(config, Action::Play(GameAction::Place)) {
            Err(_) => graph,
            Ok(state_after_place) => {
                let board = state_after_place.game.board;
                let key = spec_node_key(board, state_after_place.moves_remaining);
                let weight = state_after_move.game.piece.unwrap().kind.spec_index() as u8;
                if state_after_place.moves_remaining >= state_after_move.moves_remaining {
                    graph
                } else if graph.nodes.contains(key) {
                    graph.with_edge((previous_node_idx, graph.index_of(key) as usize, weight))
                } else if graph.nodes.len() >= GRAPH_LIMIT {
                    graph
                } else {
                    let node_idx = graph.nodes.len() as usize;
                    let entered = graph.with_new_node(
                        key,
                        board.spec_can_perfect_clear(),
                    ).with_edge((previous_node_idx, node_idx, weight));
                    if GraphNode::spec_of(board, state_after_place.moves_remaining).is_expandable() {
                        spec_generate_next_states(config, state_after_place, node_idx, entered)
                    } else {
                        entered
                    }
                }
            },
        }
    }
}

/// The graph after each of the games from `from` on, in their order, has
/// had its piece locked and its board entered.
pub open spec fn spec_expand_placements(
    config: Config,
    state_after_hold: State,
    previous_node_idx: usize,
    graph: GraphModel,
    games: Seq<Game>,
    from: int,
) -> GraphModel
    decreases state_after_hold.moves_remaining, 1int, games.len() - from,
{
    if from < 0 || from >= games.len() {
        graph
    } else {
        spec_expand_placements(
            config,
            state_after_hold,
            previous_node_idx,
            spec_insert_next_state(
                config,
                State { game: games[from], ..state_after_hold },
                previous_node_idx,
                graph,
            ),
            games,
            from + 1,
        )
    }
}

/// The graph after each of the games from `from` on, in their order, has
/// had every placement of its piece entered.
pub open spec fn spec_expand_holds(
    config: Config,
    state_with_piece: State,
    previous_node_idx: usize,
    graph: GraphModel,
    games: Seq<Game>,
    from: int,
) -> GraphModel
    decreases state_with_piece.moves_remaining, 2int, games.len() - from,
{
    if from < 0 || from >= games.len() {
        graph
    } else {
        spec_expand_holds(
            config,
            state_with_piece,
            previous_node_idx,
            spec_expand_placements(
                config,
                State { game: games[from], ..state_with_piece },
                previous_node_idx,
                graph,
                spec_placements(config, games[from]),
                0,
            ),
            games,
            from + 1,
        )
    }
}

/// The graph after each of the states from `from` on, in their order, has
/// had every placement entered that follows each use of the hold.
pub open spec fn spec_expand_states(
    config: Config,
    previous_state: State,
    previous_node_idx: usize,
    graph: GraphModel,
    states: Seq<State>,
    from: int,
) -> GraphModel
    decreases previous_state.moves_remaining, 3int, states.len() - from,
{
    if from < 0 || from >= states.len() {
        graph
    } else {
        spec_expand_states(
            config,
            previous_state,
            previous_node_idx,
            spec_expand_holds(
                config,
                State { game: states[from].game, ..previous_state },
                previous_node_idx,
                graph,
                spec_branch_game_on_hold(config, states[from].game),
                0,
            ),
            states,
            from + 1,
        )
    }
}

/// The graph after everything that the search reaches from the state has
/// been entered: for every piece that can come into play, in the order in
/// which the pieces are tried, every use of the hold, first with a swap, and
/// every placement of the piece in the order of the placements.
pub open spec fn spec_generate_next_states(
    config: Config,
    previous_state: State,
    previous_node_idx: usize,
    graph: GraphModel,
) -> GraphModel
    decreases previous_state.moves_remaining, 4int, 0int,
{
    spec_expand_states(
        config,
        previous_state,
        previous_node_idx,
        graph,
        spec_branch_state_for_piece(config, previous_state),
        0,
    )
}

/// The graph with the node of the state and nothing else; the node is a sink
/// if its board clears perfectly.
pub open spec fn spec_root_graph(state: State) -> GraphModel {
    GraphModel {
        nodes: seq![spec_node_key(state.game.board, state.moves_remaining)],
        edges: Seq::empty(),
        source: Some(0usize),
        sinks: if state.game.board.spec_can_perfect_clear() {
            seq![0usize]
        } else {
            Seq::empty()
        },
    }
}

/// The graph of a search from the state: its first node stands for the
/// state, and unless the board of the state clears perfectly, is too high, or
/// no move is left, everything that the search reaches from the state
/// follows.
pub open spec fn spec_search_graph(config: Config, state: State) -> GraphModel {
    if GraphNode::spec_of(state.game.board, state.moves_remaining).is_expandable() {
        spec_generate_next_states(config, state, 0, spec_root_graph(state))
    } else {
        spec_root_graph(state)
    }
}

/// Locks the piece in play, enters the board that results into the graph as
/// a successor of the node the search came from, and goes on from there
/// unless the board clears perfectly, is too high, or was reached before with
/// as many moves left.
fn insert_next_state(
    config: &Config,
    state_after_move: &State,
    previous_node_idx: usize,
    node_graph: &mut SourceSinkGraph,
    Ghost(entry): Ghost<Option<Piece>>,
    Ghost(start): Ghost<Piece>,
)
    requires
        state_after_move.wf(),
        state_after_move.moves_remaining > 0,
        old(node_graph).wf(),
        search_inv(*config, entry, old(node_graph).model()),
        previous_node_idx < old(node_graph).model().nodes.len(),
        node_at(old(node_graph).model(), previous_node_idx as int) == GraphNode::spec_of(
            state_after_move.game.board,
            state_after_move.moves_remaining,
        ),
        node_at(old(node_graph).model(), previous_node_idx as int).is_expandable(),
        state_after_move.game.piece is Some,
        is_entry_piece(*config, entry, start),
        start.kind == state_after_move.game.piece.unwrap().kind,
        crate::placement::is_reachable(
            *config,
            state_after_move.game.board,
            start,
            state_after_move.game.piece.unwrap(),
        ),
        crate::game::is_lockable(
            *config,
            state_after_move.game.board,
            state_after_move.game.piece.unwrap(),
        ),
    ensures
        final(node_graph).wf(),
        search_inv(*config, entry, final(node_graph).model()),
        graph_grows(old(node_graph).model(), final(node_graph).model()),
        final(node_graph).model() == spec_insert_next_state(
            *config,
            *state_after_move,
            previous_node_idx,
            old(node_graph).model(),
        ),
    decreases state_after_move.moves_remaining, 0int, 0int,
{
    let piece_kind = match &state_after_move.game.piece {
        Some(piece) => piece.kind,
        None => {
            return ;
        },
    };
    let state_after_place = match state_after_move.reduce(config, &Action::Play(GameAction::Place)) {
        Ok(state) => state,
        Err(_) => {
            return ;
        },
    };
    let graph_node = GraphNode::of(state_after_place.game.board, state_after_place.moves_remaining);
    let can_perfect_clear = state_after_place.game.board.can_perfect_clear();
    let key = graph_node.key();
    let weight = (GraphEdge { piece_kind }).weight();
    proof {
        lemma_node_key_round_trip(state_after_place.game.board, state_after_place.moves_remaining);
        assert(is_placement_step(
            *config,
            entry,
            state_after_move.game.board,
            piece_kind,
            state_after_place.game.board,
        )) by {
            assert(crate::placement::is_reachable(
                *config,
                state_after_move.game.board,
                start,
                state_after_move.game.piece.unwrap(),
            ));
        }
        assert(spec_piece_kinds()[weight as int] == piece_kind);
    }
    let ghost before = node_graph.model();
    match node_graph.graph.get_node_index(key) {
        Some(node_idx) => {
            let _ = node_graph.graph.add_edge(previous_node_idx, node_idx, weight);
            proof {
                node_graph.lemma_wf();
                assert(before.index_of(key) == node_idx);
                if node_graph.model().edges != before.edges {
                    lemma_inv_after_edge(
                        *config,
                        entry,
                        before,
                        node_graph.model(),
                        (previous_node_idx, node_idx, weight),
                    );
                }
            }
            return ;
        },
        None => {},
    }
    let node_idx = match node_graph.graph.add_node(key) {
        Ok(node_idx) => node_idx,
        Err(_) => {
            proof {
                node_graph.lemma_wf();
            }
            return ;
        },
    };
    if can_perfect_clear {
        node_graph.sinks.push(node_idx);
    }
    let ghost with_node = node_graph.model();
    proof {
        assert forall|i: int| 0 <= i < node_graph.sinks@.len() implies #[trigger] node_graph.sinks@[i]
            < node_graph.graph.nodes().len() by {
            if i < before.sinks.len() {
                assert(before.sinks[i] < before.nodes.len());
            }
        }
        node_graph.lemma_wf();
        assert(with_node == before.with_new_node(key, can_perfect_clear));
        lemma_inv_after_node(*config, entry, before, with_node, key);
    }
    let _ = node_graph.graph.add_edge(previous_node_idx, node_idx, weight);
    let ghost with_edge = node_graph.model();
    proof {
        node_graph.lemma_wf();
        assert(with_edge == with_node.with_edge((previous_node_idx, node_idx, weight)));
        if with_edge.edges != with_node.edges {
            lemma_inv_after_edge(
                *config,
                entry,
                with_node,
                with_edge,
                (previous_node_idx, node_idx, weight),
            );
        }
        lemma_graph_grows_chain(before, with_node, with_edge);
    }
    if can_perfect_clear || !graph_node.is_valid {
        return ;
    }
    generate_next_states(config, &state_after_place, node_idx, node_graph, Ghost(entry));
    proof {
        lemma_graph_grows_chain(before, with_edge, node_graph.model());
    }
}

/// Enters into the graph every board that one placement leads to from the
/// state, for every way the piece in play can be locked.
fn expand_placements(
    config: &Config,
    state_after_hold: &State,
    previous_node_idx: usize,
    node_graph: &mut SourceSinkGraph,
    Ghost(entry): Ghost<Option<Piece>>,
)
    requires
        state_after_hold.wf(),
        state_after_hold.moves_remaining > 0,
        old(node_graph).wf(),
        search_inv(*config, entry, old(node_graph).model()),
        previous_node_idx < old(node_graph).model().nodes.len(),
        node_at(old(node_graph).model(), previous_node_idx as int) == GraphNode::spec_of(
            state_after_hold.game.board,
            state_after_hold.moves_remaining,
        ),
        node_at(old(node_graph).model(), previous_node_idx as int).is_expandable(),
        state_after_hold.game.piece matches Some(piece) ==> is_entry_piece(*config, entry, piece),
    ensures
        final(node_graph).wf(),
        search_inv(*config, entry, final(node_graph).model()),
        graph_grows(old(node_graph).model(), final(node_graph).model()),
        final(node_graph).model() == spec_expand_placements(
            *config,
            *state_after_hold,
            previous_node_idx,
            old(node_graph).model(),
            spec_placements(*config, state_after_hold.game),
            0,
        ),
    decreases state_after_hold.moves_remaining, 1int, 0int,
{
    let games = branch_game_to_placable_pieces(config, &state_after_hold.game);
    let mut i: usize = 0;
    while i < games.len()
        invariant
            0 <= i <= games.len(),
            state_after_hold.wf(),
            state_after_hold.moves_remaining > 0,
            is_placement_list(*config, state_after_hold.game, games@),
            games@ == spec_placements(*config, state_after_hold.game),
            state_after_hold.game.piece matches Some(piece) ==> is_entry_piece(
                *config,
                entry,
                piece,
            ),
            node_graph.wf(),
            search_inv(*config, entry, node_graph.model()),
            graph_grows(old(node_graph).model(), node_graph.model()),
            previous_node_idx < old(node_graph).model().nodes.len(),
            node_at(old(node_graph).model(), previous_node_idx as int) == GraphNode::spec_of(
                state_after_hold.game.board,
                state_after_hold.moves_remaining,
            ),
            node_at(old(node_graph).model(), previous_node_idx as int).is_expandable(),
            spec_expand_placements(
                *config,
                *state_after_hold,
                previous_node_idx,
                old(node_graph).model(),
                games@,
                0,
            ) == spec_expand_placements(
                *config,
                *state_after_hold,
                previous_node_idx,
                node_graph.model(),
                games@,
                i as int,
            ),
        decreases games.len() - i,
    {
        let state_after_move = State { game: games[i], ..*state_after_hold };
        let ghost before = node_graph.model();
        proof {
            assert(games@[i as int].piece is Some);
            assert(node_graph.model().nodes[previous_node_idx as int] == old(node_graph).model().nodes[previous_node_idx as int]);
        }
        insert_next_state(
            config,
            &state_after_move,
            previous_node_idx,
            node_graph,
            Ghost(entry),
            Ghost(state_after_hold.game.piece.unwrap()),
        );
        proof {
            lemma_graph_grows_chain(old(node_graph).model(), before, node_graph.model());
        }
        i += 1;
    }
}

/// Enters into the graph every board that one placement leads to from the
/// state, with the hold used in each way the game allows.
fn expand_holds(
    config: &Config,
    state_with_piece: &State,
    previous_node_idx: usize,
    node_graph: &mut SourceSinkGraph,
    Ghost(entry): Ghost<Option<Piece>>,
)
    requires
        state_with_piece.wf(),
        state_with_piece.moves_remaining > 0,
        old(node_graph).wf(),
        search_inv(*config, entry, old(node_graph).model()),
        previous_node_idx < old(node_graph).model().nodes.len(),
        node_at(old(node_graph).model(), previous_node_idx as int) == GraphNode::spec_of(
            state_with_piece.game.board,
            state_with_piece.moves_remaining,
        ),
        node_at(old(node_graph).model(), previous_node_idx as int).is_expandable(),
        state_with_piece.game.piece matches Some(piece) ==> is_entry_piece(*config, entry, piece),
    ensures
        final(node_graph).wf(),
        search_inv(*config, entry, final(node_graph).model()),
        graph_grows(old(node_graph).model(), final(node_graph).model()),
        final(node_graph).model() == spec_expand_holds(
            *config,
            *state_with_piece,
            previous_node_idx,
            old(node_graph).model(),
            spec_branch_game_on_hold(*config, state_with_piece.game),
            0,
        ),
    decreases state_with_piece.moves_remaining, 2int, 0int,
{
    let games = branch_game_on_hold(config, &state_with_piece.game);
    let mut i: usize = 0;
    while i < games.len()
        invariant
            0 <= i <= games.len(),
            state_with_piece.wf(),
            state_with_piece.moves_remaining > 0,
            games@ == spec_branch_game_on_hold(*config, state_with_piece.game),
            forall|k: int| 0 <= k < games@.len() ==> (#[trigger] games@[k]).wf(),
            state_with_piece.game.piece matches Some(piece) ==> is_entry_piece(
                *config,
                entry,
                piece,
            ),
            node_graph.wf(),
            search_inv(*config, entry, node_graph.model()),
            graph_grows(old(node_graph).model(), node_graph.model()),
            previous_node_idx < old(node_graph).model().nodes.len(),
            node_at(old(node_graph).model(), previous_node_idx as int) == GraphNode::spec_of(
                state_with_piece.game.board,
                state_with_piece.moves_remaining,
            ),
            node_at(old(node_graph).model(), previous_node_idx as int).is_expandable(),
            spec_expand_holds(
                *config,
                *state_with_piece,
                previous_node_idx,
                old(node_graph).model(),
                games@,
                0,
            ) == spec_expand_holds(
                *config,
                *state_with_piece,
                previous_node_idx,
                node_graph.model(),
                games@,
                i as int,
            ),
        decreases games.len() - i,
    {
        let state_after_hold = State { game: games[i], ..*state_with_piece };
        let ghost before = node_graph.model();
        proof {
            lemma_reduce_frame(state_with_piece.game, *config, GameAction::Hold { switch: true });
            lemma_reduce_frame(state_with_piece.game, *config, GameAction::Hold { switch: false });
            assert(node_graph.model().nodes[previous_node_idx as int] == old(node_graph).model().nodes[previous_node_idx as int]);
        }
        expand_placements(config, &state_after_hold, previous_node_idx, node_graph, Ghost(entry));
        proof {
            lemma_graph_grows_chain(old(node_graph).model(), before, node_graph.model());
        }
        i += 1;
    }
}

/// Enters into the graph everything that the search reaches from a state
/// whose board is the node with the given index: for every piece that can
/// come into play, every use of the hold and every place where the piece can
/// be locked, the board after the placement, and from there on in the same
/// way until a board clears perfectly, is too high, was reached before with
/// as many moves left, or no move is left.
fn generate_next_states(
    config: &Config,
    previous_state: &State,
    previous_node_idx: usize,
    node_graph: &mut SourceSinkGraph,
    Ghost(entry): Ghost<Option<Piece>>,
)
    requires
        previous_state.wf(),
        previous_state.moves_remaining > 0,
        previous_state.game.piece is None || previous_state.game.piece == entry,
        old(node_graph).wf(),
        search_inv(*config, entry, old(node_graph).model()),
        previous_node_idx < old(node_graph).model().nodes.len(),
        node_at(old(node_graph).model(), previous_node_idx as int) == GraphNode::spec_of(
            previous_state.game.board,
            previous_state.moves_remaining,
        ),
        node_at(old(node_graph).model(), previous_node_idx as int).is_expandable(),
    ensures
        final(node_graph).wf(),
        search_inv(*config, entry, final(node_graph).model()),
        graph_grows(old(node_graph).model(), final(node_graph).model()),
        final(node_graph).model() == spec_generate_next_states(
            *config,
            *previous_state,
            previous_node_idx,
            old(node_graph).model(),
        ),
    decreases previous_state.moves_remaining, 4int, 0int,
{
    let states = branch_state_for_piece(config, previous_state);
    let mut i: usize = 0;
    while i < states.len()
        invariant
            0 <= i <= states.len(),
            previous_state.wf(),
            previous_state.moves_remaining > 0,
            previous_state.game.piece is None || previous_state.game.piece == entry,
            states@ == spec_branch_state_for_piece(*config, *previous_state),
            forall|k: int| 0 <= k < states@.len() ==> (#[trigger] states@[k]).wf(),
            node_graph.wf(),
            search_inv(*config, entry, node_graph.model()),
            graph_grows(old(node_graph).model(), node_graph.model()),
            previous_node_idx < old(node_graph).model().nodes.len(),
            node_at(old(node_graph).model(), previous_node_idx as int) == GraphNode::spec_of(
                previous_state.game.board,
                previous_state.moves_remaining,
            ),
            node_at(old(node_graph).model(), previous_node_idx as int).is_expandable(),
            spec_expand_states(
                *config,
                *previous_state,
                previous_node_idx,
                old(node_graph).model(),
                states@,
                0,
            ) == spec_expand_states(
                *config,
                *previous_state,
                previous_node_idx,
                node_graph.model(),
                states@,
                i as int,
            ),
        decreases states.len() - i,
    {
        let state_with_piece = states[i];
        let ghost before = node_graph.model();
        proof {
            lemma_branch_state_for_piece(*config, *previous_state, entry, i as int);
            assert(state_with_piece == State { game: states@[i as int].game, ..*previous_state });
            assert(node_graph.model().nodes[previous_node_idx as int] == old(node_graph).model().nodes[previous_node_idx as int]);
        }
        expand_holds(config, &state_with_piece, previous_node_idx, node_graph, Ghost(entry));
        proof {
            lemma_graph_grows_chain(old(node_graph).model(), before, node_graph.model());
        }
        i += 1;
    }
}

/// Every state that a placement starts from has the board and the number of
/// moves of the state it comes from, and its piece is in play as pieces come
/// into play.
pub proof fn lemma_branch_state_for_piece(
    config: Config,
    state: State,
    entry: Option<Piece>,
    i: int,
)
    requires
        state.game.piece is None || state.game.piece == entry,
        0 <= i < spec_branch_state_for_piece(config, state).len(),
    ensures
        ({
            let next = spec_branch_state_for_piece(config, state)[i];
            &&& next.game.board == state.game.board
            &&& next.moves_remaining == state.moves_remaining
            &&& next.seen_in_bag == state.seen_in_bag
            &&& next.game.piece matches Some(piece) && is_entry_piece(config, entry, piece)
        }),
{
    if state.game.piece is None {
        match state.spec_reduce(config, Action::ConsumeQueue) {
            Ok(next) => {},
            Err(_) => {
                lemma_guessed_states(config, state, 7, i);
            },
        }
    }
}

/// Every state with a piece that came into play by itself has the board and
/// the number of moves of the state it comes from, and its piece stands at
/// its spawn point.
pub proof fn lemma_guessed_states(config: Config, state: State, upto: int, i: int)
    requires
        0 <= upto <= 7,
        0 <= i < spec_guessed_states(config, state, upto).len(),
    ensures
        ({
            let next = spec_guessed_states(config, state, upto)[i];
            &&& next.game.board == state.game.board
            &&& next.moves_remaining == state.moves_remaining
            &&& next.seen_in_bag == state.seen_in_bag
            &&& next.game.piece matches Some(piece) && piece == Piece::spec_spawn(
                config,
                piece.kind,
            )
        }),
    decreases upto,
{
    if upto > 0 {
        let earlier = spec_guessed_states(config, state, upto - 1);
        if i < earlier.len() {
            lemma_guessed_states(config, state, upto - 1, i);
        }
    }
}

/// The graph of everything a search reaches from a state. Its first node
/// stands for the state. From a state whose board clears perfectly, is too
/// high, or that has no move left, the search does not go on: the graph then
/// has that one node, which is a sink if its board clears perfectly.
pub fn build_search_graph(config: &Config, state: &State) -> (node_graph: SourceSinkGraph)
    requires
        state.wf(),
    ensures
        node_graph.wf(),
        node_graph.model() == spec_search_graph(*config, *state),
        search_inv(*config, state.game.piece, node_graph.model()),
        node_at(node_graph.model(), 0) == GraphNode::spec_of(
            state.game.board,
            state.moves_remaining,
        ),
{
    let mut node_graph = SourceSinkGraph::new();
    let root = GraphNode::of(state.game.board, state.moves_remaining);
    let can_perfect_clear = state.game.board.can_perfect_clear();
    let key = root.key();
    let node_idx = match node_graph.add_source_node(key) {
        Ok(node_idx) => node_idx,
        Err(_) => 0,
    };
    proof {
        assert(!Seq::<u128>::empty().contains(key));
        assert(node_graph.graph.nodes() =~= seq![key]);
        assert(node_graph.graph.edges() =~= Seq::<(usize, usize, u8)>::empty());
    }
    if can_perfect_clear {
        node_graph.sinks.push(node_idx);
    }
    proof {
        assert(node_graph.sinks@ =~= spec_root_graph(*state).sinks);
        node_graph.lemma_wf();
        assert(node_graph.model() == spec_root_graph(*state));
    }
    if can_perfect_clear || !root.is_valid {
        return node_graph;
    }
    generate_next_states(config, state, node_idx, &mut node_graph, Ghost(state.game.piece));
    node_graph
}

/// The boards lead from the board of the state to a board that clears
/// perfectly, by one placement for each entry of the solution: entry `i`
/// names board `i`, which is not too high and does not clear perfectly yet,
/// and the kind whose piece, locked on it, gives board `i + 1`. There are no
/// more placements than the state has moves.
pub open spec fn is_board_chain(
    config: Config,
    state: State,
    solution: Seq<(Board, PieceKind)>,
    boards: Seq<Board>,
) -> bool {
    &&& boards.len() == solution.len() + 1
    &&& solution.len() <= state.moves_remaining
    &&& boards[0] == state.game.board
    &&& boards[boards.len() - 1].spec_can_perfect_clear()
    &&& forall|i: int|
        0 <= i < solution.len() ==> {
            &&& (#[trigger] solution[i]).0 == boards[i]
            &&& !spec_board_too_high(boards[i])
            &&& !boards[i].spec_can_perfect_clear()
            &&& is_placement_step(config, state.game.piece, boards[i], solution[i].1, boards[i + 1])
        }
}

/// The solution is a way to a perfect clear from the state: placement by
/// placement it leads from the board of the state to a board that clears
/// perfectly.
pub open spec fn is_perfect_clear_path(
    config: Config,
    state: State,
    solution: Seq<(Board, PieceKind)>,
) -> bool {
    exists|boards: Seq<Board>| #[trigger] is_board_chain(config, state, solution, boards)
}

/// Along a path from the source, every node has one move less than the node
/// before it.
pub proof fn lemma_walk_spends_moves(
    config: Config,
    entry: Option<Piece>,
    graph: GraphModel,
    to: usize,
    path: Seq<usize>,
    i: int,
)
    requires
        search_inv(config, entry, graph),
        is_walk_between(graph, 0, to, path),
        0 <= i < path.len(),
    ensures
        node_at(graph, path[i] as int).moves_remaining + i == node_at(graph, 0).moves_remaining,
    decreases i,
{
    if i > 0 {
        lemma_walk_spends_moves(config, entry, graph, to, path, i - 1);
        assert(is_walk_step(graph, path, i - 1));
        let e = choose|e: int|
            0 <= e < graph.edges.len() && (#[trigger] graph.edges[e]).0 == path[i
                - 1] && graph.edges[e].1 == path[i];
        assert(edge_is_step(config, entry, graph, e));
    }
}

/// The solution of a path from the source to a sink is a way to a perfect
/// clear.
pub proof fn lemma_walk_is_perfect_clear_path(
    config: Config,
    state: State,
    graph: GraphModel,
    sink: int,
    path: Seq<usize>,
    solution: Seq<(Board, PieceKind)>,
)
    requires
        search_inv(config, state.game.piece, graph),
        node_at(graph, 0) == GraphNode::spec_of(state.game.board, state.moves_remaining),
        0 <= sink < graph.sinks.len(),
        is_walk_between(graph, 0, graph.sinks[sink], path),
        is_solution_of(graph, path, solution),
    ensures
        is_perfect_clear_path(config, state, solution),
{
    let entry = state.game.piece;
    let boards = Seq::new(path.len(), |i: int| node_at(graph, path[i] as int).board);
    lemma_walk_spends_moves(config, entry, graph, graph.sinks[sink], path, path.len() - 1);
    assert forall|i: int| 0 <= i < solution.len() implies {
        &&& (#[trigger] solution[i]).0 == boards[i]
        &&& !spec_board_too_high(boards[i])
        &&& !boards[i].spec_can_perfect_clear()
        &&& is_placement_step(config, entry, boards[i], solution[i].1, boards[i + 1])
    } by {
        assert(is_solution_step(graph, path, solution, i));
        let weight = solution[i].1.spec_index() as u8;
        let e = choose|e: int|
            0 <= e < graph.edges.len() && #[trigger] graph.edges[e] == (
                path[i],
                path[i + 1],
                weight,
            );
        assert(edge_is_step(config, entry, graph, e));
        assert(spec_piece_kinds()[weight as int] == solution[i].1);
    }
    assert(boards[boards.len() - 1] == node_at(graph, graph.sinks[sink] as int).board);
    assert(is_board_chain(config, state, solution, boards));
}

/// A path through the graph of a search that starts at the first node
/// visits no node twice: every step spends a move.
pub proof fn lemma_walk_visits_no_node_twice(
    config: Config,
    entry: Option<Piece>,
    graph: GraphModel,
    to: usize,
    path: Seq<usize>,
)
    requires
        search_inv(config, entry, graph),
        is_walk_between(graph, 0, to, path),
    ensures
        is_simple_walk(graph, 0, to, path),
{
    assert forall|i: int, j: int| 0 <= i < j < path.len() implies #[trigger] path[i]
        != #[trigger] path[j] by {
        lemma_walk_spends_moves(config, entry, graph, to, path, i);
        lemma_walk_spends_moves(config, entry, graph, to, path, j);
    }
}

/// Every way to a perfect clear that the search finds from a state: for each
/// placement the board before it and the kind of the piece placed. There is
/// one solution for each path that `all_simple_paths` yields from the first
/// node of the graph of the search to a sink, and every path through that
/// graph from its first node to a sink has its solution. From a state whose
/// board clears perfectly already there is the one way without a placement;
/// from a state whose board is too high, or that has no move left, there is
/// none.
pub fn get_perfect_clear_paths(config: &Config, state: &State) -> (paths: Vec<
    Vec<(Board, PieceKind)>,
>)
    requires
        state.wf(),
    ensures
        solutions_tell(
            spec_search_graph(*config, *state),
            spec_solution_walks(
                spec_search_graph(*config, *state),
                0,
                spec_search_graph(*config, *state).sinks.len() as int,
            ),
            paths@,
        ),
        forall|k: int|
            0 <= k < paths@.len() ==> is_perfect_clear_path(*config, *state, #[trigger] paths@[k]@),
        forall|sink: int, path: Seq<usize>|
            0 <= sink < spec_search_graph(*config, *state).sinks.len() && #[trigger] is_walk_between(
                spec_search_graph(*config, *state),
                0,
                spec_search_graph(*config, *state).sinks[sink],
                path,
            ) ==> exists|k: int|
                0 <= k < paths@.len() && is_solution_of(
                    spec_search_graph(*config, *state),
                    path,
                    (#[trigger] paths@[k])@,
                ),
        !GraphNode::spec_of(state.game.board, state.moves_remaining).is_expandable() ==> if state.game.board.spec_can_perfect_clear() {
            paths@.len() == 1 && paths@[0]@.len() == 0
        } else {
            paths@.len() == 0
        },
{
    let node_graph = build_search_graph(config, state);
    let ghost graph = node_graph.model();
    proof {
        assert(has_kind_weights(graph)) by {
            assert forall|e: int| 0 <= e < graph.edges.len() implies (#[trigger] graph.edges[e]).2
                < 7 by {
                assert(edge_is_step(*config, state.game.piece, graph, e));
            }
        }
    }
    let paths = get_perfect_clear_paths_from_graph(&node_graph);
    proof {
        let count = graph.sinks.len() as int;
        let walks = spec_solution_walks(graph, 0, count);
        assert forall|sink: int, path: Seq<usize>|
            0 <= sink < graph.sinks.len() && #[trigger] is_walk_between(
                graph,
                0,
                graph.sinks[sink],
                path,
            ) implies exists|k: int|
            0 <= k < paths@.len() && is_solution_of(graph, path, (#[trigger] paths@[k])@) by {
            lemma_walk_visits_no_node_twice(
                *config,
                state.game.piece,
                graph,
                graph.sinks[sink],
                path,
            );
            assert(walks.contains(path));
            let k = choose|k: int| 0 <= k < walks.len() && walks[k] == path;
            assert(is_solution_of(graph, walks[k], paths@[k]@));
        }
        assert forall|k: int| 0 <= k < paths@.len() implies is_perfect_clear_path(
            *config,
            *state,
            #[trigger] paths@[k]@,
        ) by {
            let sink = lemma_solution_walks(graph, 0, count, k);
            lemma_walk_is_perfect_clear_path(*config, *state, graph, sink, walks[k], paths@[k]@);
        }
        if !GraphNode::spec_of(state.game.board, state.moves_remaining).is_expandable() {
            if state.game.board.spec_can_perfect_clear() {
                let stay = seq![0usize];
                let candidates = spec_candidate_paths(graph, 0, 0);
                assert(candidates == seq![stay]);
                assert(candidates.drop_last() =~= Seq::<Seq<usize>>::empty());
                assert(is_walk_between(graph, 0, 0, stay));
                assert(spec_walks(graph, 0, 0, candidates.drop_last()).len() == 0);
                assert(spec_walks(graph, 0, 0, candidates).len() == 1);
                assert(spec_solution_walks(graph, 0, 0).len() == 0);
                assert(walks.len() == 1);
                assert(walks[0] == stay);
            } else {
                assert(walks.len() == 0);
            }
        }
    }
    paths
}

/// The graph of a search is a function of the options and the state: two
/// searches from the same state build graphs with the same nodes, edges and
/// sinks, in the same order.
pub proof fn lemma_search_graph_is_determined(
    config: Config,
    state: State,
    first: SourceSinkGraph,
    second: SourceSinkGraph,
)
    requires
        state.wf(),
        call_ensures(build_search_graph, (&config, &state), first),
        call_ensures(build_search_graph, (&config, &state), second),
    ensures
        first.model() == second.model(),
        first.graph.nodes().len() == second.graph.nodes().len(),
        first.graph.edges().len() == second.graph.edges().len(),
        first.sinks@ == second.sinks@,
{
}

/// Two searches from the same state find as many solutions, in the same
/// order, and each pair of solutions tells the same path through the graph
/// of the search: the same boards, and kinds that the same steps carry.
pub proof fn lemma_solutions_are_determined(
    config: Config,
    state: State,
    first: Vec<Vec<(Board, PieceKind)>>,
    second: Vec<Vec<(Board, PieceKind)>>,
    k: int,
    i: int,
)
    requires
        state.wf(),
        call_ensures(get_perfect_clear_paths, (&config, &state), first),
        call_ensures(get_perfect_clear_paths, (&config, &state), second),
        0 <= k < first@.len(),
        0 <= i < first@[k]@.len(),
    ensures
        first@.len() == second@.len(),
        first@[k]@.len() == second@[k]@.len(),
        first@[k]@[i].0 == second@[k]@[i].0,
{
    let graph = spec_search_graph(config, state);
    let walks = spec_solution_walks(graph, 0, graph.sinks.len() as int);
    assert(is_solution_of(graph, walks[k], first@[k]@));
    assert(is_solution_of(graph, walks[k], second@[k]@));
    assert(is_solution_step(graph, walks[k], first@[k]@, i));
    assert(is_solution_step(graph, walks[k], second@[k]@, i));
}

/// A solver that remembers the last game it was given.
pub struct Solver {
    pub current_state: State,
}

impl Solver {
    /// A solver that has been given no game yet.
    pub fn new() -> (solver: Solver)
        ensures
            solver.current_state.is_initial(),
            solver.current_state.wf(),
    {
        Solver { current_state: State::initial() }
    }

    /// Gives the solver a game; the budget of moves and what is known of the
    /// bag stay as they are.
    pub fn update_game(&mut self, game: Game)
        ensures
            final(self).current_state.game == game,
            final(self).current_state.moves_remaining == old(self).current_state.moves_remaining,
            final(self).current_state.seen_in_bag == old(self).current_state.seen_in_bag,
    {
        self.current_state.game = game;
    }
}

} // verus!
