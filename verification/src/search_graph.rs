//! The nodes and edges of the graph that a search builds, and what holds of
//! that graph all through the search.

use vstd::prelude::*;
use crate::board::Board;
use crate::config::Config;
use crate::game::{is_lockable, spec_locked_board};
use crate::piece::{spec_piece_kinds, Piece, PieceKind};
use crate::placement::is_reachable;
use crate::utils::source_sink_graph::GraphModel;

verus! {

/// What the search keeps of a state it has reached. Two states with the same
/// board and the same number of moves left are one node.
#[derive(Debug, Clone, Copy, PartialEq, Eq, Structural)]
pub struct GraphNode {
    pub board: Board,
    pub moves_remaining: u8,
    /// Whether a perfect clear can still come of this node: nothing is
    /// filled above the rows that a perfect clear is played in, and either
    /// the board clears perfectly as it is or moves remain.
    pub is_valid: bool,
}

/// Something is filled above the four rows that a perfect clear is played
/// in.
pub open spec fn spec_board_too_high(board: Board) -> bool {
    !board.spec_is_line_empty(4) || !board.spec_is_line_empty(5)
}

/// No move is left and the board does not clear perfectly.
pub open spec fn spec_out_of_moves(board: Board, moves_remaining: u8) -> bool {
    moves_remaining == 0 && !board.spec_can_perfect_clear()
}

/// The weight that stands for the node with this board and this number of
/// moves: the mask of the board in the low 64 bits, the number of moves above
/// them.
pub open spec fn spec_node_key(board: Board, moves_remaining: u8) -> u128 {
    (board.fill + moves_remaining * 0x1_0000_0000_0000_0000) as u128
}

impl GraphNode {
    /// The node of a board and a number of moves left.
    pub open spec fn spec_of(board: Board, moves_remaining: u8) -> GraphNode {
        GraphNode {
            board,
            moves_remaining,
            is_valid: !spec_board_too_high(board) && !spec_out_of_moves(board, moves_remaining),
        }
    }

    /// The node of a board and a number of moves left.
    pub fn of(board: Board, moves_remaining: u8) -> (node: GraphNode)
        ensures
            node == GraphNode::spec_of(board, moves_remaining),
    {
        let board_too_high = !board.is_line_empty(4) || !board.is_line_empty(5);
        let can_perfect_clear = board.can_perfect_clear();
        let out_of_moves = moves_remaining == 0 && !can_perfect_clear;
        GraphNode { board, moves_remaining, is_valid: !board_too_high && !out_of_moves }
    }

    /// The node that a weight stands for.
    pub open spec fn spec_from_key(key: u128) -> GraphNode {
        GraphNode::spec_of(
            Board { fill: (key % 0x1_0000_0000_0000_0000) as u64 },
            ((key / 0x1_0000_0000_0000_0000) % 256) as u8,
        )
    }

    /// The node that a weight stands for.
    pub fn from_key(key: u128) -> (node: GraphNode)
        ensures
            node == GraphNode::spec_from_key(key),
    {
        GraphNode::of(
            Board::js_new((key % 0x1_0000_0000_0000_0000) as u64),
            ((key / 0x1_0000_0000_0000_0000) % 256) as u8,
        )
    }

    /// The weight that stands for the node.
    pub fn key(&self) -> (key: u128)
        ensures
            key == spec_node_key(self.board, self.moves_remaining),
            GraphNode::spec_from_key(key) == GraphNode::spec_of(self.board, self.moves_remaining),
    {
        let high: u128 = (self.moves_remaining as u128) * 0x1_0000_0000_0000_0000;
        (self.board.fill as u128) + high
    }

    /// Whether the search goes on from the node: it is valid, its board does
    /// not clear perfectly yet, and moves remain.
    pub open spec fn is_expandable(self) -> bool {
        self.is_valid && !self.board.spec_can_perfect_clear() && self.moves_remaining > 0
    }
}

/// A weight and the board and number of moves it stands for determine each
/// other.
pub proof fn lemma_node_key_round_trip(board: Board, moves_remaining: u8)
    ensures
        GraphNode::spec_from_key(spec_node_key(board, moves_remaining)) == GraphNode::spec_of(
            board,
            moves_remaining,
        ),
        GraphNode::spec_from_key(spec_node_key(board, moves_remaining)).board == board,
        GraphNode::spec_from_key(spec_node_key(board, moves_remaining)).moves_remaining
            == moves_remaining,
{
}

/// What the search keeps of a placement: the kind of the piece placed.
#[derive(Debug, Clone, Copy, PartialEq, Eq, Structural)]
pub struct GraphEdge {
    pub piece_kind: PieceKind,
}

impl GraphEdge {
    /// The weight that stands for the edge: the byte of the kind.
    pub fn weight(&self) -> (weight: u8)
        ensures
            weight == self.piece_kind.spec_index(),
            weight < 7,
            spec_piece_kinds()[weight as int] == self.piece_kind,
    {
        self.piece_kind.to_byte()
    }

    /// The edge that a weight stands for, if it is the byte of a kind.
    pub fn from_weight(weight: u8) -> (edge: Option<GraphEdge>)
        ensures
            edge is Some <==> weight < 7,
            edge matches Some(e) ==> e.piece_kind.spec_index() == weight,
    {
        match PieceKind::from_byte(weight) {
            Some(piece_kind) => Some(GraphEdge { piece_kind }),
            None => None,
        }
    }
}

/// A piece as it comes into play: at its spawn point facing north, or the
/// piece that was in play when the search began.
pub open spec fn is_entry_piece(config: Config, entry: Option<Piece>, piece: Piece) -> bool {
    piece == Piece::spec_spawn(config, piece.kind) || entry == Some(piece)
}

/// Locking a piece of `kind` leads from one board to the other: the piece
/// comes into play, reaches by allowed moves a place where it can be locked,
/// and the board after locking it there is `after`.
pub open spec fn is_placement_step(
    config: Config,
    entry: Option<Piece>,
    before: Board,
    kind: PieceKind,
    after: Board,
) -> bool {
    exists|start: Piece, piece: Piece|
        {
            &&& #[trigger] is_reachable(config, before, start, piece)
            &&& is_entry_piece(config, entry, start)
            &&& start.kind == kind
            &&& piece.kind == kind
            &&& is_lockable(config, before, piece)
            &&& spec_locked_board(before, piece.spec_points(config)) == after
        }
}

/// The node with the given index.
pub open spec fn node_at(graph: GraphModel, index: int) -> GraphNode {
    GraphNode::spec_from_key(graph.nodes[index])
}

/// Edge `e` stands for a placement: it leaves a node from which the search
/// goes on, its weight is the byte of a kind, locking a piece of that kind
/// leads from the board it leaves to the board it enters, and the node it
/// enters has one move less.
pub open spec fn edge_is_step(
    config: Config,
    entry: Option<Piece>,
    graph: GraphModel,
    e: int,
) -> bool {
    let edge = graph.edges[e];
    let from = node_at(graph, edge.0 as int);
    let to = node_at(graph, edge.1 as int);
    &&& edge.2 < 7
    &&& from.is_expandable()
    &&& from.moves_remaining == to.moves_remaining + 1
    &&& is_placement_step(config, entry, from.board, spec_piece_kinds()[edge.2 as int], to.board)
}

/// What holds of the graph all through a search: the first node is the
/// source, every edge stands for a placement, and every sink is a node whose
/// board clears perfectly.
pub open spec fn search_inv(config: Config, entry: Option<Piece>, graph: GraphModel) -> bool {
    &&& graph.wf()
    &&& graph.source == Some(0usize)
    &&& graph.nodes.len() >= 1
    &&& forall|e: int|
        0 <= e < graph.edges.len() ==> #[trigger] edge_is_step(config, entry, graph, e)
    &&& forall|i: int|
        0 <= i < graph.sinks.len() ==> node_at(
            graph,
            #[trigger] graph.sinks[i] as int,
        ).board.spec_can_perfect_clear()
}

/// The later graph has the nodes of the earlier one at the same indices.
pub open spec fn graph_grows(before: GraphModel, after: GraphModel) -> bool {
    &&& before.nodes.len() <= after.nodes.len()
    &&& forall|i: int|
        0 <= i < before.nodes.len() ==> #[trigger] after.nodes[i]
            == before.nodes[i]
}

/// Growth of a graph carries over a graph in between.
pub proof fn lemma_graph_grows_chain(
    first: GraphModel,
    second: GraphModel,
    third: GraphModel,
)
    requires
        graph_grows(first, second),
        graph_grows(second, third),
    ensures
        graph_grows(first, third),
{
    assert forall|i: int| 0 <= i < first.nodes.len() implies #[trigger] third.nodes[i]
        == first.nodes[i] by {
        assert(second.nodes[i] == first.nodes[i]);
    }
}

/// A new edge that stands for a placement keeps the graph what a search
/// wants it to be.
pub proof fn lemma_inv_after_edge(
    config: Config,
    entry: Option<Piece>,
    before: GraphModel,
    after: GraphModel,
    edge: (usize, usize, u8),
)
    requires
        search_inv(config, entry, before),
        after.wf(),
        after.source == before.source,
        after.sinks == before.sinks,
        after.nodes == before.nodes,
        after.edges == before.edges.push(edge),
        edge.0 < before.nodes.len(),
        edge.1 < before.nodes.len(),
        edge.2 < 7,
        node_at(before, edge.0 as int).is_expandable(),
        node_at(before, edge.0 as int).moves_remaining == node_at(
            before,
            edge.1 as int,
        ).moves_remaining + 1,
        is_placement_step(
            config,
            entry,
            node_at(before, edge.0 as int).board,
            spec_piece_kinds()[edge.2 as int],
            node_at(before, edge.1 as int).board,
        ),
    ensures
        search_inv(config, entry, after),
        graph_grows(before, after),
{
    assert forall|e: int| 0 <= e < after.edges.len() implies #[trigger] edge_is_step(
        config,
        entry,
        after,
        e,
    ) by {
        if e < before.edges.len() {
            assert(edge_is_step(config, entry, before, e));
            assert(after.edges[e] == before.edges[e]);
        } else {
            assert(after.edges[e] == edge);
        }
    }
    assert forall|i: int| 0 <= i < after.sinks.len() implies node_at(
        after,
        #[trigger] after.sinks[i] as int,
    ).board.spec_can_perfect_clear() by {
        assert(node_at(before, before.sinks[i] as int).board.spec_can_perfect_clear());
    }
}

/// A new node keeps the graph what a search wants it to be, also when the
/// node is made a sink because its board clears perfectly.
pub proof fn lemma_inv_after_node(
    config: Config,
    entry: Option<Piece>,
    before: GraphModel,
    after: GraphModel,
    weight: u128,
)
    requires
        search_inv(config, entry, before),
        after.wf(),
        after.source == before.source,
        after.nodes == before.nodes.push(weight),
        after.edges == before.edges,
        after.sinks == before.sinks || (after.sinks == before.sinks.push(
            before.nodes.len() as usize,
        ) && GraphNode::spec_from_key(weight).board.spec_can_perfect_clear()),
    ensures
        search_inv(config, entry, after),
        graph_grows(before, after),
{
    assert forall|e: int| 0 <= e < after.edges.len() implies #[trigger] edge_is_step(
        config,
        entry,
        after,
        e,
    ) by {
        assert(edge_is_step(config, entry, before, e));
        let edge = before.edges[e];
        assert(after.nodes[edge.0 as int] == before.nodes[edge.0 as int]);
        assert(after.nodes[edge.1 as int] == before.nodes[edge.1 as int]);
    }
    assert forall|i: int| 0 <= i < after.sinks.len() implies #[trigger] after.sinks[i]
        < after.nodes.len() && node_at(
        after,
        after.sinks[i] as int,
    ).board.spec_can_perfect_clear() by {
        if i < before.sinks.len() {
            assert(after.sinks[i] == before.sinks[i]);
            assert(node_at(before, before.sinks[i] as int).board.spec_can_perfect_clear());
        }
    }
}

} // verus!
