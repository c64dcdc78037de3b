//! From the graph of a search to its solutions: the paths from the source to
//! the sinks, told placement by placement.

use vstd::prelude::*;
use crate::board::Board;
use crate::piece::PieceKind;
use crate::search_graph::{node_at, GraphEdge, GraphNode};
use crate::utils::source_sink_graph::{GraphModel, SourceSinkGraph};
use crate::utils::weight_indexed_graph::{
    has_edge, is_connected, is_path_step, is_simple_path, path_views, simple_paths,
};

verus! {

/// Every edge of the graph carries the byte of a kind.
pub open spec fn has_kind_weights(graph: GraphModel) -> bool {
    forall|e: int| 0 <= e < graph.edges.len() ==> (#[trigger] graph.edges[e]).2 < 7
}

/// Step `i` of the path follows an edge of the graph.
pub open spec fn is_walk_step(graph: GraphModel, path: Seq<usize>, i: int) -> bool {
    is_connected(graph.edges, path[i], path[i + 1])
}

/// The path leads through the graph from `from` to `to`: it starts at the
/// one and ends at the other, every entry is a node, and every step follows
/// an edge.
pub open spec fn is_walk_between(
    graph: GraphModel,
    from: usize,
    to: usize,
    path: Seq<usize>,
) -> bool {
    &&& path.len() >= 1
    &&& path[0] == from
    &&& path[path.len() - 1] == to
    &&& forall|i: int| 0 <= i < path.len() ==> #[trigger] path[i] < graph.nodes.len()
    &&& forall|i: int| 0 <= i < path.len() - 1 ==> #[trigger] is_walk_step(graph, path, i)
}

/// Entry `i` of the solution tells step `i` of the path: the board is that
/// of the node the step leaves, and an edge with the byte of the kind leads
/// from there to the node the step enters.
pub open spec fn is_solution_step(
    graph: GraphModel,
    path: Seq<usize>,
    solution: Seq<(Board, PieceKind)>,
    i: int,
) -> bool {
    &&& solution[i].0 == node_at(graph, path[i] as int).board
    &&& has_edge(graph.edges, path[i], path[i + 1], solution[i].1.spec_index() as u8)
}

/// The solution tells the path step by step.
pub open spec fn is_solution_of(
    graph: GraphModel,
    path: Seq<usize>,
    solution: Seq<(Board, PieceKind)>,
) -> bool {
    &&& solution.len() == path.len() - 1
    &&& forall|i: int| 0 <= i < solution.len() ==> #[trigger] is_solution_step(graph, path, solution, i)
}

/// Turns a path through the graph into a solution: for each step the board
/// it leaves and the kind of piece placed. Anything that is no path from
/// `from` to `to` through the graph gives `None`.
pub fn path_to_solution(graph: &SourceSinkGraph, from: usize, to: usize, path: &Vec<usize>) -> (result:
    Option<Vec<(Board, PieceKind)>>)
    requires
        graph.wf(),
        has_kind_weights(graph.model()),
    ensures
        result is Some <==> is_walk_between(graph.model(), from, to, path@),
        result matches Some(solution) ==> is_solution_of(graph.model(), path@, solution@),
{
    let count = graph.graph.node_count();
    let len = path.len();
    if len == 0 || path[0] != from || path[len - 1] != to || path[len - 1] >= count {
        return None;
    }
    let mut solution: Vec<(Board, PieceKind)> = Vec::new();
    let mut i: usize = 0;
    while i < len - 1
        invariant
            0 <= i <= len - 1,
            len == path@.len(),
            count == graph.model().nodes.len(),
            graph.wf(),
            has_kind_weights(graph.model()),
            path@[len - 1] < count,
            solution@.len() == i,
            forall|k: int| 0 <= k < i ==> #[trigger] path@[k] < count,
            forall|k: int| 0 <= k < i ==> #[trigger] is_walk_step(graph.model(), path@, k),
            forall|k: int| 0 <= k < i ==> #[trigger] is_solution_step(graph.model(), path@, solution@, k),
        decreases len - 1 - i,
    {
        let a = path[i];
        let b = path[i + 1];
        if a >= count {
            return None;
        }
        let weight = match graph.graph.edge_between(a, b) {
            Some(weight) => weight,
            None => {
                proof {
                    assert(!is_walk_step(graph.model(), path@, i as int));
                }
                return None;
            },
        };
        let kind = match GraphEdge::from_weight(weight) {
            Some(edge) => edge.piece_kind,
            None => {
                return None;
            },
        };
        let board = match graph.graph.node_weight(a) {
            Some(key) => GraphNode::from_key(key).board,
            None => {
                return None;
            },
        };
        let ghost earlier = solution@;
        solution.push((board, kind));
        proof {
            assert forall|k: int| 0 <= k < i + 1 implies #[trigger] is_solution_step(
                graph.model(),
                path@,
                solution@,
                k,
            ) by {
                if k < i {
                    assert(is_solution_step(graph.model(), path@, earlier, k));
                    assert(solution@[k] == earlier[k]);
                }
            }
            assert(is_walk_step(graph.model(), path@, i as int)) by {
                let e = choose|e: int|
                    0 <= e < graph.model().edges.len() && #[trigger] graph.model().edges[e] == (
                        a,
                        b,
                        weight,
                    );
                assert(graph.model().edges[e].0 == a && graph.model().edges[e].1 == b);
            }
        }
        i += 1;
    }
    proof {
        assert forall|k: int| 0 <= k < path@.len() implies #[trigger] path@[k] < count by {
            if k == len - 1 {
            }
        }
    }
    Some(solution)
}

/// The paths among `paths` that lead through the graph from `from` to `to`,
/// in their order.
pub open spec fn spec_walks(
    graph: GraphModel,
    from: usize,
    to: usize,
    paths: Seq<Seq<usize>>,
) -> Seq<Seq<usize>>
    decreases paths.len(),
{
    if paths.len() == 0 {
        Seq::empty()
    } else if is_walk_between(graph, from, to, paths.last()) {
        spec_walks(graph, from, to, paths.drop_last()).push(paths.last())
    } else {
        spec_walks(graph, from, to, paths.drop_last())
    }
}

/// The paths that are looked at for a sink: the path that stays at the
/// source where the sink is the source itself, else the paths without a
/// repeated node from the source to the sink.
pub open spec fn spec_candidate_paths(graph: GraphModel, source: usize, sink: usize) -> Seq<
    Seq<usize>,
> {
    if sink == source {
        seq![seq![source]]
    } else {
        simple_paths(graph.nodes, graph.edges, source, sink, 0, None)
    }
}

/// The paths from the source to the first `upto` sinks, sink by sink.
pub open spec fn spec_solution_walks(graph: GraphModel, source: usize, upto: int) -> Seq<
    Seq<usize>,
>
    decreases upto,
{
    if upto <= 0 {
        Seq::empty()
    } else {
        spec_solution_walks(graph, source, upto - 1) + spec_walks(
            graph,
            source,
            graph.sinks[upto - 1],
            spec_candidate_paths(graph, source, graph.sinks[upto - 1]),
        )
    }
}

/// There is one solution for each path, in the order of the paths, and it
/// tells that path.
pub open spec fn solutions_tell(
    graph: GraphModel,
    walks: Seq<Seq<usize>>,
    solutions: Seq<Vec<(Board, PieceKind)>>,
) -> bool {
    &&& solutions.len() == walks.len()
    &&& forall|k: int|
        0 <= k < walks.len() ==> is_solution_of(graph, #[trigger] walks[k], solutions[k]@)
}

/// Adds to `solutions` the solution of every path among `paths` that leads
/// through the graph from `from` to `to`.
pub fn collect_solutions(
    graph: &SourceSinkGraph,
    from: usize,
    to: usize,
    paths: &Vec<Vec<usize>>,
    solutions: &mut Vec<Vec<(Board, PieceKind)>>,
)
    requires
        graph.wf(),
        has_kind_weights(graph.model()),
    ensures
        final(solutions)@.len() == old(solutions)@.len() + spec_walks(
            graph.model(),
            from,
            to,
            path_views(paths@),
        ).len(),
        forall|k: int| 0 <= k < old(solutions)@.len() ==> final(solutions)@[k] == old(solutions)@[k],
        forall|k: int|
            0 <= k < spec_walks(graph.model(), from, to, path_views(paths@)).len() ==> is_solution_of(
                graph.model(),
                #[trigger] spec_walks(graph.model(), from, to, path_views(paths@))[k],
                final(solutions)@[old(solutions)@.len() + k]@,
            ),
{
    let mut i: usize = 0;
    while i < paths.len()
        invariant
            0 <= i <= paths.len(),
            graph.wf(),
            has_kind_weights(graph.model()),
            solutions@.len() == old(solutions)@.len() + spec_walks(
                graph.model(),
                from,
                to,
                path_views(paths@).take(i as int),
            ).len(),
            forall|k: int| 0 <= k < old(solutions)@.len() ==> solutions@[k] == old(solutions)@[k],
            forall|k: int|
                0 <= k < spec_walks(graph.model(), from, to, path_views(paths@).take(i as int)).len()
                    ==> is_solution_of(
                    graph.model(),
                    #[trigger] spec_walks(graph.model(), from, to, path_views(paths@).take(i as int))[k],
                    solutions@[old(solutions)@.len() + k]@,
                ),
        decreases paths.len() - i,
    {
        let ghost seen = path_views(paths@).take(i as int);
        let ghost next = path_views(paths@).take(i + 1);
        let ghost earlier = solutions@;
        proof {
            assert(next.drop_last() =~= seen);
            assert(next.last() == paths@[i as int]@);
        }
        match path_to_solution(graph, from, to, &paths[i]) {
            Some(solution) => {
                solutions.push(solution);
                proof {
                    let walks = spec_walks(graph.model(), from, to, next);
                    assert forall|k: int| 0 <= k < walks.len() implies is_solution_of(
                        graph.model(),
                        #[trigger] walks[k],
                        solutions@[old(solutions)@.len() + k]@,
                    ) by {
                        if k < walks.len() - 1 {
                            assert(walks[k] == spec_walks(graph.model(), from, to, seen)[k]);
                            assert(solutions@[old(solutions)@.len() + k] == earlier[old(
                                solutions,
                            )@.len() + k]);
                        }
                    }
                }
            },
            None => {},
        }
        i += 1;
    }
    proof {
        assert(path_views(paths@).take(paths@.len() as int) =~= path_views(paths@));
    }
}

/// The path leads through the graph from `from` to `to` and visits no node
/// twice.
pub open spec fn is_simple_walk(graph: GraphModel, from: usize, to: usize, path: Seq<usize>) -> bool {
    &&& is_walk_between(graph, from, to, path)
    &&& forall|i: int, j: int| 0 <= i < j < path.len() ==> #[trigger] path[i] != #[trigger] path[j]
}

/// Every path to one of the first `upto` sinks that visits no node twice is
/// among the paths that the solutions are told from.
pub open spec fn holds_simple_walks(
    graph: GraphModel,
    source: usize,
    upto: int,
    walks: Seq<Seq<usize>>,
) -> bool {
    forall|sink: int, path: Seq<usize>|
        0 <= sink < upto && #[trigger] is_simple_walk(graph, source, graph.sinks[sink], path)
            ==> walks.contains(path)
}

/// A path among `paths` that leads through the graph from `from` to `to` is
/// among the paths that are kept.
pub proof fn lemma_walk_is_kept(
    graph: GraphModel,
    from: usize,
    to: usize,
    paths: Seq<Seq<usize>>,
    path: Seq<usize>,
)
    requires
        paths.contains(path),
        is_walk_between(graph, from, to, path),
    ensures
        spec_walks(graph, from, to, paths).contains(path),
    decreases paths.len(),
{
    let kept = spec_walks(graph, from, to, paths);
    let at = choose|at: int| 0 <= at < paths.len() && paths[at] == path;
    if at == paths.len() - 1 {
        assert(kept[kept.len() - 1] == path);
    } else {
        assert(paths.drop_last()[at] == path);
        lemma_walk_is_kept(graph, from, to, paths.drop_last(), path);
        let earlier = spec_walks(graph, from, to, paths.drop_last());
        let found = choose|found: int| 0 <= found < earlier.len() && earlier[found] == path;
        assert(kept[found] == path);
    }
}

/// The solutions that a graph holds: one for each path that leads from the
/// source to a sink, sink by sink in the order of the sinks, and for each
/// sink in the order in which the paths to it are found. The path that stays
/// at the source is one of them when the source is itself a sink. Every path
/// from the source to a sink that visits no node twice has its solution.
pub fn get_perfect_clear_paths_from_graph(node_graph: &SourceSinkGraph) -> (solutions: Vec<
    Vec<(Board, PieceKind)>,
>)
    requires
        node_graph.wf(),
        has_kind_weights(node_graph.model()),
    ensures
        match node_graph.source {
            Some(source) => solutions_tell(
                node_graph.model(),
                spec_solution_walks(node_graph.model(), source, node_graph.sinks.len() as int),
                solutions@,
            ) && holds_simple_walks(
                node_graph.model(),
                source,
                node_graph.sinks.len() as int,
                spec_solution_walks(node_graph.model(), source, node_graph.sinks.len() as int),
            ),
            None => solutions@.len() == 0,
        },
{
    let mut solutions: Vec<Vec<(Board, PieceKind)>> = Vec::new();
    let source = match &node_graph.source {
        Some(source) => *source,
        None => {
            return solutions;
        },
    };
    let mut i: usize = 0;
    while i < node_graph.sinks.len()
        invariant
            0 <= i <= node_graph.sinks.len(),
            node_graph.wf(),
            node_graph.source == Some(source),
            has_kind_weights(node_graph.model()),
            solutions_tell(node_graph.model(), spec_solution_walks(node_graph.model(), source, i as int), solutions@),
            holds_simple_walks(
                node_graph.model(),
                source,
                i as int,
                spec_solution_walks(node_graph.model(), source, i as int),
            ),
        decreases node_graph.sinks.len() - i,
    {
        let sink = node_graph.sinks[i];
        assert(node_graph.model().sinks[i as int] < node_graph.model().nodes.len());
        let paths = if sink == source {
            let mut stay: Vec<usize> = Vec::new();
            stay.push(source);
            let mut paths: Vec<Vec<usize>> = Vec::new();
            paths.push(stay);
            assert(path_views(paths@) =~= seq![seq![source]]);
            paths
        } else {
            node_graph.graph.simple_paths(source, sink)
        };
        let ghost earlier = solutions@;
        let ghost walks_before = spec_solution_walks(node_graph.model(), source, i as int);
        collect_solutions(node_graph, source, sink, &paths, &mut solutions);
        proof {
            let graph = node_graph.model();
            let added = spec_walks(graph, source, sink, path_views(paths@));
            let walks = spec_solution_walks(graph, source, i + 1);
            assert(walks == walks_before + added);
            assert forall|at: int, path: Seq<usize>|
                0 <= at < i + 1 && #[trigger] is_simple_walk(
                    graph,
                    source,
                    graph.sinks[at],
                    path,
                ) implies walks.contains(path) by {
                if at < i {
                    assert(walks_before.contains(path));
                    let k = choose|k: int| 0 <= k < walks_before.len() && walks_before[k] == path;
                    assert(walks[k] == path);
                } else {
                    if sink == source {
                        assert(path.len() == 1) by {
                            if path.len() > 1 {
                                assert(path[0] != path[path.len() - 1]);
                            }
                        }
                        assert(path =~= seq![source]);
                        assert(path_views(paths@)[0] == path);
                    } else {
                        assert(is_simple_path(graph.nodes, graph.edges, source, sink, path)) by {
                            assert forall|step: int| 0 <= step < path.len() - 1 implies #[trigger] is_path_step(
                                graph.edges,
                                path,
                                step,
                            ) by {
                                assert(is_walk_step(graph, path, step));
                            }
                        }
                    }
                    lemma_walk_is_kept(graph, source, sink, path_views(paths@), path);
                    let k = choose|k: int| 0 <= k < added.len() && added[k] == path;
                    assert(walks[walks_before.len() + k] == path);
                }
            }
            assert forall|k: int| 0 <= k < walks.len() implies is_solution_of(
                node_graph.model(),
                #[trigger] walks[k],
                solutions@[k]@,
            ) by {
                if k < walks_before.len() {
                    assert(walks[k] == walks_before[k]);
                    assert(solutions@[k] == earlier[k]);
                } else {
                    assert(walks[k] == added[k - walks_before.len()]);
                }
            }
        }
        i += 1;
    }
    solutions
}

/// Every path that the solutions of a graph are told from leads from the
/// source to a sink.
pub proof fn lemma_solution_walks(graph: GraphModel, source: usize, upto: int, k: int) -> (sink:
    int)
    requires
        0 <= upto <= graph.sinks.len(),
        0 <= k < spec_solution_walks(graph, source, upto).len(),
    ensures
        0 <= sink < upto,
        is_walk_between(graph, source, graph.sinks[sink], spec_solution_walks(graph, source, upto)[k]),
    decreases upto,
{
    let earlier = spec_solution_walks(graph, source, upto - 1);
    if k < earlier.len() {
        lemma_solution_walks(graph, source, upto - 1, k)
    } else {
        let to = graph.sinks[upto - 1];
        lemma_walks_are_walks(
            graph,
            source,
            to,
            spec_candidate_paths(graph, source, to),
            k - earlier.len(),
        );
        upto - 1
    }
}

/// Every path that is kept leads through the graph from `from` to `to`.
pub proof fn lemma_walks_are_walks(
    graph: GraphModel,
    from: usize,
    to: usize,
    paths: Seq<Seq<usize>>,
    k: int,
)
    requires
        0 <= k < spec_walks(graph, from, to, paths).len(),
    ensures
        is_walk_between(graph, from, to, spec_walks(graph, from, to, paths)[k]),
    decreases paths.len(),
{
    if paths.len() > 0 {
        let earlier = spec_walks(graph, from, to, paths.drop_last());
        if k < earlier.len() {
            lemma_walks_are_walks(graph, from, to, paths.drop_last(), k);
        }
    }
}

} // verus!
