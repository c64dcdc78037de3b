//! A directed graph kept by `petgraph` that finds its nodes by their weights.

use std::collections::HashMap;
use petgraph::algo::all_simple_paths;
use petgraph::graph::{EdgeIndex, Graph, NodeIndex};
use petgraph::Directed;
use vstd::prelude::*;

verus! {

broadcast use vstd::std_specs::hash::group_hash_axioms;

/// `petgraph::graph::Graph`, a graph kept as a list of nodes and a list of
/// edges. Nothing is known of a value of it but what the functions below
/// state.
#[verifier::external_type_specification]
#[verifier::external_body]
#[verifier::reject_recursive_types(N)]
#[verifier::reject_recursive_types(E)]
#[verifier::reject_recursive_types(Ty)]
#[verifier::reject_recursive_types(Ix)]
pub struct ExGraph<N, E, Ty, Ix>(Graph<N, E, Ty, Ix>);

/// `petgraph::Directed`, the marker of a graph whose edges have a direction.
#[verifier::external_type_specification]
#[verifier::external_body]
pub struct ExDirected(Directed);

/// The weights of the nodes of a graph, in the order of their indices, which
/// is the order in which they were added.
pub uninterp spec fn graph_nodes(graph: Graph<u128, u8, Directed, u32>) -> Seq<u128>;

/// The edges of a graph, each as source, target and weight, in the order of
/// their indices, which is the order in which they were added.
pub uninterp spec fn graph_edges(graph: Graph<u128, u8, Directed, u32>) -> Seq<(usize, usize, u8)>;

/// What `petgraph::algo::all_simple_paths` yields, first to last, for a graph
/// with these nodes and edges: each path as the indices of its nodes.
pub uninterp spec fn simple_paths(
    nodes: Seq<u128>,
    edges: Seq<(usize, usize, u8)>,
    from: usize,
    to: usize,
    min_intermediate_nodes: usize,
    max_intermediate_nodes: Option<usize>,
) -> Seq<Seq<usize>>;

/// The largest number of nodes, and of edges, that a graph with 32-bit
/// indices takes.
pub const GRAPH_LIMIT: usize = 0xFFFF_FFFE;

/// `Graph::new`: a directed graph without nodes and without edges.
#[verifier::external_body]
fn graph_new() -> (graph: Graph<u128, u8, Directed, u32>)
    ensures
        graph_nodes(graph) == Seq::<u128>::empty(),
        graph_edges(graph) == Seq::<(usize, usize, u8)>::empty(),
{
    Graph::new()
}

/// `Graph::node_count`: the number of nodes.
#[verifier::external_body]
fn graph_node_count(graph: &Graph<u128, u8, Directed, u32>) -> (count: usize)
    ensures
        count == graph_nodes(*graph).len(),
{
    graph.node_count()
}

/// `Graph::edge_count`: the number of edges.
#[verifier::external_body]
fn graph_edge_count(graph: &Graph<u128, u8, Directed, u32>) -> (count: usize)
    ensures
        count == graph_edges(*graph).len(),
{
    graph.edge_count()
}

/// `Graph::add_node`: the node is added behind the others, its index is the
/// number of nodes there were, and the edges stay. The graph must not be at
/// the limit of its index type, where `add_node` panics.
#[verifier::external_body]
fn graph_add_node(graph: &mut Graph<u128, u8, Directed, u32>, weight: u128) -> (index: usize)
    requires
        graph_nodes(*old(graph)).len() < GRAPH_LIMIT,
    ensures
        graph_nodes(*final(graph)) == graph_nodes(*old(graph)).push(weight),
        graph_edges(*final(graph)) == graph_edges(*old(graph)),
        index == graph_nodes(*old(graph)).len(),
{
    graph.add_node(weight).index()
}

/// `Graph::add_edge`: the edge is added behind the others, its index is the
/// number of edges there were, and the nodes stay. Both nodes must exist and
/// the graph must not be at the limit of its index type: `add_edge` panics
/// otherwise.
#[verifier::external_body]
fn graph_add_edge(graph: &mut Graph<u128, u8, Directed, u32>, a: usize, b: usize, weight: u8) -> (index:
    usize)
    requires
        a < graph_nodes(*old(graph)).len(),
        b < graph_nodes(*old(graph)).len(),
        graph_nodes(*old(graph)).len() <= GRAPH_LIMIT,
        graph_edges(*old(graph)).len() < GRAPH_LIMIT,
    ensures
        graph_edges(*final(graph)) == graph_edges(*old(graph)).push((a, b, weight)),
        graph_nodes(*final(graph)) == graph_nodes(*old(graph)),
        index == graph_edges(*old(graph)).len(),
{
    graph.add_edge(NodeIndex::new(a), NodeIndex::new(b), weight).index()
}

/// `Graph::node_weight`: the weight of the node with the given index.
#[verifier::external_body]
fn graph_node_weight(graph: &Graph<u128, u8, Directed, u32>, a: usize) -> (weight: Option<u128>)
    requires
        a < graph_nodes(*graph).len() <= GRAPH_LIMIT,
    ensures
        weight == Some(graph_nodes(*graph)[a as int]),
{
    graph.node_weight(NodeIndex::new(a)).copied()
}

/// `Graph::edge_weight`: the weight of the edge with the given index.
#[verifier::external_body]
fn graph_edge_weight(graph: &Graph<u128, u8, Directed, u32>, e: usize) -> (weight: Option<u8>)
    requires
        e < graph_edges(*graph).len() <= GRAPH_LIMIT,
    ensures
        weight == Some(graph_edges(*graph)[e as int].2),
{
    graph.edge_weight(EdgeIndex::new(e)).copied()
}

/// `Graph::find_edge`: the index of an edge from `a` to `b`, or `None` if
/// there is no such edge. Which edge it is, where several lead from `a` to
/// `b`, is left open here.
#[verifier::external_body]
fn graph_find_edge(graph: &Graph<u128, u8, Directed, u32>, a: usize, b: usize) -> (found: Option<
    usize,
>)
    requires
        a < graph_nodes(*graph).len() <= GRAPH_LIMIT,
        b < graph_nodes(*graph).len(),
        graph_edges(*graph).len() <= GRAPH_LIMIT,
    ensures
        match found {
            Some(e) => e < graph_edges(*graph).len() && graph_edges(*graph)[e as int].0 == a
                && graph_edges(*graph)[e as int].1 == b,
            None => forall|e: int|
                0 <= e < graph_edges(*graph).len() ==> !((#[trigger] graph_edges(*graph)[e]).0 == a
                    && graph_edges(*graph)[e].1 == b),
        },
{
    match graph.find_edge(NodeIndex::new(a), NodeIndex::new(b)) {
        Some(e) => Some(e.index()),
        None => None,
    }
}

/// `petgraph::algo::all_simple_paths`, collected, for two nodes that differ
/// and any number of nodes in between: each path it yields, as the indices of
/// its nodes, leads from `from` to `to` along edges of the graph and visits no
/// node twice, and every such path is among those it yields. The order of the
/// paths, and how often one of them comes where several edges join the same
/// two nodes, is what the function makes of the graph.
#[verifier::external_body]
fn graph_all_simple_paths(graph: &Graph<u128, u8, Directed, u32>, from: usize, to: usize) -> (paths:
    Vec<Vec<usize>>)
    requires
        from < graph_nodes(*graph).len() <= GRAPH_LIMIT,
        to < graph_nodes(*graph).len(),
        from != to,
        graph_edges(*graph).len() <= GRAPH_LIMIT,
    ensures
        paths.deep_view() == simple_paths(
            graph_nodes(*graph),
            graph_edges(*graph),
            from,
            to,
            0,
            None,
        ),
        forall|i: int|
            0 <= i < paths.deep_view().len() ==> is_simple_path(
                graph_nodes(*graph),
                graph_edges(*graph),
                from,
                to,
                #[trigger] paths.deep_view()[i],
            ),
        forall|path: Seq<usize>| #[trigger]
            is_simple_path(graph_nodes(*graph), graph_edges(*graph), from, to, path)
                ==> paths.deep_view().contains(path),
{
    all_simple_paths::<Vec<NodeIndex>, _>(graph, NodeIndex::new(from), NodeIndex::new(to), 0, None)
        .map(|path| path.into_iter().map(|node| node.index()).collect())
        .collect()
}

/// Whether some edge with this weight leads from `a` to `b`.
pub open spec fn has_edge(edges: Seq<(usize, usize, u8)>, a: usize, b: usize, weight: u8) -> bool {
    exists|e: int| 0 <= e < edges.len() && #[trigger] edges[e] == (a, b, weight)
}

/// Whether some edge leads from `a` to `b`.
pub open spec fn is_connected(edges: Seq<(usize, usize, u8)>, a: usize, b: usize) -> bool {
    exists|e: int| 0 <= e < edges.len() && (#[trigger] edges[e]).0 == a && edges[e].1 == b
}

/// Step `i` of the path follows an edge.
pub open spec fn is_path_step(edges: Seq<(usize, usize, u8)>, path: Seq<usize>, i: int) -> bool {
    is_connected(edges, path[i], path[i + 1])
}

/// The path leads from `from` to `to` along edges, through nodes of the
/// graph, and visits no node twice.
pub open spec fn is_simple_path(
    nodes: Seq<u128>,
    edges: Seq<(usize, usize, u8)>,
    from: usize,
    to: usize,
    path: Seq<usize>,
) -> bool {
    &&& path.len() >= 1
    &&& path[0] == from
    &&& path[path.len() - 1] == to
    &&& forall|i: int| 0 <= i < path.len() ==> #[trigger] path[i] < nodes.len()
    &&& forall|i: int| 0 <= i < path.len() - 1 ==> #[trigger] is_path_step(edges, path, i)
    &&& forall|i: int, j: int| 0 <= i < j < path.len() ==> #[trigger] path[i] != #[trigger] path[j]
}

/// Why a graph did not take a node or an edge.
#[derive(Debug, Clone, Copy, PartialEq, Eq, Structural)]
pub enum GraphError {
    /// The graph holds as many nodes as its indices can tell apart.
    NodeLimit,
    /// The graph holds as many edges as its indices can tell apart.
    EdgeLimit,
}

/// A directed graph that finds a node again by its weight: no two nodes
/// carry the same weight. Nodes and edges are only ever added.
pub struct WeightIndexedGraph {
    graph: Graph<u128, u8, Directed, u32>,
    index_for_weight: HashMap<u128, usize>,
}

impl WeightIndexedGraph {
    /// The weights of the nodes, in the order in which they were added.
    pub closed spec fn nodes(self) -> Seq<u128> {
        graph_nodes(self.graph)
    }

    /// The edges as source, target and weight, in the order in which they
    /// were added.
    pub closed spec fn edges(self) -> Seq<(usize, usize, u8)> {
        graph_edges(self.graph)
    }

    /// Whether some edge with this weight leads from `a` to `b`.
    pub open spec fn has_edge(self, a: usize, b: usize, weight: u8) -> bool {
        has_edge(self.edges(), a, b, weight)
    }

    /// Whether some edge leads from `a` to `b`.
    pub open spec fn is_connected(self, a: usize, b: usize) -> bool {
        is_connected(self.edges(), a, b)
    }

    /// The index says of every weight where its node is, every node is in
    /// the index, and every edge joins two nodes of the graph.
    pub closed spec fn wf(self) -> bool {
        &&& self.nodes().len() <= GRAPH_LIMIT
        &&& self.edges().len() <= GRAPH_LIMIT
        &&& forall|weight: u128| #[trigger]
            self.index_for_weight@.contains_key(weight) ==> self.index_for_weight@[weight]
                < self.nodes().len() && self.nodes()[self.index_for_weight@[weight] as int]
                == weight
        &&& forall|i: int|
            0 <= i < self.nodes().len() ==> self.index_for_weight@.contains_key(
                #[trigger] self.nodes()[i],
            ) && self.index_for_weight@[self.nodes()[i]] == i
        &&& forall|e: int|
            0 <= e < self.edges().len() ==> (#[trigger] self.edges()[e]).0 < self.nodes().len()
                && self.edges()[e].1 < self.nodes().len()
    }

    /// A well-formed graph has no more nodes or edges than a graph takes, no
    /// two of its nodes carry the same weight, and every edge joins two of
    /// its nodes.
    pub proof fn lemma_wf(self)
        requires
            self.wf(),
        ensures
            self.nodes().len() <= GRAPH_LIMIT,
            self.edges().len() <= GRAPH_LIMIT,
            forall|i: int, j: int|
                0 <= i < j < self.nodes().len() ==> #[trigger] self.nodes()[i]
                    != #[trigger] self.nodes()[j],
            forall|e: int|
                0 <= e < self.edges().len() ==> (#[trigger] self.edges()[e]).0 < self.nodes().len()
                    && self.edges()[e].1 < self.nodes().len(),
    {
        assert forall|i: int, j: int| 0 <= i < j < self.nodes().len() implies #[trigger] self.nodes()[i]
            != #[trigger] self.nodes()[j] by {
            assert(self.index_for_weight@[self.nodes()[i]] == i);
            assert(self.index_for_weight@[self.nodes()[j]] == j);
        }
    }

    /// A graph without nodes.
    pub fn new() -> (graph: WeightIndexedGraph)
        ensures
            graph.wf(),
            graph.nodes().len() == 0,
            graph.edges().len() == 0,
    {
        WeightIndexedGraph { graph: graph_new(), index_for_weight: HashMap::new() }
    }

    /// The number of nodes.
    pub fn node_count(&self) -> (count: usize)
        ensures
            count == self.nodes().len(),
    {
        graph_node_count(&self.graph)
    }

    /// The number of edges.
    pub fn edge_count(&self) -> (count: usize)
        ensures
            count == self.edges().len(),
    {
        graph_edge_count(&self.graph)
    }

    /// The index of the node with this weight, if there is one.
    pub fn get_node_index(&self, weight: u128) -> (index: Option<usize>)
        requires
            self.wf(),
        ensures
            match index {
                Some(i) => i < self.nodes().len() && self.nodes()[i as int] == weight,
                None => !self.nodes().contains(weight),
            },
    {
        match self.index_for_weight.get(&weight) {
            Some(index) => Some(*index),
            None => None,
        }
    }

    /// The weight of the node with this index, if there is one.
    pub fn node_weight(&self, index: usize) -> (weight: Option<u128>)
        requires
            self.wf(),
        ensures
            weight == if index < self.nodes().len() {
                Some(self.nodes()[index as int])
            } else {
                None
            },
    {
        if index < graph_node_count(&self.graph) {
            graph_node_weight(&self.graph, index)
        } else {
            None
        }
    }

    /// The index of the node with this weight: that of the node that carries
    /// it already, or else that of a new node. A graph at its limit takes no
    /// new node and stays as it is.
    pub fn add_node(&mut self, weight: u128) -> (result: Result<usize, GraphError>)
        requires
            old(self).wf(),
        ensures
            final(self).wf(),
            final(self).edges() == old(self).edges(),
            match result {
                Ok(index) => index < final(self).nodes().len() && final(self).nodes()[index as int]
                    == weight && final(self).nodes() == if old(self).nodes().contains(weight) {
                    old(self).nodes()
                } else {
                    old(self).nodes().push(weight)
                },
                Err(e) => e == GraphError::NodeLimit && !old(self).nodes().contains(weight) && old(self).nodes().len() == GRAPH_LIMIT && final(self).nodes() == old(self).nodes(),
            },
    {
        match self.index_for_weight.get(&weight) {
            Some(index) => {
                return Ok(*index);
            },
            None => {},
        }
        if graph_node_count(&self.graph) >= GRAPH_LIMIT {
            return Err(GraphError::NodeLimit);
        }
        let idx = graph_add_node(&mut self.graph, weight);
        self.index_for_weight.insert(weight, idx);
        proof {
            let before = old(self).nodes();
            let after = self.nodes();
            assert forall|i: int| 0 <= i < after.len() implies self.index_for_weight@.contains_key(
                #[trigger] after[i],
            ) && self.index_for_weight@[after[i]] == i by {
                if i < before.len() {
                    assert(after[i] == before[i]);
                    assert(before[i] != weight);
                }
            }
            assert forall|w: u128| #[trigger]
                self.index_for_weight@.contains_key(w) implies self.index_for_weight@[w]
                < after.len() && after[self.index_for_weight@[w] as int] == w by {
                if w != weight {
                    assert(old(self).index_for_weight@.contains_key(w));
                }
            }
        }
        Ok(idx)
    }

    /// Adds an edge from `a` to `b`. A graph at its limit takes no new edge
    /// and stays as it is.
    pub fn add_edge(&mut self, a: usize, b: usize, weight: u8) -> (result: Result<
        usize,
        GraphError,
    >)
        requires
            old(self).wf(),
            a < old(self).nodes().len(),
            b < old(self).nodes().len(),
        ensures
            final(self).wf(),
            final(self).nodes() == old(self).nodes(),
            match result {
                Ok(index) => index == old(self).edges().len() && final(self).edges() == old(self).edges().push((a, b, weight)),
                Err(e) => e == GraphError::EdgeLimit && old(self).edges().len() == GRAPH_LIMIT
                    && final(self).edges() == old(self).edges(),
            },
    {
        if graph_edge_count(&self.graph) >= GRAPH_LIMIT {
            return Err(GraphError::EdgeLimit);
        }
        let idx = graph_add_edge(&mut self.graph, a, b, weight);
        proof {
            let before = old(self).edges();
            let after = self.edges();
            assert forall|e: int| 0 <= e < after.len() implies (#[trigger] after[e]).0
                < self.nodes().len() && after[e].1 < self.nodes().len() by {
                if e < before.len() {
                    assert(after[e] == before[e]);
                }
            }
        }
        Ok(idx)
    }

    /// The weight of an edge that leads from `a` to `b`, if there is one.
    pub fn edge_between(&self, a: usize, b: usize) -> (weight: Option<u8>)
        requires
            self.wf(),
        ensures
            match weight {
                Some(w) => self.has_edge(a, b, w),
                None => !self.is_connected(a, b),
            },
    {
        let count = graph_node_count(&self.graph);
        if a >= count || b >= count {
            return None;
        }
        match graph_find_edge(&self.graph, a, b) {
            Some(e) => {
                let weight = graph_edge_weight(&self.graph, e);
                proof {
                    assert(self.edges()[e as int] == (a, b, self.edges()[e as int].2));
                }
                weight
            },
            None => None,
        }
    }

    /// The paths without a repeated node that lead from one node to another,
    /// each as the indices of its nodes: all of them, and nothing else.
    pub fn simple_paths(&self, from: usize, to: usize) -> (paths: Vec<Vec<usize>>)
        requires
            self.wf(),
            from < self.nodes().len(),
            to < self.nodes().len(),
            from != to,
        ensures
            path_views(paths@) == simple_paths(self.nodes(), self.edges(), from, to, 0, None),
            forall|i: int|
                0 <= i < paths@.len() ==> is_simple_path(
                    self.nodes(),
                    self.edges(),
                    from,
                    to,
                    #[trigger] paths@[i]@,
                ),
            forall|path: Seq<usize>| #[trigger]
                is_simple_path(self.nodes(), self.edges(), from, to, path) ==> path_views(
                    paths@,
                ).contains(path),
    {
        let paths = graph_all_simple_paths(&self.graph, from, to);
        proof {
            let named = simple_paths(self.nodes(), self.edges(), from, to, 0, None);
            assert(path_views(paths@).len() == named.len());
            assert forall|i: int| 0 <= i < named.len() implies path_views(paths@)[i] == named[i] by {
                assert(paths.deep_view()[i] == named[i]);
                assert(paths@[i].deep_view() =~= paths@[i]@);
            }
            assert(path_views(paths@) =~= named);
            assert forall|i: int| 0 <= i < paths@.len() implies is_simple_path(
                self.nodes(),
                self.edges(),
                from,
                to,
                #[trigger] paths@[i]@,
            ) by {
                assert(paths@[i]@ == path_views(paths@)[i]);
                assert(paths@[i]@ == paths.deep_view()[i]);
            }
        }
        paths
    }
}

/// The paths that the vectors hold.
pub open spec fn path_views(paths: Seq<Vec<usize>>) -> Seq<Seq<usize>> {
    Seq::new(paths.len(), |i: int| paths[i]@)
}

} // verus!
