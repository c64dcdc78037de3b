//! A graph with a source and sinks.

use vstd::prelude::*;
use crate::utils::weight_indexed_graph::{GraphError, WeightIndexedGraph, GRAPH_LIMIT};

verus! {

/// A directed graph with one node to start from and nodes to arrive at.
pub struct SourceSinkGraph {
    pub source: Option<usize>,
    pub sinks: Vec<usize>,
    pub graph: WeightIndexedGraph,
}

/// What a graph holds: the weights of its nodes and its edges, each in the
/// order in which they were added, its source and its sinks.
pub struct GraphModel {
    pub nodes: Seq<u128>,
    pub edges: Seq<(usize, usize, u8)>,
    pub source: Option<usize>,
    pub sinks: Seq<usize>,
}

impl GraphModel {
    /// No two nodes carry the same weight, every edge joins two nodes, the
    /// source and the sinks are nodes, and there are no more nodes or edges
    /// than a graph takes.
    pub open spec fn wf(self) -> bool {
        &&& self.nodes.len() <= GRAPH_LIMIT
        &&& self.edges.len() <= GRAPH_LIMIT
        &&& forall|i: int, j: int|
            0 <= i < j < self.nodes.len() ==> #[trigger] self.nodes[i] != #[trigger] self.nodes[j]
        &&& forall|e: int|
            0 <= e < self.edges.len() ==> (#[trigger] self.edges[e]).0 < self.nodes.len()
                && self.edges[e].1 < self.nodes.len()
        &&& self.source matches Some(source) ==> source < self.nodes.len()
        &&& forall|i: int| 0 <= i < self.sinks.len() ==> #[trigger] self.sinks[i] < self.nodes.len()
    }

    /// The index of the node with this weight.
    pub open spec fn index_of(self, weight: u128) -> int {
        choose|i: int| 0 <= i < self.nodes.len() && self.nodes[i] == weight
    }

    /// The graph with one more node, which is also a sink if `is_sink` says
    /// so.
    pub open spec fn with_new_node(self, weight: u128, is_sink: bool) -> GraphModel {
        GraphModel {
            nodes: self.nodes.push(weight),
            sinks: if is_sink {
                self.sinks.push(self.nodes.len() as usize)
            } else {
                self.sinks
            },
            ..self
        }
    }

    /// The graph with one more edge; a graph at its limit stays as it is.
    pub open spec fn with_edge(self, edge: (usize, usize, u8)) -> GraphModel {
        if self.edges.len() >= GRAPH_LIMIT {
            self
        } else {
            GraphModel { edges: self.edges.push(edge), ..self }
        }
    }
}

impl SourceSinkGraph {
    /// What the graph holds.
    pub open spec fn model(self) -> GraphModel {
        GraphModel {
            nodes: self.graph.nodes(),
            edges: self.graph.edges(),
            source: self.source,
            sinks: self.sinks@,
        }
    }

    /// The graph finds its nodes by their weights, and what it holds is well
    /// formed.
    pub open spec fn wf(self) -> bool {
        self.graph.wf() && self.model().wf()
    }

    /// A graph that finds its nodes by their weights is well formed once its
    /// source and its sinks are nodes of it.
    pub proof fn lemma_wf(self)
        requires
            self.graph.wf(),
            self.source matches Some(source) ==> source < self.graph.nodes().len(),
            forall|i: int|
                0 <= i < self.sinks@.len() ==> #[trigger] self.sinks@[i] < self.graph.nodes().len(),
        ensures
            self.wf(),
    {
        self.graph.lemma_wf();
    }

    /// A graph without nodes, without a source and without sinks.
    pub fn new() -> (graph: SourceSinkGraph)
        ensures
            graph.wf(),
            graph.source is None,
            graph.sinks@.len() == 0,
            graph.graph.nodes().len() == 0,
            graph.graph.edges().len() == 0,
    {
        let graph =
            SourceSinkGraph { source: None, sinks: Vec::new(), graph: WeightIndexedGraph::new() };
        proof {
            graph.lemma_wf();
        }
        graph
    }

    /// Makes the node with this weight the source, adding the node if no node
    /// carries the weight yet.
    pub fn add_source_node(&mut self, weight: u128) -> (result: Result<usize, GraphError>)
        requires
            old(self).wf(),
        ensures
            final(self).wf(),
            final(self).sinks == old(self).sinks,
            final(self).graph.edges() == old(self).graph.edges(),
            match result {
                Ok(index) => final(self).source == Some(index) && index < final(self).graph.nodes().len() && final(self).graph.nodes()[index as int] == weight
                    && final(self).graph.nodes() == if old(self).graph.nodes().contains(weight) {
                    old(self).graph.nodes()
                } else {
                    old(self).graph.nodes().push(weight)
                },
                Err(e) => e == GraphError::NodeLimit && final(self).source == old(self).source
                    && final(self).graph.nodes() == old(self).graph.nodes() && old(self).graph.nodes().len() == GRAPH_LIMIT,
            },
    {
        let result = match self.graph.add_node(weight) {
            Ok(idx) => {
                self.source = Some(idx);
                Ok(idx)
            },
            Err(e) => Err(e),
        };
        proof {
            assert forall|i: int| 0 <= i < self.sinks@.len() implies #[trigger] self.sinks@[i]
                < self.graph.nodes().len() by {
                assert(old(self).model().sinks[i] < old(self).model().nodes.len());
            }
            self.lemma_wf();
        }
        result
    }

    /// Makes the node with this weight a sink, adding the node if no node
    /// carries the weight yet.
    pub fn add_sink_node(&mut self, weight: u128) -> (result: Result<usize, GraphError>)
        requires
            old(self).wf(),
        ensures
            final(self).wf(),
            final(self).source == old(self).source,
            final(self).graph.edges() == old(self).graph.edges(),
            match result {
                Ok(index) => final(self).sinks@ == old(self).sinks@.push(index) && index < final(self).graph.nodes().len() && final(self).graph.nodes()[index as int] == weight
                    && final(self).graph.nodes() == if old(self).graph.nodes().contains(weight) {
                    old(self).graph.nodes()
                } else {
                    old(self).graph.nodes().push(weight)
                },
                Err(e) => e == GraphError::NodeLimit && final(self).sinks == old(self).sinks
                    && final(self).graph.nodes() == old(self).graph.nodes() && old(self).graph.nodes().len() == GRAPH_LIMIT,
            },
    {
        let result = match self.graph.add_node(weight) {
            Ok(idx) => {
                self.sinks.push(idx);
                Ok(idx)
            },
            Err(e) => Err(e),
        };
        proof {
            assert forall|i: int| 0 <= i < self.sinks@.len() implies #[trigger] self.sinks@[i]
                < self.graph.nodes().len() by {
                if i < old(self).sinks@.len() {
                    assert(old(self).model().sinks[i] < old(self).model().nodes.len());
                }
            }
            assert(old(self).model().source == old(self).source);
            self.lemma_wf();
        }
        result
    }
}

} // verus!
