//! Geometry primitives and small containers shared by the solver.

pub mod point;
pub mod rotation;
pub mod direction;
pub mod piece_kind_set;
pub mod weight_indexed_graph;
pub mod source_sink_graph;
