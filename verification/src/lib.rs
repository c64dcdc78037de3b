//! A perfect-clear solver for ten-column falling-block playfields.
//!
//! The playfield is a bit-packed window of six rows. Pieces move under a
//! rotation system with wall kicks, and the search explores every lockable
//! placement of every piece it is given, collecting the boards it reaches in a
//! directed graph whose sinks are the boards that clear perfectly.

pub mod utils;
pub mod board;
pub mod config;
pub mod piece;
pub mod game;
pub mod state;
pub mod placement;
pub mod search_graph;
pub mod solution;
pub mod solver;
