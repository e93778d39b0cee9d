//! A verified engine for Conway's Game of Life on a fixed-size rectangular
//! grid with bounded (non-wrapping) edges.
//!
//! The engine owns the grid state and the single state-transition rule;
//! rendering and host bindings are left to the consumer of this crate.

pub mod renderer;
pub mod universe;
