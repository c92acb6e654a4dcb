//! A verified toroidal Game of Life engine.
//!
//! The grid is a fixed-size torus of binary cells. `grid` owns the cell
//! store and the wrapped 2-D addressing; `engine` drives the automaton:
//! seeding, one-generation steps, and the two render projections.

pub mod engine;
pub mod grid;
