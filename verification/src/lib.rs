//! Conway's Game of Life: the B3/S23 automaton on a two-dimensional lattice.
//!
//! Three boards play the same game and differ in how they keep it: one bit
//! per cell with every count taken afresh (`dense`), state and count per
//! cell with the counts kept up to date (`cached`), and a set of live cells
//! on a plane without edges (`grid`). Every board is described by the set of
//! its live points, and every operation says what it does to that set.
pub mod rules;
pub mod cell;
pub mod bits;
pub mod bounds;
pub mod grid;
pub mod dense;
pub mod cached;
pub mod board;
pub mod laws;
pub mod control;
mod random;
