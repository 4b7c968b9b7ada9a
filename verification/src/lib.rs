//! A puzzle engine for solitaire chess: a capture-only chess variant on a
//! four-by-four board, where the player wins by reducing the position to a
//! single piece.
//!
//! The crate holds the board model with its move-legality rules, an
//! exhaustive solver, and a randomized generator of solvable positions.

pub mod board;
pub mod generator;
pub mod lists;
pub mod solver;
pub mod text;
