//! A verified tic-tac-toe engine: a 3x3 board with placement and
//! terminal-state detection, an exhaustive minimax solver that picks a
//! game-theoretically optimal move, and a coordinate parser for the
//! `row:col` input format.

pub mod board;
pub mod parse;
pub mod solver;
