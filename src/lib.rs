//! Monte Carlo Tree Search for two-player, zero-sum, perfect-information
//! games, with a pluggable leaf evaluator.
//!
//! All quantities of the search are fixed-point integers: a value of
//! `fixed::ONE` stands for 1.0 (see the `fixed` module).
pub mod fixed;
pub mod game;
pub mod mcts;
pub mod nn;
pub mod tictactoe;
