//! Tic-tac-toe on a 3x3 board, with the best next move found by full
//! minimax search over the game tree.

pub mod board;
pub mod codec;
pub mod search;
pub mod tactics;
